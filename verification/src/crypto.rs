//! The header that stands before an encrypted archive, and the bytes of
//! keys and nonces. The ciphers themselves are the caller's.
//!
//! ```text
//! "PSICRYPT" | algorithm (1 or 2)
//!            | 1, twenty bytes of padding   (key used as it is)
//!            | 2, iterations u32, salt (16) (key derived with PBKDF2)
//!            | initial nonce (12) | length of AAD u32 | AAD
//! ```

use vstd::prelude::*;
use crate::bytes::{
    le_bytes, le_value, lemma_le_bytes_len, lemma_le_roundtrip, lemma_pow256_values, push_u32_le,
    read_u32_le,
};

verus! {

/// Bytes of a key.
pub const KEY_LENGTH: usize = 32;

/// Bytes of a nonce.
pub const NONCE_LENGTH: usize = 12;

/// Bytes of an authentication tag.
pub const TAG_LENGTH: usize = 16;

/// Iterations of PBKDF2 unless said otherwise.
pub const DEFAULT_PBKDF2_ITERATIONS: u32 = 100_000;

/// The most bytes encrypted as one chunk.
pub const MAX_CHUNK_SIZE: usize = 65536;

/// Bytes of a header without its AAD.
pub const FIXED_HEADER_LEN: usize = 46;

/// The magic of an encrypted archive: `PSICRYPT`.
pub open spec fn encryption_magic() -> Seq<u8> {
    seq![0x50u8, 0x53u8, 0x49u8, 0x43u8, 0x52u8, 0x59u8, 0x50u8, 0x54u8]
}

/// The cipher.
#[derive(Debug, Clone, Copy, PartialEq, Eq, Structural)]
pub enum Algorithm {
    /// ChaCha20-Poly1305.
    ChaCha20Poly1305,
    /// AES-256-GCM.
    Aes256Gcm,
}

impl Algorithm {
    /// The byte that stands for the cipher in a header.
    pub open spec fn spec_code(self) -> u8 {
        match self {
            Algorithm::ChaCha20Poly1305 => 1,
            Algorithm::Aes256Gcm => 2,
        }
    }

    /// The name of the cipher.
    pub fn name(&self) -> (s: &'static str)
        ensures
            s@ == (match self {
                Algorithm::ChaCha20Poly1305 => "ChaCha20-Poly1305"@,
                Algorithm::Aes256Gcm => "AES-256-GCM"@,
            }),
    {
        match self {
            Algorithm::ChaCha20Poly1305 => "ChaCha20-Poly1305",
            Algorithm::Aes256Gcm => "AES-256-GCM",
        }
    }

    /// The byte that stands for the cipher in a header.
    pub fn code(&self) -> (c: u8)
        ensures
            c == self.spec_code(),
    {
        match self {
            Algorithm::ChaCha20Poly1305 => 1,
            Algorithm::Aes256Gcm => 2,
        }
    }
}

impl Default for Algorithm {
    fn default() -> (a: Self)
        ensures
            a == Algorithm::ChaCha20Poly1305,
    {
        Algorithm::ChaCha20Poly1305
    }
}

/// How the key comes from what the user gives.
#[derive(Debug, Clone, Copy, PartialEq, Eq)]
pub enum KeyDerivation {
    /// The bytes given are the key.
    Direct,
    /// PBKDF2 with HMAC-SHA256.
    Pbkdf2 {
        /// Iterations.
        iterations: u32,
        /// Salt.
        salt: [u8; 16],
    },
}

/// A key derivation as mathematical values.
pub enum DerivationView {
    Direct,
    Pbkdf2 { iterations: u32, salt: Seq<u8> },
}

impl View for KeyDerivation {
    type V = DerivationView;

    open spec fn view(&self) -> DerivationView {
        match self {
            KeyDerivation::Direct => DerivationView::Direct,
            KeyDerivation::Pbkdf2 { iterations, salt } => DerivationView::Pbkdf2 {
                iterations: *iterations,
                salt: salt@,
            },
        }
    }
}

/// A key.
#[derive(Debug, Clone)]
pub struct Key {
    bytes: [u8; 32],
}

impl View for Key {
    type V = Seq<u8>;

    closed spec fn view(&self) -> Seq<u8> {
        self.bytes@
    }
}

impl Key {
    /// The key with the given bytes.
    pub fn new(bytes: [u8; 32]) -> (k: Self)
        ensures
            k@ == bytes@,
    {
        Key { bytes }
    }

    /// The key that a password is when it is used as it is: its first
    /// thirty-two bytes, with zeros behind where it has fewer.
    pub fn direct(password: &[u8]) -> (k: Self)
        ensures
            k@.len() == KEY_LENGTH,
            forall|i: int|
                0 <= i < KEY_LENGTH ==> k@[i] == (if i < password@.len() {
                    password@[i]
                } else {
                    0u8
                }),
    {
        let mut bytes: [u8; 32] = [0u8; 32];
        let n: usize = if password.len() < KEY_LENGTH {
            password.len()
        } else {
            KEY_LENGTH
        };
        let mut i: usize = 0;
        while i < n
            invariant
                i <= n,
                n <= KEY_LENGTH,
                n <= password@.len(),
                n == password@.len() || n == KEY_LENGTH,
                bytes@.len() == KEY_LENGTH,
                forall|j: int| 0 <= j < i ==> bytes@[j] == password@[j],
                forall|j: int| i <= j < KEY_LENGTH ==> bytes@[j] == 0u8,
            decreases n - i,
        {
            bytes[i] = password[i];
            i = i + 1;
        }
        Key { bytes }
    }

    /// The bytes of the key.
    pub fn as_bytes(&self) -> (b: &[u8; 32])
        ensures
            b@ == self@,
    {
        &self.bytes
    }
}

/// The nonce for chunk `counter`: the first eight bytes of the initial
/// nonce, then the counter, little-endian.
pub open spec fn chunk_nonce(initial: Seq<u8>, counter: u32) -> Seq<u8> {
    initial.subrange(0, 8) + le_bytes(counter as nat, 4)
}

/// The nonce for chunk `counter`.
pub fn nonce_for(initial: &[u8; 12], counter: u32) -> (nonce: [u8; 12])
    ensures
        nonce@ == chunk_nonce(initial@, counter),
{
    let mut nonce: [u8; 12] = *initial;
    nonce[8] = (counter % 256) as u8;
    nonce[9] = ((counter / 256) % 256) as u8;
    nonce[10] = ((counter / 65536) % 256) as u8;
    nonce[11] = (counter / 16777216) as u8;
    proof {
        reveal_with_fuel(le_bytes, 5);
        assert(nonce@ =~= chunk_nonce(initial@, counter));
    }
    nonce
}

/// The counter for the chunk after `counter`; it wraps around.
pub fn next_counter(counter: u32) -> (next: u32)
    ensures
        next == (if counter == u32::MAX {
            0
        } else {
            (counter + 1) as u32
        }),
{
    if counter == u32::MAX {
        0
    } else {
        counter + 1
    }
}

/// Why a header is refused.
#[derive(Debug, Clone, Copy, PartialEq, Eq, Structural)]
pub enum HeaderFault {
    /// The bytes end before the header does.
    UnexpectedEof,
    /// The first eight bytes are not the magic.
    InvalidMagic,
    /// The algorithm byte is neither 1 nor 2.
    InvalidAlgorithm,
    /// The key derivation byte is neither 1 nor 2.
    InvalidKeyDerivation,
    /// The AAD is longer than a 32-bit length can say.
    AadTooLarge,
}

/// The header of an encrypted archive.
#[derive(Debug, Clone)]
pub struct EncryptionHeader {
    /// The magic, `PSICRYPT`.
    pub magic: [u8; 8],
    /// The cipher.
    pub algorithm: Algorithm,
    /// How the key comes about.
    pub key_derivation: KeyDerivation,
    /// The nonce of the first chunk.
    pub initial_nonce: [u8; 12],
    /// Additional authenticated data.
    pub aad: Vec<u8>,
}

/// A header as mathematical values.
pub struct HeaderView {
    pub magic: Seq<u8>,
    pub algorithm: Algorithm,
    pub key_derivation: DerivationView,
    pub initial_nonce: Seq<u8>,
    pub aad: Seq<u8>,
}

impl View for EncryptionHeader {
    type V = HeaderView;

    open spec fn view(&self) -> HeaderView {
        HeaderView {
            magic: self.magic@,
            algorithm: self.algorithm,
            key_derivation: self.key_derivation@,
            initial_nonce: self.initial_nonce@,
            aad: self.aad@,
        }
    }
}

/// `n` zero bytes.
pub open spec fn zero_bytes(n: nat) -> Seq<u8> {
    Seq::new(n, |i: int| 0u8)
}

/// The twenty-one bytes of a key derivation.
pub open spec fn derivation_bytes(d: DerivationView) -> Seq<u8> {
    match d {
        DerivationView::Direct => seq![1u8] + zero_bytes(20),
        DerivationView::Pbkdf2 { iterations, salt } => seq![2u8] + le_bytes(iterations as nat, 4)
            + salt,
    }
}

/// The bytes of a header.
pub open spec fn header_bytes(h: HeaderView) -> Seq<u8> {
    h.magic + seq![h.algorithm.spec_code()] + derivation_bytes(h.key_derivation)
        + h.initial_nonce + le_bytes(h.aad.len(), 4) + h.aad
}

/// What `data` hold as a header, and how many bytes it takes.
pub open spec fn parse_header(data: Seq<u8>) -> Result<(HeaderView, int), HeaderFault> {
    if data.len() < 8 {
        Err(HeaderFault::UnexpectedEof)
    } else if data.subrange(0, 8) != encryption_magic() {
        Err(HeaderFault::InvalidMagic)
    } else if data.len() < 9 {
        Err(HeaderFault::UnexpectedEof)
    } else if data[8] != 1 && data[8] != 2 {
        Err(HeaderFault::InvalidAlgorithm)
    } else if data.len() < 10 {
        Err(HeaderFault::UnexpectedEof)
    } else if data[9] != 1 && data[9] != 2 {
        Err(HeaderFault::InvalidKeyDerivation)
    } else if data.len() < FIXED_HEADER_LEN {
        Err(HeaderFault::UnexpectedEof)
    } else {
        let aad_len = le_value(data.subrange(42, 46)) as int;
        if data.len() < FIXED_HEADER_LEN + aad_len {
            Err(HeaderFault::UnexpectedEof)
        } else {
            Ok(
                (
                    HeaderView {
                        magic: encryption_magic(),
                        algorithm: if data[8] == 1 {
                            Algorithm::ChaCha20Poly1305
                        } else {
                            Algorithm::Aes256Gcm
                        },
                        key_derivation: if data[9] == 1 {
                            DerivationView::Direct
                        } else {
                            DerivationView::Pbkdf2 {
                                iterations: le_value(data.subrange(10, 14)) as u32,
                                salt: data.subrange(14, 30),
                            }
                        },
                        initial_nonce: data.subrange(30, 42),
                        aad: data.subrange(46, 46 + aad_len),
                    },
                    FIXED_HEADER_LEN + aad_len,
                ),
            )
        }
    }
}

fn push_all(out: &mut Vec<u8>, bytes: &[u8])
    ensures
        final(out)@ == old(out)@ + bytes@,
{
    let mut i: usize = 0;
    while i < bytes.len()
        invariant
            i <= bytes@.len(),
            out@ == old(out)@ + bytes@.take(i as int),
        decreases bytes@.len() - i,
    {
        out.push(bytes[i]);
        i = i + 1;
        assert(out@ =~= old(out)@ + bytes@.take(i as int));
    }
    assert(bytes@.take(bytes@.len() as int) =~= bytes@);
}

fn copy_out(data: &[u8], from: usize, to: usize) -> (v: Vec<u8>)
    requires
        from <= to <= data@.len(),
    ensures
        v@ == data@.subrange(from as int, to as int),
{
    let mut v: Vec<u8> = Vec::new();
    let mut i: usize = from;
    while i < to
        invariant
            from <= i <= to,
            to <= data@.len(),
            v@ == data@.subrange(from as int, i as int),
        decreases to - i,
    {
        v.push(data[i]);
        i = i + 1;
        assert(v@ =~= data@.subrange(from as int, i as int));
    }
    v
}

impl EncryptionHeader {
    /// A header with the magic and the given parts.
    pub fn new(
        algorithm: Algorithm,
        key_derivation: KeyDerivation,
        initial_nonce: [u8; 12],
        aad: Vec<u8>,
    ) -> (h: Self)
        ensures
            h@ == (HeaderView {
                magic: encryption_magic(),
                algorithm,
                key_derivation: key_derivation@,
                initial_nonce: initial_nonce@,
                aad: aad@,
            }),
    {
        let magic: [u8; 8] = [0x50, 0x53, 0x49, 0x43, 0x52, 0x59, 0x50, 0x54];
        assert(magic@ =~= encryption_magic());
        EncryptionHeader { magic, algorithm, key_derivation, initial_nonce, aad }
    }

    /// Appends the encoded header. Refuses, and appends nothing, where the
    /// AAD is longer than a 32-bit length can say.
    pub fn write(&self, out: &mut Vec<u8>) -> (r: Result<(), HeaderFault>)
        ensures
            self@.aad.len() <= u32::MAX ==> r is Ok && final(out)@ == old(out)@ + header_bytes(
                self@,
            ),
            self@.aad.len() > u32::MAX ==> r == Err::<(), HeaderFault>(HeaderFault::AadTooLarge)
                && final(out)@ == old(out)@,
    {
        if self.aad.len() > u32::MAX as usize {
            return Err(HeaderFault::AadTooLarge);
        }
        push_all(out, self.magic.as_slice());
        out.push(self.algorithm.code());
        match self.key_derivation {
            KeyDerivation::Direct => {
                out.push(1);
                let ghost before = out@;
                let mut i: usize = 0;
                while i < 20
                    invariant
                        i <= 20,
                        out@ == before + zero_bytes(i as nat),
                    decreases 20 - i,
                {
                    out.push(0);
                    i = i + 1;
                    assert(out@ =~= before + zero_bytes(i as nat));
                }
            },
            KeyDerivation::Pbkdf2 { iterations, salt } => {
                out.push(2);
                push_u32_le(out, iterations);
                push_all(out, salt.as_slice());
            },
        }
        push_all(out, self.initial_nonce.as_slice());
        push_u32_le(out, self.aad.len() as u32);
        push_all(out, self.aad.as_slice());
        assert(out@ =~= old(out)@ + header_bytes(self@));
        Ok(())
    }

    /// Reads the header at the front of `data`, and says how many bytes it
    /// takes.
    pub fn read(data: &[u8]) -> (r: Result<(EncryptionHeader, usize), HeaderFault>)
        ensures
            match parse_header(data@) {
                Ok((h, taken)) => r is Ok && r->Ok_0.0@ == h && r->Ok_0.1 == taken,
                Err(fault) => r == Err::<(EncryptionHeader, usize), HeaderFault>(fault),
            },
    {
        let total: usize = data.len();
        if total < 8 {
            return Err(HeaderFault::UnexpectedEof);
        }
        let magic: [u8; 8] = [
            data[0],
            data[1],
            data[2],
            data[3],
            data[4],
            data[5],
            data[6],
            data[7],
        ];
        let magic_ok: bool = magic[0] == 0x50 && magic[1] == 0x53 && magic[2] == 0x49 && magic[3]
            == 0x43 && magic[4] == 0x52 && magic[5] == 0x59 && magic[6] == 0x50 && magic[7]
            == 0x54;
        proof {
            let m = data@.subrange(0, 8);
            assert(m[0] == data@[0] && m[1] == data@[1] && m[2] == data@[2] && m[3] == data@[3]
                && m[4] == data@[4] && m[5] == data@[5] && m[6] == data@[6] && m[7] == data@[7]);
            if magic_ok {
                assert(m =~= encryption_magic());
                assert(magic@ =~= encryption_magic());
            }
        }
        if !magic_ok {
            return Err(HeaderFault::InvalidMagic);
        }
        if total < 9 {
            return Err(HeaderFault::UnexpectedEof);
        }
        let algorithm: Algorithm = match data[8] {
            1 => Algorithm::ChaCha20Poly1305,
            2 => Algorithm::Aes256Gcm,
            _ => {
                return Err(HeaderFault::InvalidAlgorithm);
            },
        };
        if total < 10 {
            return Err(HeaderFault::UnexpectedEof);
        }
        let method: u8 = data[9];
        if method != 1 && method != 2 {
            return Err(HeaderFault::InvalidKeyDerivation);
        }
        if total < FIXED_HEADER_LEN {
            return Err(HeaderFault::UnexpectedEof);
        }
        let key_derivation: KeyDerivation = if method == 1 {
            KeyDerivation::Direct
        } else {
            let iterations: u32 = read_u32_le(data, 10);
            let mut salt: [u8; 16] = [0u8; 16];
            let mut i: usize = 0;
            while i < 16
                invariant
                    i <= 16,
                    46 <= data@.len(),
                    salt@.len() == 16,
                    forall|j: int| 0 <= j < i ==> salt@[j] == data@[14 + j],
                decreases 16 - i,
            {
                salt[i] = data[14 + i];
                i = i + 1;
            }
            assert(salt@ =~= data@.subrange(14, 30));
            KeyDerivation::Pbkdf2 { iterations, salt }
        };
        let mut initial_nonce: [u8; 12] = [0u8; 12];
        let mut i: usize = 0;
        while i < 12
            invariant
                i <= 12,
                46 <= data@.len(),
                initial_nonce@.len() == 12,
                forall|j: int| 0 <= j < i ==> initial_nonce@[j] == data@[30 + j],
            decreases 12 - i,
        {
            initial_nonce[i] = data[30 + i];
            i = i + 1;
        }
        assert(initial_nonce@ =~= data@.subrange(30, 42));
        let aad_len: u32 = read_u32_le(data, 42);
        if ((total - FIXED_HEADER_LEN) as u64) < aad_len as u64 {
            return Err(HeaderFault::UnexpectedEof);
        }
        let end: usize = FIXED_HEADER_LEN + aad_len as usize;
        let aad: Vec<u8> = copy_out(data, FIXED_HEADER_LEN, end);
        Ok((EncryptionHeader { magic, algorithm, key_derivation, initial_nonce, aad }, end))
    }
}

/// Whether a header is one that `write` takes and `read` gives back: it has
/// the magic, a salt of sixteen bytes where it has one, a nonce of twelve
/// bytes, and AAD no longer than a 32-bit length can say.
pub open spec fn well_formed(h: HeaderView) -> bool {
    &&& h.magic == encryption_magic()
    &&& h.initial_nonce.len() == NONCE_LENGTH
    &&& h.aad.len() <= u32::MAX
    &&& match h.key_derivation {
        DerivationView::Direct => true,
        DerivationView::Pbkdf2 { iterations, salt } => salt.len() == 16,
    }
}

/// An encoded header reads back as itself, whatever follows it.
pub proof fn theorem_header_roundtrip(h: HeaderView, rest: Seq<u8>)
    requires
        well_formed(h),
    ensures
        parse_header(header_bytes(h) + rest) == Ok::<(HeaderView, int), HeaderFault>(
            (h, FIXED_HEADER_LEN + h.aad.len()),
        ),
{
    let data = header_bytes(h) + rest;
    lemma_pow256_values();
    lemma_le_bytes_len(h.aad.len(), 4);
    lemma_le_roundtrip(h.aad.len(), 4);
    assert(data.subrange(0, 8) =~= encryption_magic());
    match h.key_derivation {
        DerivationView::Direct => {
            assert(data[9] == 1);
        },
        DerivationView::Pbkdf2 { iterations, salt } => {
            lemma_le_bytes_len(iterations as nat, 4);
            lemma_le_roundtrip(iterations as nat, 4);
            assert(data[9] == 2);
            assert(data.subrange(10, 14) =~= le_bytes(iterations as nat, 4));
            assert(data.subrange(14, 30) =~= salt);
        },
    }
    assert(data.subrange(30, 42) =~= h.initial_nonce);
    assert(data.subrange(42, 46) =~= le_bytes(h.aad.len(), 4));
    assert(data.subrange(46, 46 + h.aad.len() as int) =~= h.aad);
}

} // verus!
