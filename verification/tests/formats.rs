use alan_core::compat::{
    migrate_oscillator_state, verify_header, ArchiveHeader, CompatError, FeatureFlags, IoFault,
    SchemaVersion, DEFAULT_OSCILLATOR_COUNT,
};
use alan_core::crypto::{
    next_counter, nonce_for, Algorithm, EncryptionHeader, HeaderFault, Key, KeyDerivation,
    DEFAULT_PBKDF2_ITERATIONS, KEY_LENGTH,
};

#[test]
fn test_schema_version_serialization() {
    let schema = SchemaVersion::new(128, 1_700_000_000);
    let mut buffer = Vec::new();

    // Write and read back
    schema.write(&mut buffer);
    let (read_schema, end) = SchemaVersion::read(&buffer, 0).unwrap();

    // Compare
    assert_eq!(read_schema.version, schema.version);
    assert_eq!(read_schema.oscillator_count, schema.oscillator_count);
    assert_eq!(read_schema.features.has_audio, schema.features.has_audio);
    assert_eq!(read_schema.features.has_video, schema.features.has_video);
    assert_eq!(read_schema, schema);
    assert_eq!(end, buffer.len());
}

#[test]
fn test_archive_header_serialization() {
    let header = ArchiveHeader::new(128, 1_700_000_000);
    let mut buffer = Vec::new();

    // Write and read back
    header.write(&mut buffer);
    let read_header = ArchiveHeader::read(&buffer).unwrap();

    // Compare
    assert_eq!(read_header.magic, header.magic);
    assert_eq!(read_header.schema.version, header.schema.version);
    assert_eq!(
        read_header.schema.oscillator_count,
        header.schema.oscillator_count
    );
    assert_eq!(read_header.session_count, header.session_count);
}

#[test]
fn schema_bytes_are_fixed() {
    let schema = SchemaVersion {
        version: 2,
        oscillator_count: 256,
        features: FeatureFlags::default(),
        compat_flags: 0x01020304,
        created_at: 5,
    };
    let mut buffer = vec![0xAA];
    schema.write(&mut buffer);
    assert_eq!(
        buffer,
        vec![
            0xAA, 30, 0, 0, 0, 2, 0, 0, 0, 0, 1, 0, 0, 0, 0, 0, 0, 1, 1, 0, 0, 0, 1, 4, 3, 2, 1,
            5, 0, 0, 0, 0, 0, 0, 0
        ]
    );
    assert_eq!(SchemaVersion::read(&buffer, 1), Ok((schema, 35)));
}

#[test]
fn schema_read_rejects_short_and_malformed_bytes() {
    let schema = SchemaVersion::new(4, 0);
    let mut buffer = Vec::new();
    schema.write(&mut buffer);
    assert_eq!(SchemaVersion::read(&buffer[..3], 0), Err(IoFault::UnexpectedEof));
    assert_eq!(SchemaVersion::read(&buffer[..33], 0), Err(IoFault::UnexpectedEof));
    let mut bad_flag = buffer.clone();
    bad_flag[16] = 2;
    assert_eq!(SchemaVersion::read(&bad_flag, 0), Err(IoFault::InvalidData));
    let mut short_len = buffer.clone();
    short_len[0] = 29;
    assert_eq!(SchemaVersion::read(&short_len, 0), Err(IoFault::InvalidData));
}

#[test]
fn schema_compatibility() {
    assert!(SchemaVersion::new(128, 0).is_compatible());
    assert!(SchemaVersion::new(128, 0).needs_oscillator_migration());
    assert!(!SchemaVersion::new(DEFAULT_OSCILLATOR_COUNT, 0).needs_oscillator_migration());
    assert!(!SchemaVersion::new(0, 0).is_compatible());
    let mut old = SchemaVersion::new(16, 0);
    old.version = 1;
    assert!(old.is_compatible());
    old.version = 3;
    assert!(!old.is_compatible());
    old.version = 2;
    old.features.has_audio = false;
    assert!(old.is_compatible());
    old.features.has_video = false;
    assert!(!old.is_compatible());
}

#[test]
fn archive_header_checksum_covers_every_byte_before_it() {
    let header = ArchiveHeader::new(DEFAULT_OSCILLATOR_COUNT, 77);
    let mut buffer = Vec::new();
    header.write(&mut buffer);
    assert_eq!(buffer.len(), 48);
    assert_eq!(&buffer[..6], b"PSIARC");
    assert!(ArchiveHeader::read(&buffer).unwrap().is_valid());
    for i in 0..buffer.len() {
        let mut damaged = buffer.clone();
        damaged[i] ^= 0x01;
        assert!(
            matches!(ArchiveHeader::read(&damaged), Err(CompatError::IoError(_))),
            "a flipped bit in byte {} went unnoticed",
            i
        );
    }
    assert!(matches!(
        ArchiveHeader::read(&buffer[..47]),
        Err(CompatError::IoError(IoFault::UnexpectedEof))
    ));
    assert!(matches!(
        ArchiveHeader::read(&buffer[..5]),
        Err(CompatError::IoError(IoFault::UnexpectedEof))
    ));
}

#[test]
fn test_verify_archive() {
    // A valid header
    let header = ArchiveHeader::new(DEFAULT_OSCILLATOR_COUNT, 0);
    let mut buffer = Vec::new();
    header.write(&mut buffer);
    let read = ArchiveHeader::read(&buffer).unwrap();
    assert!(verify_header(&read).is_ok());

    // An invalid header: wrong magic
    let mut invalid_header = header;
    invalid_header.magic = *b"INVALI";
    let mut buffer = Vec::new();
    invalid_header.write(&mut buffer);
    assert!(ArchiveHeader::read(&buffer).is_err());
    assert!(verify_header(&invalid_header).is_err());
}

#[test]
fn verify_header_names_the_mismatch() {
    let other = ArchiveHeader::new(128, 0);
    assert!(matches!(
        verify_header(&other),
        Err(CompatError::OscillatorCountMismatch(128, 256))
    ));
    let mut unsupported = ArchiveHeader::new(256, 0);
    unsupported.schema.version = 9;
    assert!(matches!(
        verify_header(&unsupported),
        Err(CompatError::UnsupportedVersion(9))
    ));
}

#[test]
fn compat_test_oscillator_migration() {
    // Create test data for 4 oscillators with 2 values each
    let source = vec![
        1.0f32, 2.0, // Oscillator 0
        3.0, 4.0, // Oscillator 1
        5.0, 6.0, // Oscillator 2
        7.0, 8.0, // Oscillator 3
    ];

    // Test upsizing from 4 to 6 oscillators
    let upsize = migrate_oscillator_state(&source, 4, 6, 0.0);
    assert_eq!(
        upsize,
        vec![
            1.0, 2.0, // Oscillator 0
            3.0, 4.0, // Oscillator 1
            5.0, 6.0, // Oscillator 2
            7.0, 8.0, // Oscillator 3
            0.0, 0.0, // Oscillator 4 (zero-padded)
            0.0, 0.0, // Oscillator 5 (zero-padded)
        ]
    );

    // Test downsizing from 4 to 2 oscillators
    let downsize = migrate_oscillator_state(&source, 4, 2, 0.0);
    assert_eq!(
        downsize,
        vec![
            1.0, 2.0, // Oscillator 0
            3.0, 4.0, // Oscillator 1
                 // Oscillators 2 and 3 are truncated
        ]
    );
}

#[test]
fn test_oscillator_migration_zero_to_zero() {
    // Both source and target are 0, which would be a division by zero
    // in a naive implementation
    let source = Vec::<f32>::new();
    let result = migrate_oscillator_state(&source, 0, 0, 0.0);
    assert_eq!(result, Vec::<f32>::new());
}

#[test]
fn mod_test_oscillator_migration() {
    // Source with 2 oscillators and 2 values each
    let source = vec![1.0f32, 2.0, 3.0, 4.0];

    // Migrate up to 3 oscillators
    let upsize = migrate_oscillator_state(&source, 2, 3, 0.0);
    assert_eq!(upsize, vec![1.0, 2.0, 3.0, 4.0, 0.0, 0.0]);

    // Migrate down to 1 oscillator
    let downsize = migrate_oscillator_state(&source, 2, 1, 0.0);
    assert_eq!(downsize, vec![1.0, 2.0]);
}

#[test]
fn test_encryption_header() {
    let header = EncryptionHeader::new(
        Algorithm::default(),
        KeyDerivation::Pbkdf2 {
            iterations: DEFAULT_PBKDF2_ITERATIONS,
            salt: [0, 1, 2, 3, 4, 5, 6, 7, 8, 9, 10, 11, 12, 13, 14, 15],
        },
        [0, 1, 2, 3, 4, 5, 6, 7, 8, 9, 10, 11],
        Vec::new(),
    );
    let mut buffer = Vec::new();

    // Write and read back
    header.write(&mut buffer).unwrap();
    let (read_header, _) = EncryptionHeader::read(&buffer).unwrap();

    // Compare
    assert_eq!(read_header.magic, header.magic);
    assert_eq!(read_header.algorithm, header.algorithm);
    assert_eq!(read_header.initial_nonce, header.initial_nonce);

    // Check key derivation matches
    match (header.key_derivation, read_header.key_derivation) {
        (KeyDerivation::Direct, KeyDerivation::Direct) => {
            // Both are Direct, good
        }
        (
            KeyDerivation::Pbkdf2 {
                iterations: it1,
                salt: salt1,
            },
            KeyDerivation::Pbkdf2 {
                iterations: it2,
                salt: salt2,
            },
        ) => {
            assert_eq!(it1, it2);
            assert_eq!(salt1, salt2);
        }
        _ => {
            panic!("Key derivation methods don't match");
        }
    }
}

#[test]
fn encryption_header_bytes_are_fixed() {
    let header = EncryptionHeader::new(
        Algorithm::Aes256Gcm,
        KeyDerivation::Direct,
        [9; 12],
        vec![0xAB, 0xCD],
    );
    let mut buffer = Vec::new();
    header.write(&mut buffer).unwrap();
    let mut expected = b"PSICRYPT".to_vec();
    expected.push(2);
    expected.push(1);
    expected.extend_from_slice(&[0; 20]);
    expected.extend_from_slice(&[9; 12]);
    expected.extend_from_slice(&[2, 0, 0, 0]);
    expected.extend_from_slice(&[0xAB, 0xCD]);
    assert_eq!(buffer, expected);
    buffer.extend_from_slice(&[1, 2, 3]);
    let (read, taken) = EncryptionHeader::read(&buffer).unwrap();
    assert_eq!(taken, 48);
    assert_eq!(read.algorithm, Algorithm::Aes256Gcm);
    assert_eq!(read.key_derivation, KeyDerivation::Direct);
    assert_eq!(read.aad, vec![0xAB, 0xCD]);
    assert_eq!(Algorithm::Aes256Gcm.name(), "AES-256-GCM");
    assert_eq!(Algorithm::ChaCha20Poly1305.name(), "ChaCha20-Poly1305");
}

#[test]
fn encryption_header_faults() {
    let header = EncryptionHeader::new(Algorithm::default(), KeyDerivation::Direct, [0; 12], vec![1]);
    let mut buffer = Vec::new();
    header.write(&mut buffer).unwrap();
    assert_eq!(EncryptionHeader::read(&buffer[..7]).err(), Some(HeaderFault::UnexpectedEof));
    assert_eq!(EncryptionHeader::read(&buffer[..46]).err(), Some(HeaderFault::UnexpectedEof));
    let mut bad = buffer.clone();
    bad[0] = b'X';
    assert_eq!(EncryptionHeader::read(&bad).err(), Some(HeaderFault::InvalidMagic));
    let mut bad = buffer.clone();
    bad[8] = 3;
    assert_eq!(EncryptionHeader::read(&bad).err(), Some(HeaderFault::InvalidAlgorithm));
    let mut bad = buffer.clone();
    bad[9] = 0;
    assert_eq!(EncryptionHeader::read(&bad).err(), Some(HeaderFault::InvalidKeyDerivation));
}

#[test]
fn direct_keys_are_the_password_padded_with_zeros() {
    let password = b"test_password";
    let key = Key::direct(password);
    assert_eq!(key.as_bytes().len(), KEY_LENGTH);
    assert_eq!(&key.as_bytes()[..password.len()], password);
    assert!(key.as_bytes()[password.len()..].iter().all(|b| *b == 0));
    let long = [7u8; 40];
    assert_eq!(Key::direct(&long).as_bytes(), &[7u8; 32]);
    assert_eq!(Key::new([3; 32]).as_bytes(), &[3u8; 32]);
}

#[test]
fn nonces_count_in_their_last_four_bytes() {
    let initial = [1, 2, 3, 4, 5, 6, 7, 8, 9, 10, 11, 12];
    assert_eq!(nonce_for(&initial, 0), [1, 2, 3, 4, 5, 6, 7, 8, 0, 0, 0, 0]);
    assert_eq!(
        nonce_for(&initial, 0x01020304),
        [1, 2, 3, 4, 5, 6, 7, 8, 4, 3, 2, 1]
    );
    assert_eq!(next_counter(5), 6);
    assert_eq!(next_counter(u32::MAX), 0);
}
