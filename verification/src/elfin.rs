//! Tokens of the ELFIN language and their numeric identifiers, which are
//! shared with the implementations in other languages.

use vstd::prelude::*;

verus! {

/// The kinds of token.
#[allow(non_camel_case_types)]
#[derive(Debug, Clone, Copy, PartialEq, Eq, Hash, Structural)]
pub enum TokenKind {
    CONCEPT,
    SYSTEM,
    RELATION,
    LYAPUNOV,
    KOOPMAN,
    REVERSIBLE,
    CONSTRAINT,
    SPINVEC,
    FLOAT,
    INT,
    BOOL,
    STRING,
    PSI_MODE,
    PHI,
    IDENTIFIER,
    STRING_LITERAL,
    INTEGER,
    NUMBER,
    BOOLEAN,
    EOF,
    ERROR,
}

impl TokenKind {
    /// The numeric identifier of a kind.
    pub open spec fn spec_id(self) -> u16 {
        match self {
            TokenKind::CONCEPT => 5271,
            TokenKind::SYSTEM => 4509,
            TokenKind::RELATION => 1392,
            TokenKind::LYAPUNOV => 9836,
            TokenKind::KOOPMAN => 2380,
            TokenKind::REVERSIBLE => 7149,
            TokenKind::CONSTRAINT => 3064,
            TokenKind::SPINVEC => 8764,
            TokenKind::FLOAT => 6019,
            TokenKind::INT => 2341,
            TokenKind::BOOL => 9023,
            TokenKind::STRING => 7852,
            TokenKind::PSI_MODE => 3947,
            TokenKind::PHI => 8561,
            TokenKind::IDENTIFIER => 1234,
            TokenKind::STRING_LITERAL => 5678,
            TokenKind::INTEGER => 9101,
            TokenKind::NUMBER => 1121,
            TokenKind::BOOLEAN => 3141,
            TokenKind::EOF => 0,
            TokenKind::ERROR => 9999,
        }
    }

    /// Whether a kind is a keyword: the first seven kinds are.
    pub open spec fn spec_is_keyword(self) -> bool {
        self == TokenKind::CONCEPT || self == TokenKind::SYSTEM || self == TokenKind::RELATION
            || self == TokenKind::LYAPUNOV || self == TokenKind::KOOPMAN || self
            == TokenKind::REVERSIBLE || self == TokenKind::CONSTRAINT
    }

    /// Whether the token is a keyword.
    pub fn is_keyword(&self) -> (b: bool)
        ensures
            b == self.spec_is_keyword(),
    {
        match self {
            TokenKind::CONCEPT
            | TokenKind::SYSTEM
            | TokenKind::RELATION
            | TokenKind::LYAPUNOV
            | TokenKind::KOOPMAN
            | TokenKind::REVERSIBLE
            | TokenKind::CONSTRAINT => true,
            _ => false,
        }
    }

    /// The numeric identifier of the token.
    pub fn id(&self) -> (id: u16)
        ensures
            id == self.spec_id(),
    {
        match self {
            TokenKind::CONCEPT => 5271,
            TokenKind::SYSTEM => 4509,
            TokenKind::RELATION => 1392,
            TokenKind::LYAPUNOV => 9836,
            TokenKind::KOOPMAN => 2380,
            TokenKind::REVERSIBLE => 7149,
            TokenKind::CONSTRAINT => 3064,
            TokenKind::SPINVEC => 8764,
            TokenKind::FLOAT => 6019,
            TokenKind::INT => 2341,
            TokenKind::BOOL => 9023,
            TokenKind::STRING => 7852,
            TokenKind::PSI_MODE => 3947,
            TokenKind::PHI => 8561,
            TokenKind::IDENTIFIER => 1234,
            TokenKind::STRING_LITERAL => 5678,
            TokenKind::INTEGER => 9101,
            TokenKind::NUMBER => 1121,
            TokenKind::BOOLEAN => 3141,
            TokenKind::EOF => 0,
            TokenKind::ERROR => 9999,
        }
    }

    /// The token with the given identifier: the one kind whose identifier it
    /// is, or none where it is no kind's.
    pub fn from_id(id: u16) -> (r: Option<Self>)
        ensures
            match r {
                Some(kind) => kind.spec_id() == id,
                None => forall|kind: TokenKind| kind.spec_id() != id,
            },
    {
        match id {
            5271 => Some(TokenKind::CONCEPT),
            4509 => Some(TokenKind::SYSTEM),
            1392 => Some(TokenKind::RELATION),
            9836 => Some(TokenKind::LYAPUNOV),
            2380 => Some(TokenKind::KOOPMAN),
            7149 => Some(TokenKind::REVERSIBLE),
            3064 => Some(TokenKind::CONSTRAINT),
            8764 => Some(TokenKind::SPINVEC),
            6019 => Some(TokenKind::FLOAT),
            2341 => Some(TokenKind::INT),
            9023 => Some(TokenKind::BOOL),
            7852 => Some(TokenKind::STRING),
            3947 => Some(TokenKind::PSI_MODE),
            8561 => Some(TokenKind::PHI),
            1234 => Some(TokenKind::IDENTIFIER),
            5678 => Some(TokenKind::STRING_LITERAL),
            9101 => Some(TokenKind::INTEGER),
            1121 => Some(TokenKind::NUMBER),
            3141 => Some(TokenKind::BOOLEAN),
            0 => Some(TokenKind::EOF),
            9999 => Some(TokenKind::ERROR),
            _ => None,
        }
    }

    /// The name of the token, as it is printed.
    pub fn name(&self) -> (s: &'static str)
        ensures
            s@ == (match self {
                TokenKind::CONCEPT => "CONCEPT"@,
                TokenKind::SYSTEM => "SYSTEM"@,
                TokenKind::RELATION => "RELATION"@,
                TokenKind::LYAPUNOV => "LYAPUNOV"@,
                TokenKind::KOOPMAN => "KOOPMAN"@,
                TokenKind::REVERSIBLE => "REVERSIBLE"@,
                TokenKind::CONSTRAINT => "CONSTRAINT"@,
                TokenKind::SPINVEC => "SPINVEC"@,
                TokenKind::FLOAT => "FLOAT"@,
                TokenKind::INT => "INT"@,
                TokenKind::BOOL => "BOOL"@,
                TokenKind::STRING => "STRING"@,
                TokenKind::PSI_MODE => "PSI_MODE"@,
                TokenKind::PHI => "PHI"@,
                TokenKind::IDENTIFIER => "IDENTIFIER"@,
                TokenKind::STRING_LITERAL => "STRING_LITERAL"@,
                TokenKind::INTEGER => "INTEGER"@,
                TokenKind::NUMBER => "NUMBER"@,
                TokenKind::BOOLEAN => "BOOLEAN"@,
                TokenKind::EOF => "EOF"@,
                TokenKind::ERROR => "ERROR"@,
            }),
    {
        match self {
            TokenKind::CONCEPT => "CONCEPT",
            TokenKind::SYSTEM => "SYSTEM",
            TokenKind::RELATION => "RELATION",
            TokenKind::LYAPUNOV => "LYAPUNOV",
            TokenKind::KOOPMAN => "KOOPMAN",
            TokenKind::REVERSIBLE => "REVERSIBLE",
            TokenKind::CONSTRAINT => "CONSTRAINT",
            TokenKind::SPINVEC => "SPINVEC",
            TokenKind::FLOAT => "FLOAT",
            TokenKind::INT => "INT",
            TokenKind::BOOL => "BOOL",
            TokenKind::STRING => "STRING",
            TokenKind::PSI_MODE => "PSI_MODE",
            TokenKind::PHI => "PHI",
            TokenKind::IDENTIFIER => "IDENTIFIER",
            TokenKind::STRING_LITERAL => "STRING_LITERAL",
            TokenKind::INTEGER => "INTEGER",
            TokenKind::NUMBER => "NUMBER",
            TokenKind::BOOLEAN => "BOOLEAN",
            TokenKind::EOF => "EOF",
            TokenKind::ERROR => "ERROR",
        }
    }
}

/// No two kinds share an identifier.
pub proof fn lemma_ids_distinct(a: TokenKind, b: TokenKind)
    requires
        a.spec_id() == b.spec_id(),
    ensures
        a == b,
{
}

/// A symbol: a token kind and its text.
pub struct ElfinSymbol {
    pub kind: TokenKind,
    pub value: String,
}

/// What can go wrong when working with ELFIN.
#[derive(Debug)]
pub enum ElfinError {
    /// The source could not be parsed.
    ParseError(String),
    /// The source is ill-typed.
    TypeError(String),
    /// The source makes no sense.
    SemanticError(String),
}

/// Takes the symbols of `source` into the concept graph. No source is
/// refused.
pub fn import_elfin(source: &str) -> (r: Result<(), ElfinError>)
    ensures
        r is Ok,
{
    Ok(())
}

} // verus!
