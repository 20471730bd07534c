use alan_core::elfin::{import_elfin, TokenKind};

#[test]
fn test_token_id_roundtrip() {
    let token = TokenKind::CONCEPT;
    let id = token.id();
    let token2 = TokenKind::from_id(id).unwrap();
    assert_eq!(token, token2);
}

#[test]
fn test_is_keyword() {
    assert!(TokenKind::CONCEPT.is_keyword());
    assert!(TokenKind::SYSTEM.is_keyword());
    assert!(!TokenKind::IDENTIFIER.is_keyword());
    assert!(!TokenKind::NUMBER.is_keyword());
}

#[test]
fn every_token_survives_the_round_trip_through_its_id() {
    let all = [
        (TokenKind::CONCEPT, 5271u16),
        (TokenKind::SYSTEM, 4509),
        (TokenKind::RELATION, 1392),
        (TokenKind::LYAPUNOV, 9836),
        (TokenKind::KOOPMAN, 2380),
        (TokenKind::REVERSIBLE, 7149),
        (TokenKind::CONSTRAINT, 3064),
        (TokenKind::SPINVEC, 8764),
        (TokenKind::FLOAT, 6019),
        (TokenKind::INT, 2341),
        (TokenKind::BOOL, 9023),
        (TokenKind::STRING, 7852),
        (TokenKind::PSI_MODE, 3947),
        (TokenKind::PHI, 8561),
        (TokenKind::IDENTIFIER, 1234),
        (TokenKind::STRING_LITERAL, 5678),
        (TokenKind::INTEGER, 9101),
        (TokenKind::NUMBER, 1121),
        (TokenKind::BOOLEAN, 3141),
        (TokenKind::EOF, 0),
        (TokenKind::ERROR, 9999),
    ];
    for (token, id) in all {
        assert_eq!(token.id(), id);
        assert_eq!(TokenKind::from_id(id), Some(token));
    }
}

#[test]
fn unknown_ids_name_no_token() {
    assert_eq!(TokenKind::from_id(1), None);
    assert_eq!(TokenKind::from_id(5272), None);
    assert_eq!(TokenKind::from_id(u16::MAX), None);
}

#[test]
fn keywords_are_the_first_seven_kinds() {
    assert!(TokenKind::CONSTRAINT.is_keyword());
    assert!(!TokenKind::SPINVEC.is_keyword());
    assert!(!TokenKind::EOF.is_keyword());
    assert_eq!(TokenKind::PSI_MODE.name(), "PSI_MODE");
}

#[test]
fn import_accepts_any_source() {
    assert!(import_elfin("").is_ok());
    assert!(import_elfin("concept wheel { diameter: float }").is_ok());
}
