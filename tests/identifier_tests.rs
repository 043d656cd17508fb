use blocky::identifier::{IdValidationError, Identifier};

#[test]
fn parses_namespace_and_name() {
    let id = Identifier::from_str("blocky:grass_block").unwrap();
    assert_eq!(id.get_namespace(), "blocky");
    assert_eq!(id.get_name(), "grass_block");
    assert_eq!(id.as_string(), "blocky:grass_block");
}

#[test]
fn parses_from_owned_string() {
    let text = String::from("mod-1.x:stone_2");
    let id = Identifier::from(&text).unwrap();
    assert_eq!(id.get_namespace(), "mod-1.x");
    assert_eq!(id.get_name(), "stone_2");
}

#[test]
fn rejects_missing_colon() {
    match Identifier::from_str("grass_block") {
        Err(IdValidationError::MissingColon(s)) => assert_eq!(s, "grass_block"),
        other => panic!("unexpected {:?}", other),
    }
}

#[test]
fn rejects_too_many_colons() {
    match Identifier::from_str("a:b:c") {
        Err(IdValidationError::TooManyColons(s)) => assert_eq!(s, "a:b:c"),
        other => panic!("unexpected {:?}", other),
    }
}

#[test]
fn rejects_invalid_characters() {
    match Identifier::from_str("Blocky:grass Block") {
        Err(IdValidationError::InvalidCharacters { id, invalid_chars }) => {
            assert_eq!(id, "Blocky:grass Block");
            assert_eq!(invalid_chars, "B B");
        }
        other => panic!("unexpected {:?}", other),
    }
}

#[test]
fn rejects_empty_part() {
    match Identifier::from_str(":stone") {
        Err(IdValidationError::EmptyPart(s)) => assert_eq!(s, ":stone"),
        other => panic!("unexpected {:?}", other),
    }
    assert!(matches!(Identifier::from_str("blocky:"), Err(IdValidationError::EmptyPart(_))));
}

#[test]
fn validate_checks_both_parts() {
    assert!(Identifier::new("blocky", "dirt").validate().is_ok());
    match Identifier::new("bad ns", "dirt!").validate() {
        Err(IdValidationError::InvalidCharacters { id, invalid_chars }) => {
            assert_eq!(id, "bad ns:dirt!");
            assert_eq!(invalid_chars, " !");
        }
        other => panic!("unexpected {:?}", other),
    }
}

#[test]
fn equality_is_by_parts() {
    let a = Identifier::new("blocky", "stone");
    let b = Identifier::from_str("blocky:stone").unwrap();
    assert!(a == b);
    assert!(a != Identifier::new("blocky", "dirt"));
    assert!(a.clone() == a);
}
