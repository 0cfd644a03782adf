use stylecs::{pascal_case_to_snake_case, validate_identifier, Identifier, Interner, Name};

#[test]
fn identifier_constructors() {
    let mut interner = Interner::new();
    let alpha = Identifier::new(&mut interner, "alpha").unwrap();
    assert_eq!(alpha.as_str(), "alpha");
    assert!(Identifier::new(&mut interner, "bad char").is_err());
    assert!(Identifier::validate("fine_123").is_ok());
    assert!(Identifier::validate("küche").is_err());
    let private = Identifier::private(&mut interner);
    assert_eq!(private.as_str(), "_");
    let again = Identifier::new(&mut interner, "alpha").unwrap();
    assert_eq!(alpha, again);
    assert_ne!(alpha, private);
}

#[test]
fn name_strings() {
    let mut interner = Interner::new();
    let private = Name::private(&mut interner, "private").unwrap();
    let private_string = private.to_text();
    assert_eq!(private_string, "private");
    let parsed = Name::parse(&mut interner, &private_string).unwrap();
    assert_eq!(parsed, private);

    let qualified = Name::new(&mut interner, "authority", "name").unwrap();
    let qualified_string = qualified.to_text();
    assert_eq!(qualified_string, "authority::name");
    let parsed = Name::parse(&mut interner, &qualified_string).unwrap();
    assert_eq!(parsed, qualified);
}

#[test]
fn pascal_conversion_tests() {
    assert_eq!(
        pascal_case_to_snake_case(String::from("Test")).unwrap(),
        "test"
    );
    assert_eq!(
        pascal_case_to_snake_case(String::from("aFFITest")).unwrap(),
        "a_ffi_test"
    );
    assert_eq!(
        pascal_case_to_snake_case(String::from("TestTest")).unwrap(),
        "test_test"
    );
}

#[test]
fn pascal_conversion_rejects_invalid() {
    assert!(pascal_case_to_snake_case(String::from("Bad-Name")).is_err());
    assert!(pascal_case_to_snake_case(String::from("")).is_ok());
}

#[test]
fn interning_is_idempotent() {
    let mut interner = Interner::new();
    let first = interner.intern("color").unwrap();
    let second = interner.intern("color").unwrap();
    assert_eq!(first.token_id(), second.token_id());
    assert_eq!(first, second);
    assert_eq!(interner.len(), 1);

    let other = interner.intern("background").unwrap();
    assert_ne!(first.token_id(), other.token_id());
    assert_eq!(interner.len(), 2);
}

#[test]
fn validation_accepts_exactly_the_identifier_alphabet() {
    assert!(validate_identifier("abc_XYZ_0123").is_ok());
    assert!(validate_identifier("").is_ok());
    assert!(validate_identifier("_").is_ok());
    assert!(validate_identifier("with space").is_err());
    assert!(validate_identifier("dash-ed").is_err());
    assert!(validate_identifier("dotted.name").is_err());
    assert!(validate_identifier("colon:name").is_err());
    assert!(validate_identifier("ünicode").is_err());
}

#[test]
fn invalid_identifier_from_constructors() {
    let mut interner = Interner::new();
    assert!(interner.intern("not valid").is_err());
    assert!(Name::private(&mut interner, "no!").is_err());
    assert!(Name::new(&mut interner, "bad authority", "name").is_err());
    assert!(Name::new(&mut interner, "authority", "bad name").is_err());
}

#[test]
fn name_parsing_and_formatting() {
    let mut interner = Interner::new();
    let private = Name::parse(&mut interner, "local").unwrap();
    assert!(private.is_private());
    assert_eq!(private.to_text(), "local");

    let qualified = Name::parse(&mut interner, "crate_a::color").unwrap();
    assert!(!qualified.is_private());
    assert_eq!(qualified.to_text(), "crate_a::color");

    // The remainder after the first separator must itself be a valid
    // identifier, so a second separator is rejected.
    assert!(Name::parse(&mut interner, "a::b::c").is_err());
}

#[test]
fn presentation_order_is_lexicographic() {
    let mut interner = Interner::new();
    // Intern in an order that makes storage ids disagree with text order.
    let zebra = Name::private(&mut interner, "zebra").unwrap();
    let apple = Name::private(&mut interner, "apple").unwrap();
    assert!(apple.presents_before(&zebra));
    assert!(!zebra.presents_before(&apple));
    assert!(!apple.presents_before(&apple));
    // Storage order follows interning order here, not text order.
    assert!(zebra.sorts_before(&apple));
}
