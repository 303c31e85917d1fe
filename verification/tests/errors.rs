use result_error_gen::{idents_from_input, GenerationError};

#[test]
fn malformed_entry_is_described_with_its_place() {
    let err = GenerationError::MalformedVariantSpec {
        token: "Foo(Bar".to_string(),
        index: 2,
        offset: 17,
    };
    assert_eq!(
        err.message(),
        "malformed variant entry `Foo(Bar` (entry 2, offset 17): expected `Tag(Type)`"
    );
    assert_eq!(err.fragment(), "Foo(Bar");
}

#[test]
fn duplicate_tag_is_described_with_its_place() {
    let err = GenerationError::DuplicateVariantTag { tag: "A".to_string(), index: 1, offset: 6 };
    assert_eq!(err.message(), "duplicate variant tag `A` (entry 1, offset 6)");
    assert_eq!(err.fragment(), "A");
}

#[test]
fn synthesis_failure_is_described_with_the_text() {
    let err = GenerationError::CodeSynthesisFailure { text: "enum {".to_string() };
    assert_eq!(err.message(), "generated declaration does not parse: `enum {`");
    assert_eq!(err.fragment(), "enum {");
}

#[test]
fn places_are_written_in_decimal() {
    for (n, text) in [
        (0usize, "0"),
        (9, "9"),
        (10, "10"),
        (99, "99"),
        (100, "100"),
        (1234567890, "1234567890"),
        (usize::MAX, &usize::MAX.to_string()),
    ] {
        let err = GenerationError::DuplicateVariantTag { tag: String::new(), index: n, offset: n };
        assert_eq!(
            err.message(),
            format!("duplicate variant tag `` (entry {}, offset {})", text, text)
        );
    }
}

#[test]
fn message_of_a_parse_error_names_the_bad_entry() {
    let err = idents_from_input("A(X), Bb(Yy), C(".to_string()).unwrap_err();
    assert_eq!(
        err.message(),
        "malformed variant entry `C(` (entry 2, offset 14): expected `Tag(Type)`"
    );
    let err = idents_from_input("A(X), B(Y), A(Z)".to_string()).unwrap_err();
    assert_eq!(err.message(), "duplicate variant tag `A` (entry 2, offset 12)");
}
