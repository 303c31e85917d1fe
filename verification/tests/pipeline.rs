use result_error_gen::{confirm_declaration, make_result_error, GenerationError};

#[test]
fn two_variants_end_to_end() {
    let text = make_result_error("NotFound(IoError), Invalid(ParseError)".to_string()).unwrap();
    assert_eq!(
        text,
        "#[derive(Debug)]\n        /// container for ResultError error types\n        pub enum ResultError {\n            NotFound(IoError), Invalid(ParseError) \n        }\n\n        impl std::error::Error for ResultError {}\n\n        impl Display for ResultError {\n            fn fmt(&self, f: &mut std::fmt::Formatter<'_>) -> std::fmt::Result {\n                match self {\n                    ResultError::NotFound(a) => write!(f, \"{}\", a),\nResultError::Invalid(a) => write!(f, \"{}\", a),\n\n                }\n            }\n        }\n\n        impl From<IoError> for ResultError {\n            fn from(err: IoError) -> Self {\n                ResultError::NotFound(err)\n            }\n        }\nimpl From<ParseError> for ResultError {\n            fn from(err: ParseError) -> Self {\n                ResultError::Invalid(err)\n            }\n        }\n"
    );
}

#[test]
fn single_variant_end_to_end() {
    let text = make_result_error("Io(std::io::Error)".to_string()).unwrap();
    assert_eq!(
        text,
        "#[derive(Debug)]\n        /// container for ResultError error types\n        pub enum ResultError {\n            Io(std::io::Error) \n        }\n\n        impl std::error::Error for ResultError {}\n\n        impl Display for ResultError {\n            fn fmt(&self, f: &mut std::fmt::Formatter<'_>) -> std::fmt::Result {\n                match self {\n                    ResultError::Io(a) => write!(f, \"{}\", a),\n\n                }\n            }\n        }\n\n        impl From<std::io::Error> for ResultError {\n            fn from(err: std::io::Error) -> Self {\n                ResultError::Io(err)\n            }\n        }\n"
    );
}

#[test]
fn sum_type_carries_the_variant_list_as_given() {
    let input = "A(X), B(y::Y), C(Z)";
    let text = make_result_error(input.to_string()).unwrap();
    let opening = "pub enum ResultError {\n            ";
    let from = text.find(opening).unwrap() + opening.len();
    let to = from + text[from..].find(" \n        }").unwrap();
    assert_eq!(&text[from..to], input);
}

#[test]
fn malformed_list_gives_no_declaration() {
    assert_eq!(
        make_result_error("Foo(Bar".to_string()),
        Err(GenerationError::MalformedVariantSpec {
            token: "Foo(Bar".to_string(),
            index: 0,
            offset: 0
        })
    );
    assert_eq!(
        make_result_error("A(X), Foo(Bar".to_string()),
        Err(GenerationError::MalformedVariantSpec {
            token: "Foo(Bar".to_string(),
            index: 1,
            offset: 6
        })
    );
}

#[test]
fn duplicate_tag_gives_no_declaration() {
    assert_eq!(
        make_result_error("A(X), A(Y)".to_string()),
        Err(GenerationError::DuplicateVariantTag { tag: "A".to_string(), index: 1, offset: 6 })
    );
}

#[test]
fn generating_twice_gives_the_same_outcome() {
    for input in ["NotFound(IoError), Invalid(ParseError)", "A(X)", "A(X), A(Y)", "Foo(Bar", ""] {
        assert_eq!(make_result_error(input.to_string()), make_result_error(input.to_string()));
    }
}

#[test]
fn accepted_declaration_is_handed_on_unchanged() {
    let text = make_result_error("A(X)".to_string()).unwrap();
    assert_eq!(confirm_declaration(text.clone(), true), Ok(text));
    assert_eq!(confirm_declaration(String::new(), true), Ok(String::new()));
}

#[test]
fn refused_declaration_is_a_synthesis_failure() {
    assert_eq!(
        confirm_declaration("pub enum E { A(".to_string(), false),
        Err(GenerationError::CodeSynthesisFailure { text: "pub enum E { A(".to_string() })
    );
}
