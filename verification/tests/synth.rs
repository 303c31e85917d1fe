use result_error_gen::{assemble_declaration, gen_components, idents_from_input, VariantTable};

fn fragments(input: &str) -> (String, String) {
    gen_components(idents_from_input(input.to_string()).unwrap())
}

#[test]
fn empty_table_gives_empty_fragments() {
    assert_eq!(gen_components(VariantTable::new()), (String::new(), String::new()));
}

#[test]
fn formatter_arm_writes_the_payload_and_nothing_else() {
    let (arms, _) = fragments("NotFound(IoError)");
    assert_eq!(arms, "ResultError::NotFound(a) => write!(f, \"{}\", a),\n");
    let open = arms.find('"').unwrap();
    let close = arms.rfind('"').unwrap();
    assert_eq!(&arms[open + 1..close], "{}");
}

#[test]
fn conversion_adapter_takes_the_wrapped_type_into_its_tag() {
    let (_, adapters) = fragments("NotFound(IoError)");
    assert_eq!(
        adapters,
        "impl From<IoError> for ResultError {\n            fn from(err: IoError) -> Self {\n                ResultError::NotFound(err)\n            }\n        }\n"
    );
}

#[test]
fn fragments_follow_the_order_of_the_table() {
    let (arms, adapters) = fragments("B(Y), A(x::X), C(Z)");
    assert_eq!(
        arms,
        "ResultError::B(a) => write!(f, \"{}\", a),\n\
         ResultError::A(a) => write!(f, \"{}\", a),\n\
         ResultError::C(a) => write!(f, \"{}\", a),\n"
    );
    assert_eq!(
        adapters,
        "impl From<Y> for ResultError {\n            fn from(err: Y) -> Self {\n                ResultError::B(err)\n            }\n        }\n\
         impl From<x::X> for ResultError {\n            fn from(err: x::X) -> Self {\n                ResultError::A(err)\n            }\n        }\n\
         impl From<Z> for ResultError {\n            fn from(err: Z) -> Self {\n                ResultError::C(err)\n            }\n        }\n"
    );
}

#[test]
fn each_adapter_names_the_type_that_the_table_maps_its_tag_to() {
    let table = idents_from_input("Io(std::io::Error), Parse(ParseError), Other(Box)".to_string())
        .unwrap();
    let (_, adapters) = gen_components(table.clone());
    let blocks: Vec<&str> = adapters.split_inclusive("\n        }\n").collect();
    assert_eq!(blocks.len(), table.len());
    for (block, entry) in blocks.iter().zip(table.entries()) {
        let wrapped = table.get(&entry.variant_name).unwrap();
        assert_eq!(
            *block,
            format!(
                "impl From<{}> for ResultError {{\n            fn from(err: {}) -> Self {{\n                ResultError::{}(err)\n            }}\n        }}\n",
                wrapped, wrapped, entry.variant_name
            )
        );
    }
}

#[test]
fn there_is_one_arm_and_one_adapter_for_each_variant() {
    let (arms, adapters) = fragments("A(X), B(Y), C(Z), D(W)");
    assert_eq!(arms.matches(" => write!(f, \"{}\", a),\n").count(), 4);
    assert_eq!(adapters.matches("impl From<").count(), 4);
    for tag in ["A", "B", "C", "D"] {
        assert_eq!(arms.matches(&format!("ResultError::{}(a)", tag)).count(), 1);
        assert_eq!(adapters.matches(&format!("ResultError::{}(err)", tag)).count(), 1);
    }
}

#[test]
fn another_order_gives_the_same_arms_and_adapters() {
    let (arms_1, adapters_1) = fragments("A(X), B(Y), C(Z)");
    let (arms_2, adapters_2) = fragments("C(Z), A(X), B(Y)");
    let mut lines_1: Vec<&str> = arms_1.lines().collect();
    let mut lines_2: Vec<&str> = arms_2.lines().collect();
    lines_1.sort();
    lines_2.sort();
    assert_eq!(lines_1, lines_2);
    let mut blocks_1: Vec<&str> = adapters_1.split_inclusive("\n        }\n").collect();
    let mut blocks_2: Vec<&str> = adapters_2.split_inclusive("\n        }\n").collect();
    blocks_1.sort();
    blocks_2.sort();
    assert_eq!(blocks_1, blocks_2);
}

#[test]
fn declaration_is_put_together_from_its_parts() {
    let text = assemble_declaration("VARIANTS".to_string(), "ARMS".to_string(), "ADAPTERS".to_string());
    assert_eq!(
        text,
        "#[derive(Debug)]\n        /// container for ResultError error types\n        pub enum ResultError {\n            VARIANTS \n        }\n\n        impl std::error::Error for ResultError {}\n\n        impl Display for ResultError {\n            fn fmt(&self, f: &mut std::fmt::Formatter<'_>) -> std::fmt::Result {\n                match self {\n                    ARMS\n                }\n            }\n        }\n\n        ADAPTERS"
    );
}

#[test]
fn declaration_of_empty_parts_is_the_bare_frame() {
    let text = assemble_declaration(String::new(), String::new(), String::new());
    assert_eq!(
        text,
        "#[derive(Debug)]\n        /// container for ResultError error types\n        pub enum ResultError {\n             \n        }\n\n        impl std::error::Error for ResultError {}\n\n        impl Display for ResultError {\n            fn fmt(&self, f: &mut std::fmt::Formatter<'_>) -> std::fmt::Result {\n                match self {\n                    \n                }\n            }\n        }\n\n        "
    );
}
