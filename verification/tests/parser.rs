use result_error_gen::{idents_from_input, GenerationError, VariantSpec, VariantTable};

fn parsed(input: &str) -> VariantTable {
    idents_from_input(input.to_string()).unwrap()
}

fn refused(input: &str) -> GenerationError {
    idents_from_input(input.to_string()).unwrap_err()
}

fn malformed(token: &str, index: usize, offset: usize) -> GenerationError {
    GenerationError::MalformedVariantSpec { token: token.to_string(), index, offset }
}

fn duplicate(tag: &str, index: usize, offset: usize) -> GenerationError {
    GenerationError::DuplicateVariantTag { tag: tag.to_string(), index, offset }
}

fn entry(tag: &str, wrapped: &str) -> VariantSpec {
    VariantSpec { variant_name: tag.to_string(), wrapped_type: wrapped.to_string() }
}

#[test]
fn single_entry_is_read() {
    let table = parsed("A(X)");
    assert_eq!(table.entries(), &vec![entry("A", "X")]);
}

#[test]
fn entries_keep_their_order() {
    let table = parsed("Zeta(Z), Alpha(A), Mid(M)");
    assert_eq!(
        table.entries(),
        &vec![entry("Zeta", "Z"), entry("Alpha", "A"), entry("Mid", "M")]
    );
    assert_eq!(table.len(), 3);
}

#[test]
fn tags_of_the_table_are_the_tags_of_the_input() {
    let table = parsed("NotFound(IoError), Invalid(ParseError), Timeout(net::Elapsed)");
    let tags: Vec<&str> = table.entries().iter().map(|e| e.variant_name.as_str()).collect();
    assert_eq!(tags, vec!["NotFound", "Invalid", "Timeout"]);
}

#[test]
fn qualified_type_names_are_accepted() {
    let table = parsed("Io(std::io::Error), Fmt(std::fmt::Error)");
    assert_eq!(
        table.entries(),
        &vec![entry("Io", "std::io::Error"), entry("Fmt", "std::fmt::Error")]
    );
}

#[test]
fn underscores_and_digits_are_identifier_characters() {
    let table = parsed("_Io2(my_mod::Error_1), __(_x)");
    assert_eq!(table.entries(), &vec![entry("_Io2", "my_mod::Error_1"), entry("__", "_x")]);
}

#[test]
fn the_same_type_may_be_wrapped_twice() {
    let table = parsed("A(X), B(X)");
    assert_eq!(table.entries(), &vec![entry("A", "X"), entry("B", "X")]);
}

#[test]
fn missing_closing_parenthesis_is_malformed() {
    assert_eq!(refused("Foo(Bar"), malformed("Foo(Bar", 0, 0));
}

#[test]
fn missing_opening_parenthesis_is_malformed() {
    assert_eq!(refused("Foo"), malformed("Foo", 0, 0));
    assert_eq!(refused("FooBar)"), malformed("FooBar)", 0, 0));
}

#[test]
fn empty_input_is_malformed() {
    assert_eq!(refused(""), malformed("", 0, 0));
}

#[test]
fn empty_tag_is_malformed() {
    assert_eq!(refused("(Bar)"), malformed("(Bar)", 0, 0));
}

#[test]
fn empty_type_is_malformed() {
    assert_eq!(refused("Foo()"), malformed("Foo()", 0, 0));
}

#[test]
fn lone_parentheses_are_malformed() {
    assert_eq!(refused("("), malformed("(", 0, 0));
    assert_eq!(refused(")"), malformed(")", 0, 0));
    assert_eq!(refused("()"), malformed("()", 0, 0));
}

#[test]
fn comma_without_space_is_refused() {
    assert_eq!(refused("A(X),B(Y)"), malformed("A(X),B(Y)", 0, 0));
}

#[test]
fn comma_with_two_spaces_is_refused() {
    assert_eq!(refused("A(X),  B(Y)"), malformed(" B(Y)", 1, 6));
}

#[test]
fn other_whitespace_is_refused() {
    assert_eq!(refused("A(X),\tB(Y)"), malformed("A(X),\tB(Y)", 0, 0));
    assert_eq!(refused("A(X),\nB(Y)"), malformed("A(X),\nB(Y)", 0, 0));
    assert_eq!(refused("A(X) , B(Y)"), malformed("A(X) ", 0, 0));
    assert_eq!(refused(" A(X)"), malformed(" A(X)", 0, 0));
    assert_eq!(refused("A(X) "), malformed("A(X) ", 0, 0));
    assert_eq!(refused("A( X )"), malformed("A( X )", 0, 0));
    assert_eq!(refused("A (X)"), malformed("A (X)", 0, 0));
}

#[test]
fn trailing_separator_is_refused() {
    assert_eq!(refused("A(X), "), malformed("", 1, 6));
}

#[test]
fn leading_separator_is_refused() {
    assert_eq!(refused(", A(X)"), malformed("", 0, 0));
}

#[test]
fn doubled_separator_is_refused() {
    assert_eq!(refused("A(X), , B(Y)"), malformed("", 1, 6));
}

#[test]
fn tag_must_be_an_identifier() {
    assert_eq!(refused("1A(X)"), malformed("1A(X)", 0, 0));
    assert_eq!(refused("_(X)"), malformed("_(X)", 0, 0));
    assert_eq!(refused("A-B(X)"), malformed("A-B(X)", 0, 0));
    assert_eq!(refused("a::B(X)"), malformed("a::B(X)", 0, 0));
}

#[test]
fn type_must_be_a_path_of_identifiers() {
    assert_eq!(refused("A(std::)"), malformed("A(std::)", 0, 0));
    assert_eq!(refused("A(::X)"), malformed("A(::X)", 0, 0));
    assert_eq!(refused("A(a:b)"), malformed("A(a:b)", 0, 0));
    assert_eq!(refused("A(a:::b)"), malformed("A(a:::b)", 0, 0));
    assert_eq!(refused("A(a::::b)"), malformed("A(a::::b)", 0, 0));
    assert_eq!(refused("A(a::_)"), malformed("A(a::_)", 0, 0));
    assert_eq!(refused("A(a::1b)"), malformed("A(a::1b)", 0, 0));
    assert_eq!(refused("A(Vec<u8>)"), malformed("A(Vec<u8>)", 0, 0));
    assert_eq!(refused("A(&X)"), malformed("A(&X)", 0, 0));
    assert_eq!(refused("A(X, Y)"), malformed("A(X", 0, 0));
}

#[test]
fn stray_parentheses_are_refused() {
    assert_eq!(refused("A(X))"), malformed("A(X))", 0, 0));
    assert_eq!(refused("A((X)"), malformed("A((X)", 0, 0));
    assert_eq!(refused("A(X)(Y)"), malformed("A(X)(Y)", 0, 0));
    assert_eq!(refused("A(X)B"), malformed("A(X)B", 0, 0));
}

#[test]
fn characters_outside_ascii_are_refused_whole() {
    assert_eq!(refused("Été(X)"), malformed("Été(X)", 0, 0));
    assert_eq!(refused("A(X), B(naïve)"), malformed("B(naïve)", 1, 6));
    assert_eq!(refused("Ä(X), B("), malformed("Ä(X)", 0, 0));
}

#[test]
fn offsets_count_characters_and_separators() {
    assert_eq!(refused("A(X), Bb(Yy), C("), malformed("C(", 2, 14));
    assert_eq!(refused("A(X), Bb(Yy), C(Z), "), malformed("", 3, 20));
}

#[test]
fn duplicate_tags_are_refused() {
    assert_eq!(refused("A(X), A(Y)"), duplicate("A", 1, 6));
}

#[test]
fn duplicate_of_the_same_entry_is_refused() {
    assert_eq!(refused("A(X), A(X)"), duplicate("A", 1, 6));
}

#[test]
fn duplicate_is_reported_at_its_second_occurrence() {
    assert_eq!(refused("A(X), B(Y), Cc(Z), B(W), A(V)"), duplicate("B", 3, 19));
}

#[test]
fn tags_that_differ_in_case_are_distinct() {
    let table = parsed("Ab(X), AB(Y), ab(Z)");
    assert_eq!(table.len(), 3);
}

#[test]
fn the_first_fault_is_reported() {
    assert_eq!(refused("A(X), A(Y), B("), duplicate("A", 1, 6));
    assert_eq!(refused("A(X), B(, A(Y)"), malformed("B(", 1, 6));
    assert_eq!(refused("A(, A(Y), A(Z)"), malformed("A(", 0, 0));
}

#[test]
fn parsing_twice_gives_the_same_table() {
    let input = "NotFound(IoError), Invalid(ParseError)";
    assert_eq!(parsed(input), parsed(input));
    assert_eq!(refused("A(X), A("), refused("A(X), A("));
}

#[test]
fn table_maps_each_tag_to_its_type() {
    let table = parsed("NotFound(IoError), Invalid(ParseError)");
    assert_eq!(table.get("NotFound"), Some(&"IoError".to_string()));
    assert_eq!(table.get("Invalid"), Some(&"ParseError".to_string()));
    assert_eq!(table.get("Missing"), None);
    assert_eq!(table.get("notfound"), None);
    assert_eq!(table.get(""), None);
    assert_eq!(table.position_of("NotFound"), Some(0));
    assert_eq!(table.position_of("Invalid"), Some(1));
    assert_eq!(table.position_of("IoError"), None);
}

#[test]
fn new_table_is_empty() {
    let table = VariantTable::new();
    assert_eq!(table.len(), 0);
    assert!(table.entries().is_empty());
    assert_eq!(table.get("A"), None);
    assert_eq!(table.position_of("A"), None);
}
