//! From the variant list and the two fragments to the text of the declaration.

use crate::parser::list_text;
use crate::synth::{conversion_adapters, formatter_arms};
use crate::table::VariantSpecView;
use vstd::prelude::*;

verus! {

/// What stands between two parts of the declaration: an empty line and the
/// indentation of the next part.
pub open spec fn part_break() -> Seq<char> {
    "\n\n        "@
}

/// The sum type, printable for debugging, with `variants` as its variant list.
pub open spec fn sum_type(variants: Seq<char>) -> Seq<char> {
    "#[derive(Debug)]\n        /// container for ResultError error types\n        pub enum ResultError {\n            "@
        + variants + " \n        }"@
}

/// The marking that makes the sum type an error type, with no behaviour added.
pub open spec fn error_marking() -> Seq<char> {
    "impl std::error::Error for ResultError {}"@
}

/// The formatter: one dispatch over the tag, with `arms` as its arms.
pub open spec fn formatter(arms: Seq<char>) -> Seq<char> {
    "impl Display for ResultError {\n            fn fmt(&self, f: &mut std::fmt::Formatter<'_>) -> std::fmt::Result {\n                match self {\n                    "@
        + arms + "\n                }\n            }\n        }"@
}

/// The declaration: the sum type, the error marking, the formatter and the
/// conversion adapters, in this order.
pub open spec fn declaration(variants: Seq<char>, arms: Seq<char>, adapters: Seq<char>) -> Seq<
    char,
> {
    sum_type(variants) + part_break() + error_marking() + part_break() + formatter(arms)
        + part_break() + adapters
}

/// The declaration that is generated for `entries`: its variant list is their
/// text, its arms and adapters are theirs.
pub open spec fn generated_declaration(entries: Seq<VariantSpecView>) -> Seq<char> {
    declaration(list_text(entries), formatter_arms(entries), conversion_adapters(entries))
}

/// Puts the declaration together: the sum type with `input_str` as its variant
/// list, the error marking, the formatter with `err_match` as its arms, and
/// `impl_froms` as the conversion adapters.
pub fn assemble_declaration(input_str: String, err_match: String, impl_froms: String) -> (text:
    String)
    ensures
        text@ == declaration(input_str@, err_match@, impl_froms@),
{
    let mut text = String::from_str(
        "#[derive(Debug)]\n        /// container for ResultError error types\n        pub enum ResultError {\n            ",
    );
    text.append(input_str.as_str());
    text.append(" \n        }");
    text.append("\n\n        ");
    text.append("impl std::error::Error for ResultError {}");
    text.append("\n\n        ");
    text.append(
        "impl Display for ResultError {\n            fn fmt(&self, f: &mut std::fmt::Formatter<'_>) -> std::fmt::Result {\n                match self {\n                    ",
    );
    text.append(err_match.as_str());
    text.append("\n                }\n            }\n        }");
    text.append("\n\n        ");
    text.append(impl_froms.as_str());
    assert(text@ =~= declaration(input_str@, err_match@, impl_froms@));
    text
}

} // verus!
