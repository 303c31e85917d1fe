//! The whole way from a variant list to the text of its declaration.

use crate::assemble::{assemble_declaration, generated_declaration};
use crate::error::GenerationError;
use crate::laws::lemma_declared_entries_unique;
use crate::parser::{declares, idents_from_input, is_variant_list, refuses};
use crate::synth::gen_components;
use crate::table::VariantSpecView;
use vstd::prelude::*;

verus! {

/// `res` is what generating from `input` gives: a declaration exactly if
/// `input` is a variant list, then the one generated for the entries that it
/// declares, and else the error that `input` is refused with.
pub open spec fn generates(input: Seq<char>, res: Result<String, GenerationError>) -> bool {
    &&& res is Ok <==> is_variant_list(input)
    &&& forall|entries: Seq<VariantSpecView>| #[trigger]
        declares(input, entries) ==> (res matches Ok(text) && text@ == generated_declaration(
            entries,
        ))
    &&& res matches Err(err) ==> refuses(input, err)
}

/// Generates the declaration of the aggregate error type for the variant list
/// `input_str`: the sum type, its error marking, its formatter and one
/// conversion adapter for each variant, in the order of the list.
pub fn make_result_error(input_str: String) -> (res: Result<String, GenerationError>)
    ensures
        generates(input_str@, res),
{
    let idents = match idents_from_input(input_str.clone()) {
        Ok(idents) => idents,
        Err(err) => {
            return Err(err);
        },
    };
    let ghost entries = idents@;
    let (err_match, impl_froms) = gen_components(idents);
    let text = assemble_declaration(input_str, err_match, impl_froms);
    proof {
        assert forall|other: Seq<VariantSpecView>| #[trigger]
            declares(input_str@, other) implies text@ == generated_declaration(other) by {
            lemma_declared_entries_unique(input_str@, entries, other);
        }
    }
    Ok(text)
}

/// Settles what the host made of a generated declaration: the declaration
/// itself where the host could read it back, and else the error that carries
/// it.
pub fn confirm_declaration(text: String, host_accepts: bool) -> (res: Result<
    String,
    GenerationError,
>)
    ensures
        host_accepts ==> (res matches Ok(confirmed) && confirmed@ == text@),
        !host_accepts ==> (res matches Err(GenerationError::CodeSynthesisFailure { text: refused })
            && refused@ == text@),
{
    if host_accepts {
        Ok(text)
    } else {
        Err(GenerationError::CodeSynthesisFailure { text })
    }
}

} // verus!
