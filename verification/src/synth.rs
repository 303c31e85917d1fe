//! From the variant table to the two fragments of the declaration: the arms of
//! the formatter and the conversion adapters.

use crate::table::{VariantSpecView, VariantTable};
use vstd::prelude::*;

verus! {

/// The format template that every formatter arm hands to `write!`: one
/// placeholder, with nothing before it and nothing behind it.
pub open spec fn payload_template() -> Seq<char> {
    "{}"@
}

/// The formatter arm for the variant tagged `tag`: a value with that tag is
/// written as its payload is.
pub open spec fn formatter_arm(tag: Seq<char>) -> Seq<char> {
    "ResultError::"@ + tag + "(a) => write!(f, \""@ + payload_template() + "\", a),\n"@
}

/// The adapter that converts a value of `source_type` into the aggregate type
/// by wrapping it under `tag`.
pub open spec fn conversion_adapter(source_type: Seq<char>, tag: Seq<char>) -> Seq<char> {
    "impl From<"@ + source_type + "> for ResultError {\n            fn from(err: "@ + source_type
        + ") -> Self {\n                ResultError::"@ + tag
        + "(err)\n            }\n        }\n"@
}

/// The formatter arms of the entries, one for each and in their order.
pub open spec fn arm_blocks(entries: Seq<VariantSpecView>) -> Seq<Seq<char>> {
    Seq::new(entries.len(), |i: int| formatter_arm(entries[i].variant_name))
}

/// The conversion adapters of the entries, one for each and in their order.
pub open spec fn adapter_blocks(entries: Seq<VariantSpecView>) -> Seq<Seq<char>> {
    Seq::new(
        entries.len(),
        |i: int| conversion_adapter(entries[i].wrapped_type, entries[i].variant_name),
    )
}

/// The blocks written one behind the other.
pub open spec fn concat(blocks: Seq<Seq<char>>) -> Seq<char>
    decreases blocks.len(),
{
    if blocks.len() == 0 {
        Seq::empty()
    } else {
        concat(blocks.drop_last()) + blocks.last()
    }
}

/// The formatter fragment: the arms of all entries.
pub open spec fn formatter_arms(entries: Seq<VariantSpecView>) -> Seq<char> {
    concat(arm_blocks(entries))
}

/// The conversion fragment: the adapters of all entries.
pub open spec fn conversion_adapters(entries: Seq<VariantSpecView>) -> Seq<char> {
    concat(adapter_blocks(entries))
}

/// Adds the formatter arm for `tag` to `out`.
pub fn push_formatter_arm(out: &mut String, tag: &str)
    ensures
        final(out)@ == old(out)@ + formatter_arm(tag@),
{
    let ghost before = out@;
    out.append("ResultError::");
    out.append(tag);
    out.append("(a) => write!(f, \"");
    out.append("{}");
    out.append("\", a),\n");
    assert(out@ =~= before + formatter_arm(tag@));
}

/// Adds the adapter from `source_type` to the variant tagged `tag` to `out`.
pub fn push_conversion_adapter(out: &mut String, source_type: &str, tag: &str)
    ensures
        final(out)@ == old(out)@ + conversion_adapter(source_type@, tag@),
{
    let ghost before = out@;
    out.append("impl From<");
    out.append(source_type);
    out.append("> for ResultError {\n            fn from(err: ");
    out.append(source_type);
    out.append(") -> Self {\n                ResultError::");
    out.append(tag);
    out.append("(err)\n            }\n        }\n");
    assert(out@ =~= before + conversion_adapter(source_type@, tag@));
}

/// Writes the two fragments for the variants of `idents`, in the table's
/// order: the formatter arms, and the conversion adapters.
pub fn gen_components(idents: VariantTable) -> (fragments: (String, String))
    ensures
        fragments.0@ == formatter_arms(idents@),
        fragments.1@ == conversion_adapters(idents@),
{
    let mut err_match = String::new();
    let mut impl_froms = String::new();
    let entries = idents.entries();
    let n = entries.len();
    let ghost arms = arm_blocks(idents@);
    let ghost adapters = adapter_blocks(idents@);
    let mut i: usize = 0;
    while i < n
        invariant
            i <= n,
            n == entries@.len(),
            n == idents@.len(),
            forall|k: int| 0 <= k < n ==> (#[trigger] entries@[k])@ == idents@[k],
            arms == arm_blocks(idents@),
            adapters == adapter_blocks(idents@),
            err_match@ == concat(arms.take(i as int)),
            impl_froms@ == concat(adapters.take(i as int)),
        decreases n - i,
    {
        let entry = &entries[i];
        push_formatter_arm(&mut err_match, entry.variant_name.as_str());
        push_conversion_adapter(
            &mut impl_froms,
            entry.wrapped_type.as_str(),
            entry.variant_name.as_str(),
        );
        proof {
            assert(entry@ == idents@[i as int]);
            assert(arms.take(i + 1).drop_last() =~= arms.take(i as int));
            assert(adapters.take(i + 1).drop_last() =~= adapters.take(i as int));
        }
        i += 1;
    }
    proof {
        assert(arms.take(n as int) =~= arms);
        assert(adapters.take(n as int) =~= adapters);
    }
    (err_match, impl_froms)
}

} // verus!
