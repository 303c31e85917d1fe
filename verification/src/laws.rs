//! What holds of every variant list and of everything generated from it.

use crate::assemble::{declaration, generated_declaration};
use crate::error::GenerationError;
use crate::generator::generates;
use crate::parser::{
    accepted, declares, entry_text, is_variant_list, reads_as, refuses, tokens,
};
use crate::splitting::{entry_texts, lemma_reads_as_unique, lemma_tokens_of_list_text};
use crate::synth::{
    adapter_blocks, arm_blocks, conversion_adapter, conversion_adapters, formatter_arm,
    formatter_arms, payload_template,
};
use crate::table::{
    distinct_tags, has_tag, lemma_mapping_at, mapping, tag_set, well_formed_entries,
    VariantSpecView,
};
use vstd::prelude::*;

verus! {

/// A variant list declares one sequence of entries and no other: what is read
/// from it does not depend on how it is read.
pub proof fn lemma_declared_entries_unique(
    input: Seq<char>,
    a: Seq<VariantSpecView>,
    b: Seq<VariantSpecView>,
)
    requires
        declares(input, a),
        declares(input, b),
    ensures
        a == b,
{
    lemma_tokens_of_list_text(a);
    lemma_tokens_of_list_text(b);
    assert(entry_texts(a).len() == entry_texts(b).len());
    assert forall|i: int| 0 <= i < a.len() implies a[i] == b[i] by {
        assert(entry_texts(a)[i] == entry_texts(b)[i]);
        lemma_reads_as_unique(entry_text(a[i]), a[i], b[i]);
    }
    assert(a =~= b);
}

/// The entries that a refusal has accepted before the entry it is about, that
/// entry included where it reads as one.
spec fn accepted_by(input: Seq<char>, err: GenerationError) -> Seq<VariantSpecView> {
    let toks = tokens(input);
    match err {
        GenerationError::MalformedVariantSpec { token, index, offset } => choose|
            entries: Seq<VariantSpecView>,
        |
            entries.len() == index && #[trigger] accepted(toks, entries) && distinct_tags(entries),
        GenerationError::DuplicateVariantTag { tag, index, offset } => choose|
            entries: Seq<VariantSpecView>,
        |
            entries.len() == index + 1 && #[trigger] accepted(toks, entries) && distinct_tags(
                entries.take(index as int),
            ) && has_tag(entries.take(index as int), tag@) && entries[index as int].variant_name
                == tag@,
        GenerationError::CodeSynthesisFailure { .. } => Seq::empty(),
    }
}

/// A text that is refused is no variant list: an error never hides a list
/// that the grammar accepts.
pub proof fn lemma_refused_is_no_list(input: Seq<char>, err: GenerationError)
    requires
        refuses(input, err),
    ensures
        !is_variant_list(input),
{
    let toks = tokens(input);
    assert forall|entries: Seq<VariantSpecView>| !declares(input, entries) by {
        if declares(input, entries) {
            lemma_tokens_of_list_text(entries);
            assert(toks == entry_texts(entries));
            match err {
                GenerationError::MalformedVariantSpec { token, index, offset } => {
                    assert(reads_as(toks[index as int], entries[index as int]));
                },
                GenerationError::DuplicateVariantTag { tag, index, offset } => {
                    let w = accepted_by(input, err);
                    let front = w.take(index as int);
                    let j = choose|j: int|
                        0 <= j < front.len() && (#[trigger] front[j]).variant_name == tag@;
                    assert(front[j] == w[j]);
                    assert(reads_as(toks[j], w[j]));
                    assert(reads_as(toks[index as int], w[index as int]));
                    lemma_reads_as_unique(toks[j], w[j], entries[j]);
                    lemma_reads_as_unique(toks[index as int], w[index as int], entries[index as int]);
                    assert(entries[j].variant_name != entries[index as int].variant_name);
                },
                GenerationError::CodeSynthesisFailure { .. } => {},
            }
        }
    }
}

/// How many entries precede the entry that a refusal is about.
pub open spec fn refused_index(err: GenerationError) -> int {
    match err {
        GenerationError::MalformedVariantSpec { index, .. } => index as int,
        GenerationError::DuplicateVariantTag { index, .. } => index as int,
        GenerationError::CodeSynthesisFailure { .. } => 0,
    }
}

/// Two errors are of one kind and carry the same fragment, index and offset.
pub open spec fn same_error(a: GenerationError, b: GenerationError) -> bool {
    match (a, b) {
        (
            GenerationError::MalformedVariantSpec { token: t1, index: i1, offset: o1 },
            GenerationError::MalformedVariantSpec { token: t2, index: i2, offset: o2 },
        ) => t1@ == t2@ && i1 == i2 && o1 == o2,
        (
            GenerationError::DuplicateVariantTag { tag: t1, index: i1, offset: o1 },
            GenerationError::DuplicateVariantTag { tag: t2, index: i2, offset: o2 },
        ) => t1@ == t2@ && i1 == i2 && o1 == o2,
        (
            GenerationError::CodeSynthesisFailure { text: t1 },
            GenerationError::CodeSynthesisFailure { text: t2 },
        ) => t1@ == t2@,
        _ => false,
    }
}

/// Two outcomes of a generation agree: the same declaration, or the same
/// error.
pub open spec fn same_outcome(
    a: Result<String, GenerationError>,
    b: Result<String, GenerationError>,
) -> bool {
    match (a, b) {
        (Ok(t1), Ok(t2)) => t1@ == t2@,
        (Err(e1), Err(e2)) => same_error(e1, e2),
        _ => false,
    }
}

/// Of two refusals of one text, neither is about an earlier entry than the
/// other.
proof fn lemma_refusal_not_earlier(input: Seq<char>, a: GenerationError, b: GenerationError)
    requires
        refuses(input, a),
        refuses(input, b),
    ensures
        refused_index(a) >= refused_index(b),
{
    let toks = tokens(input);
    let ia = refused_index(a);
    let ib = refused_index(b);
    if ia < ib {
        let wb = accepted_by(input, b);
        assert(accepted(toks, wb) && wb.len() >= ib && distinct_tags(wb.take(ib))) by {
            if b is MalformedVariantSpec {
                assert(wb.take(ib) =~= wb);
            }
        }
        assert(reads_as(toks[ia], wb[ia]));
        match a {
            GenerationError::MalformedVariantSpec { .. } => {},
            GenerationError::DuplicateVariantTag { tag, .. } => {
                let wa = accepted_by(input, a);
                let front = wa.take(ia);
                let j = choose|j: int|
                    0 <= j < front.len() && (#[trigger] front[j]).variant_name == tag@;
                assert(front[j] == wa[j]);
                assert(reads_as(toks[j], wa[j]));
                assert(reads_as(toks[j], wb[j]));
                assert(reads_as(toks[ia], wa[ia]));
                lemma_reads_as_unique(toks[j], wa[j], wb[j]);
                lemma_reads_as_unique(toks[ia], wa[ia], wb[ia]);
                assert(wb.take(ib)[j].variant_name != wb.take(ib)[ia].variant_name);
            },
            GenerationError::CodeSynthesisFailure { .. } => {},
        }
    }
}

/// A text is refused with one error and no other: the first entry at fault
/// decides, whichever way the text is read.
pub proof fn lemma_refusal_unique(input: Seq<char>, a: GenerationError, b: GenerationError)
    requires
        refuses(input, a),
        refuses(input, b),
    ensures
        same_error(a, b),
{
    lemma_refusal_not_earlier(input, a, b);
    lemma_refusal_not_earlier(input, b, a);
    let toks = tokens(input);
    let i = refused_index(a);
    let wa = accepted_by(input, a);
    let wb = accepted_by(input, b);
    if a is DuplicateVariantTag {
        assert(reads_as(toks[i], wa[i]));
    }
    if b is DuplicateVariantTag {
        assert(reads_as(toks[i], wb[i]));
    }
    if a is DuplicateVariantTag && b is DuplicateVariantTag {
        lemma_reads_as_unique(toks[i], wa[i], wb[i]);
    }
}

/// Generating twice from one text gives the same outcome twice: the
/// declaration, or the error, depends on the text alone.
pub proof fn lemma_generation_deterministic(
    input: Seq<char>,
    first: Result<String, GenerationError>,
    second: Result<String, GenerationError>,
)
    requires
        generates(input, first),
        generates(input, second),
    ensures
        same_outcome(first, second),
{
    if is_variant_list(input) {
        let entries = choose|entries: Seq<VariantSpecView>| declares(input, entries);
        assert(declares(input, entries));
    } else {
        lemma_refusal_unique(input, first->Err_0, second->Err_0);
    }
}

/// The tags that a text declares: those of the tokens that read as an entry.
pub open spec fn tags_read_from(text: Seq<char>) -> Set<Seq<char>> {
    Set::new(
        |tag: Seq<char>|
            exists|i: int, e: VariantSpecView|
                0 <= i < tokens(text).len() && #[trigger] reads_as(tokens(text)[i], e)
                    && e.variant_name == tag,
    )
}

/// The sum type of the generated declaration carries the variant list as it
/// was given, and the tags read from that list are the tags of the table, none
/// added and none left out. The formatter has one arm for each of them, and
/// there is one adapter for each.
pub proof fn lemma_tags_preserved(input: Seq<char>, entries: Seq<VariantSpecView>)
    requires
        declares(input, entries),
    ensures
        generated_declaration(entries) == declaration(
            input,
            formatter_arms(entries),
            conversion_adapters(entries),
        ),
        tags_read_from(input) == tag_set(entries),
        arm_blocks(entries).len() == entries.len(),
        adapter_blocks(entries).len() == entries.len(),
        forall|i: int|
            0 <= i < entries.len() ==> #[trigger] arm_blocks(entries)[i] == formatter_arm(
                entries[i].variant_name,
            ),
{
    lemma_tokens_of_list_text(entries);
    let toks = tokens(input);
    assert forall|tag: Seq<char>| tags_read_from(input).contains(tag) <==> tag_set(
        entries,
    ).contains(tag) by {
        if tags_read_from(input).contains(tag) {
            let (i, e) = choose|i: int, e: VariantSpecView|
                0 <= i < toks.len() && #[trigger] reads_as(toks[i], e) && e.variant_name == tag;
            assert(toks[i] == entry_texts(entries)[i]);
            lemma_reads_as_unique(toks[i], e, entries[i]);
            assert(entries[i].variant_name == tag);
        }
        if has_tag(entries, tag) {
            let i = choose|i: int|
                0 <= i < entries.len() && (#[trigger] entries[i]).variant_name == tag;
            assert(toks[i] == entry_texts(entries)[i]);
            assert(reads_as(toks[i], entries[i]));
        }
    }
    assert(tags_read_from(input) =~= tag_set(entries));
}

/// Each conversion adapter takes the type that the table maps its tag to, and
/// wraps it under that very tag.
pub proof fn lemma_adapter_follows_mapping(entries: Seq<VariantSpecView>, i: int)
    requires
        well_formed_entries(entries),
        0 <= i < entries.len(),
    ensures
        mapping(entries).dom().contains(entries[i].variant_name),
        adapter_blocks(entries)[i] == conversion_adapter(
            mapping(entries)[entries[i].variant_name],
            entries[i].variant_name,
        ),
{
    lemma_mapping_at(entries, i);
}

/// A place in `template` where a placeholder stands.
pub open spec fn is_placeholder_at(template: Seq<char>, k: int) -> bool {
    0 <= k && k + 2 <= template.len() && template[k] == '{' && template[k + 1] == '}'
}

/// What a format template with one placeholder writes for a payload whose own
/// display text is `payload`: the template with the placeholder replaced by
/// that text.
pub open spec fn written_for(template: Seq<char>, payload: Seq<char>) -> Seq<char> {
    let k = choose|k: int| is_placeholder_at(template, k);
    template.take(k) + payload + template.skip(k + 2)
}

/// The arm for any tag hands `write!` the bare placeholder, and what the bare
/// placeholder writes for a payload is the payload's own display text, with
/// nothing before it and nothing behind it.
pub proof fn lemma_arm_writes_payload_verbatim(tag: Seq<char>, payload: Seq<char>)
    ensures
        formatter_arm(tag) == "ResultError::"@ + tag + "(a) => write!(f, \""@ + payload_template()
            + "\", a),\n"@,
        written_for(payload_template(), payload) == payload,
{
    reveal_strlit("{}");
    let template = payload_template();
    assert(is_placeholder_at(template, 0));
    let k = choose|k: int| is_placeholder_at(template, k);
    assert(k == 0);
    assert(template.take(0) + payload + template.skip(2) =~= payload);
}

/// Which tags there are, which arms and which adapters, depends on the
/// entries alone and not on their order; where no tag repeats, so does the
/// mapping.
pub proof fn lemma_order_is_immaterial(a: Seq<VariantSpecView>, b: Seq<VariantSpecView>)
    requires
        a.to_set() == b.to_set(),
    ensures
        tag_set(a) == tag_set(b),
        arm_blocks(a).to_set() == arm_blocks(b).to_set(),
        adapter_blocks(a).to_set() == adapter_blocks(b).to_set(),
        distinct_tags(a) && distinct_tags(b) ==> mapping(a) == mapping(b),
{
    lemma_covered(a, b);
    lemma_covered(b, a);
    assert(tag_set(a) =~= tag_set(b));
    assert(arm_blocks(a).to_set() =~= arm_blocks(b).to_set());
    assert(adapter_blocks(a).to_set() =~= adapter_blocks(b).to_set());
    if distinct_tags(a) && distinct_tags(b) {
        assert forall|tag: Seq<char>| has_tag(a, tag) implies mapping(a)[tag] == mapping(
            b,
        )[tag] by {
            let i = choose|i: int| 0 <= i < a.len() && (#[trigger] a[i]).variant_name == tag;
            assert(b.to_set().contains(a[i]));
            let j = choose|j: int| 0 <= j < b.len() && b[j] == a[i];
            lemma_mapping_at(a, i);
            lemma_mapping_at(b, j);
        }
        assert(mapping(a) =~= mapping(b));
    }
}

/// Where every entry of `a` occurs in `b`, every tag, arm and adapter of `a`
/// is one of `b`.
proof fn lemma_covered(a: Seq<VariantSpecView>, b: Seq<VariantSpecView>)
    requires
        a.to_set().subset_of(b.to_set()),
    ensures
        forall|tag: Seq<char>| has_tag(a, tag) ==> has_tag(b, tag),
        arm_blocks(a).to_set().subset_of(arm_blocks(b).to_set()),
        adapter_blocks(a).to_set().subset_of(adapter_blocks(b).to_set()),
{
    assert forall|i: int| 0 <= i < a.len() implies exists|j: int|
        0 <= j < b.len() && b[j] == #[trigger] a[i] by {
        assert(a.to_set().contains(a[i]));
        assert(b.to_set().contains(a[i]));
    }
    assert forall|tag: Seq<char>| has_tag(a, tag) implies has_tag(b, tag) by {
        let i = choose|i: int| 0 <= i < a.len() && (#[trigger] a[i]).variant_name == tag;
        let j = choose|j: int| 0 <= j < b.len() && b[j] == a[i];
        assert(b[j].variant_name == tag);
    }
    assert forall|block: Seq<char>| arm_blocks(a).to_set().contains(block) implies arm_blocks(
        b,
    ).to_set().contains(block) by {
        let i = choose|i: int| 0 <= i < arm_blocks(a).len() && arm_blocks(a)[i] == block;
        let j = choose|j: int| 0 <= j < b.len() && b[j] == a[i];
        assert(arm_blocks(b)[j] == block);
    }
    assert forall|block: Seq<char>| adapter_blocks(a).to_set().contains(block) implies adapter_blocks(
        b,
    ).to_set().contains(block) by {
        let i = choose|i: int| 0 <= i < adapter_blocks(a).len() && adapter_blocks(a)[i] == block;
        let j = choose|j: int| 0 <= j < b.len() && b[j] == a[i];
        assert(adapter_blocks(b)[j] == block);
    }
}

} // verus!
