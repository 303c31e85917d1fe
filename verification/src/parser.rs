//! Reading a variant list, `Tag1(Type1), Tag2(Type2), ...`, into a variant
//! table.

use crate::error::GenerationError;
use crate::grammar::{
    ident_run_end, identifier_at, is_ident_continue, lemma_type_name_chars, type_name_at,
};
use crate::laws::lemma_refused_is_no_list;
use crate::splitting::{entry_texts, lemma_entry_shape};
use crate::table::{
    distinct_tags, has_tag, well_formed_entries, well_formed_entry, VariantSpecView,
    VariantTable,
};
use crate::text::{chars_of, slice_of};
use vstd::prelude::*;

verus! {

/// What stands between two entries: a comma and one space.
pub open spec fn separator() -> Seq<char> {
    seq![',', ' ']
}

/// `entry := tag "(" type_name ")"`: the text of one entry.
pub open spec fn entry_text(e: VariantSpecView) -> Seq<char> {
    e.variant_name + seq!['('] + e.wrapped_type + seq![')']
}

/// `list := entry (", " entry)*`: the text of a list of entries. The empty
/// list has the empty text, which is the text of no other list.
pub open spec fn list_text(entries: Seq<VariantSpecView>) -> Seq<char>
    decreases entries.len(),
{
    if entries.len() == 0 {
        Seq::empty()
    } else if entries.len() == 1 {
        entry_text(entries[0])
    } else {
        list_text(entries.drop_last()) + separator() + entry_text(entries.last())
    }
}

/// `input` is a variant list, and `entries` is what it declares: at least one
/// entry, each well formed, no tag twice, written out with `", "` in between.
pub open spec fn declares(input: Seq<char>, entries: Seq<VariantSpecView>) -> bool {
    &&& entries.len() > 0
    &&& well_formed_entries(entries)
    &&& list_text(entries) == input
}

/// `input` is a variant list that the grammar accepts and in which no tag
/// occurs twice.
pub open spec fn is_variant_list(input: Seq<char>) -> bool {
    exists|entries: Seq<VariantSpecView>| declares(input, entries)
}

/// `token` is the text of the well-formed entry `e`.
pub open spec fn reads_as(token: Seq<char>, e: VariantSpecView) -> bool {
    well_formed_entry(e) && entry_text(e) == token
}

/// `token` is the text of some well-formed entry.
pub open spec fn is_entry_text(token: Seq<char>) -> bool {
    exists|e: VariantSpecView| reads_as(token, e)
}

/// A separator stands in `s` at `i`.
pub open spec fn is_separator_at(s: Seq<char>, i: int) -> bool {
    0 <= i && i + 2 <= s.len() && s[i] == ',' && s[i + 1] == ' '
}

/// Where the first separator at or after `from` stands in `s`, or the length
/// of `s` if there is none.
pub open spec fn next_separator(s: Seq<char>, from: int) -> int
    decreases s.len() - from,
{
    if from < 0 || from + 2 > s.len() {
        s.len() as int
    } else if s[from] == ',' && s[from + 1] == ' ' {
        from
    } else {
        next_separator(s, from + 1)
    }
}

/// The pieces into which the separators cut `s` from `from` on, taking the
/// separators from left to right.
pub open spec fn tokens_from(s: Seq<char>, from: int) -> Seq<Seq<char>>
    decreases s.len() - from,
{
    let end = next_separator(s, from);
    if 0 <= from <= end && end + 2 <= s.len() {
        seq![s.subrange(from, end)] + tokens_from(s, end + 2)
    } else {
        seq![s.subrange(from, s.len() as int)]
    }
}

/// The pieces into which the separators cut `s`: one more than there are
/// separators, so at least one.
pub open spec fn tokens(s: Seq<char>) -> Seq<Seq<char>> {
    tokens_from(s, 0)
}

/// How many characters precede the token at `i` where `toks` are the tokens of
/// a text.
pub open spec fn token_offset(toks: Seq<Seq<char>>, i: int) -> int
    decreases i,
{
    if i <= 0 {
        0
    } else {
        token_offset(toks, i - 1) + toks[i - 1].len() + 2
    }
}

/// The first tokens read as `entries`, one by one and in order.
pub open spec fn accepted(toks: Seq<Seq<char>>, entries: Seq<VariantSpecView>) -> bool {
    &&& entries.len() <= toks.len()
    &&& forall|j: int| 0 <= j < entries.len() ==> reads_as(#[trigger] toks[j], entries[j])
}

/// `err` is the error that the variant list `input` is refused with: it is
/// about the first entry that is no `tag(type_name)` or that repeats the tag
/// of an earlier entry.
pub open spec fn refuses(input: Seq<char>, err: GenerationError) -> bool {
    let toks = tokens(input);
    match err {
        GenerationError::MalformedVariantSpec { token, index, offset } => {
            &&& index < toks.len()
            &&& exists|entries: Seq<VariantSpecView>|
                entries.len() == index && #[trigger] accepted(toks, entries) && distinct_tags(
                    entries,
                )
            &&& !is_entry_text(toks[index as int])
            &&& token@ == toks[index as int]
            &&& offset == token_offset(toks, index as int)
        },
        GenerationError::DuplicateVariantTag { tag, index, offset } => {
            &&& index < toks.len()
            &&& exists|entries: Seq<VariantSpecView>|
                entries.len() == index + 1 && #[trigger] accepted(toks, entries) && distinct_tags(
                    entries.take(index as int),
                ) && has_tag(entries.take(index as int), tag@) && entries[index as int].variant_name
                    == tag@
            &&& offset == token_offset(toks, index as int)
        },
        GenerationError::CodeSynthesisFailure { .. } => false,
    }
}

/// Where the first separator at or after `from` stands in `cs`, or the length
/// of `cs` if there is none.
pub(crate) fn separator_from(cs: &Vec<char>, from: usize) -> (end: usize)
    requires
        from <= cs.len(),
    ensures
        end == next_separator(cs@, from as int),
        from <= end <= cs.len(),
        end < cs.len() ==> is_separator_at(cs@, end as int),
{
    let n = cs.len();
    let mut i: usize = from;
    while n - i >= 2 && !(cs[i] == ',' && cs[i + 1] == ' ')
        invariant
            from <= i <= n,
            n == cs.len(),
            next_separator(cs@, from as int) == next_separator(cs@, i as int),
        decreases n - i,
    {
        i += 1;
    }
    if n - i >= 2 {
        i
    } else {
        n
    }
}

/// Reads the characters of `cs` from `from` up to `to` as one entry, and tells
/// where its `(` stands: the tag ends there, and the type name runs from the
/// next character up to the closing `)`.
pub(crate) fn entry_at(cs: &Vec<char>, from: usize, to: usize) -> (paren: Option<usize>)
    requires
        from <= to <= cs.len(),
    ensures
        match paren {
            Some(p) => from < p && p + 2 < to && reads_as(
                cs@.subrange(from as int, to as int),
                VariantSpecView {
                    variant_name: cs@.subrange(from as int, p as int),
                    wrapped_type: cs@.subrange(p + 1, to - 1),
                },
            ),
            None => !is_entry_text(cs@.subrange(from as int, to as int)),
        },
{
    let ghost token = cs@.subrange(from as int, to as int);
    let p = ident_run_end(cs, from, to);
    proof {
        assert forall|i: int| 0 <= i < p - from implies is_ident_continue(#[trigger] token[i]) by {
            assert(token[i] == cs@[from + i]);
        }
        assert(p < to ==> token[p - from] == cs@[p as int]);
        assert forall|e: VariantSpecView| reads_as(token, e) implies {
            &&& p - from == e.variant_name.len()
            &&& p + 2 < to
            &&& cs@[p as int] == '('
            &&& cs@[to - 1] == ')'
            &&& cs@.subrange(from as int, p as int) == e.variant_name
            &&& cs@.subrange(p + 1, to - 1) == e.wrapped_type
        } by {
            lemma_entry_shape(token, e, p - from);
            assert(token.take(p - from) =~= cs@.subrange(from as int, p as int));
            assert(token.subrange(p - from + 1, token.len() - 1) =~= cs@.subrange(p + 1, to - 1));
        }
    }
    if to - p < 2 || cs[p] != '(' || cs[to - 1] != ')' {
        return None;
    }
    if !identifier_at(cs, from, p) || !type_name_at(cs, p + 1, to - 1) {
        return None;
    }
    proof {
        let e = VariantSpecView {
            variant_name: cs@.subrange(from as int, p as int),
            wrapped_type: cs@.subrange(p + 1, to - 1),
        };
        lemma_type_name_chars(e.wrapped_type);
        assert(entry_text(e) =~= token);
    }
    Some(p)
}

/// Reads a variant list, `Tag1(Type1), Tag2(Type2), ...`, into the table of
/// its variants, which keeps their order.
///
/// The list is accepted exactly if it follows the grammar, with one comma and
/// one space between two entries, and no tag occurs twice. Otherwise the error
/// names the first entry that is malformed or repeats a tag.
pub fn idents_from_input(input_str: String) -> (res: Result<VariantTable, GenerationError>)
    ensures
        match res {
            Ok(table) => table.wf() && declares(input_str@, table@),
            Err(err) => refuses(input_str@, err),
        },
        res is Ok <==> is_variant_list(input_str@),
{
    let input = input_str.as_str();
    let cs = chars_of(input);
    let n = cs.len();
    let mut table = VariantTable::new();
    let mut start: usize = 0;
    let mut index: usize = 0;
    assert(entry_texts(table@) + tokens_from(cs@, 0) =~= tokens(cs@));
    loop
        invariant
            cs@ == input_str@,
            input@ == input_str@,
            n == cs.len(),
            start <= n,
            index == table@.len(),
            index <= start,
            table.wf(),
            tokens(cs@) == entry_texts(table@) + tokens_from(cs@, start as int),
            start == token_offset(tokens(cs@), index as int),
            index == 0 ==> start == 0,
            index > 0 ==> cs@.take(start as int) == list_text(table@) + separator(),
        decreases n - start,
    {
        let end = separator_from(&cs, start);
        let ghost token = cs@.subrange(start as int, end as int);
        let ghost toks = tokens(cs@);
        let ghost before = table@;
        proof {
            assert(tokens_from(cs@, start as int)[0] == token);
            assert(toks[index as int] == token);
            assert(accepted(toks, before)) by {
                assert forall|j: int| 0 <= j < before.len() implies reads_as(
                    #[trigger] toks[j],
                    before[j],
                ) by {
                    assert(toks[j] == entry_texts(before)[j]);
                }
            }
        }
        match entry_at(&cs, start, end) {
            None => {
                let err = GenerationError::MalformedVariantSpec {
                    token: slice_of(input, start, end),
                    index,
                    offset: start,
                };
                proof {
                    assert(refuses(input_str@, err));
                    lemma_refused_is_no_list(input_str@, err);
                }
                return Err(err);
            },
            Some(paren) => {
                let tag = slice_of(input, start, paren);
                let wrapped = slice_of(input, paren + 1, end - 1);
                let ghost e = VariantSpecView { variant_name: tag@, wrapped_type: wrapped@ };
                match table.position_of(tag.as_str()) {
                    Some(_) => {
                        let err = GenerationError::DuplicateVariantTag {
                            tag,
                            index,
                            offset: start,
                        };
                        proof {
                            let w = before.push(e);
                            assert(w.take(index as int) =~= before);
                            assert(accepted(toks, w));
                            assert(refuses(input_str@, err));
                            lemma_refused_is_no_list(input_str@, err);
                        }
                        return Err(err);
                    },
                    None => {
                        table.push(tag, wrapped);
                    },
                }
                proof {
                    assert(entry_texts(table@) =~= entry_texts(before).push(token));
                    assert(table@.drop_last() =~= before);
                    if index > 0 {
                        assert(list_text(table@) == list_text(before) + separator() + token);
                    } else {
                        assert(list_text(table@) == token);
                    }
                }
            },
        }
        if end == n {
            proof {
                assert(cs@.take(start as int) + token =~= cs@);
                assert(list_text(table@) == cs@);
                assert(declares(input_str@, table@));
            }
            return Ok(table);
        }
        proof {
            assert(cs@.take(end + 2) =~= cs@.take(start as int) + token + separator());
            assert(cs@.take(end + 2) =~= list_text(table@) + separator());
            assert(tokens_from(cs@, start as int) =~= seq![token] + tokens_from(cs@, end + 2));
            assert(tokens(cs@) =~= entry_texts(table@) + tokens_from(cs@, end + 2));
        }
        start = end + 2;
        index += 1;
    }
}

} // verus!
