//! Facts about entries, separators and tokens that the parser and the laws of
//! the library rest on.

use crate::grammar::{is_ident_continue, is_type_name_char, lemma_type_name_chars};
use crate::parser::{
    entry_text, is_separator_at, list_text, next_separator, reads_as, separator, tokens,
    tokens_from,
};
use crate::table::{well_formed_entry, VariantSpecView};
use vstd::prelude::*;

verus! {

/// `next_separator` finds a separator, or the end of the text, and skips none.
pub proof fn lemma_next_separator(s: Seq<char>, from: int)
    requires
        0 <= from <= s.len(),
    ensures
        from <= next_separator(s, from) <= s.len(),
        next_separator(s, from) < s.len() ==> is_separator_at(s, next_separator(s, from)),
        forall|i: int| from <= i < next_separator(s, from) ==> !is_separator_at(s, i),
    decreases s.len() - from,
{
    if from + 2 <= s.len() && !(s[from] == ',' && s[from + 1] == ' ') {
        lemma_next_separator(s, from + 1);
    }
}

/// The place `at` is what `next_separator` finds from `from` on, if it holds a
/// separator or is the end of the text and no separator stands in between.
pub proof fn lemma_next_separator_is(s: Seq<char>, from: int, at: int)
    requires
        0 <= from <= at <= s.len(),
        is_separator_at(s, at) || at == s.len(),
        forall|i: int| from <= i < at ==> !is_separator_at(s, i),
    ensures
        next_separator(s, from) == at,
    decreases at - from,
{
    if from < at {
        assert(!is_separator_at(s, from));
        if from + 2 <= s.len() {
            lemma_next_separator_is(s, from + 1, at);
        }
    }
}

/// How the text of a well-formed entry is laid out, given where its leading
/// run of identifier characters ends: the run is the tag, a `(` follows, the
/// text closes with `)`, and the type name stands in between.
pub proof fn lemma_entry_shape(token: Seq<char>, e: VariantSpecView, run: int)
    requires
        reads_as(token, e),
        0 <= run <= token.len(),
        forall|i: int| 0 <= i < run ==> is_ident_continue(#[trigger] token[i]),
        run < token.len() ==> !is_ident_continue(token[run]),
    ensures
        run == e.variant_name.len(),
        run + 2 < token.len(),
        token[run] == '(',
        token.last() == ')',
        token.take(run) == e.variant_name,
        token.subrange(run + 1, token.len() - 1) == e.wrapped_type,
{
    let tag = e.variant_name;
    let ty = e.wrapped_type;
    lemma_type_name_chars(ty);
    assert(token.len() == tag.len() + ty.len() + 2);
    assert(token[tag.len() as int] == '(');
    assert forall|i: int| 0 <= i < tag.len() implies is_ident_continue(#[trigger] token[i]) by {
        assert(token[i] == tag[i]);
    }
    assert(run == tag.len());
    assert(token.take(run) =~= tag);
    assert(token.subrange(run + 1, token.len() - 1) =~= ty);
}

/// A token is the text of at most one well-formed entry.
pub proof fn lemma_reads_as_unique(token: Seq<char>, a: VariantSpecView, b: VariantSpecView)
    requires
        reads_as(token, a),
        reads_as(token, b),
    ensures
        a == b,
{
    let run = a.variant_name.len() as int;
    assert forall|i: int| 0 <= i < run implies is_ident_continue(#[trigger] token[i]) by {
        assert(token[i] == a.variant_name[i]);
    }
    assert(token[run] == '(');
    lemma_entry_shape(token, a, run);
    lemma_entry_shape(token, b, run);
}

/// The text of a well-formed entry holds neither a comma nor a space.
pub proof fn lemma_entry_text_chars(token: Seq<char>, e: VariantSpecView)
    requires
        reads_as(token, e),
    ensures
        token.len() > 0,
        forall|i: int| 0 <= i < token.len() ==> #[trigger] token[i] != ',' && token[i] != ' ',
{
    let tag = e.variant_name;
    let ty = e.wrapped_type;
    lemma_type_name_chars(ty);
    assert forall|i: int| 0 <= i < token.len() implies #[trigger] token[i] != ',' && token[i]
        != ' ' by {
        if i < tag.len() {
            assert(token[i] == tag[i]);
            assert(is_ident_continue(tag[i]));
        } else if i == tag.len() {
        } else if i < tag.len() + 1 + ty.len() {
            assert(token[i] == ty[i - tag.len() - 1]);
            assert(is_type_name_char(ty[i - tag.len() - 1]));
        } else {
        }
    }
}

/// Behind a text, a separator and a piece without a comma add that piece to the
/// text's tokens, as the last one.
pub proof fn lemma_tokens_append(s: Seq<char>, piece: Seq<char>, from: int)
    requires
        0 <= from <= s.len(),
        forall|i: int| 0 <= i < piece.len() ==> #[trigger] piece[i] != ',',
    ensures
        tokens_from(s + separator() + piece, from) == tokens_from(s, from).push(piece),
    decreases s.len() - from,
{
    let whole = s + separator() + piece;
    let n = s.len() as int;
    let end = next_separator(s, from);
    lemma_next_separator(s, from);
    assert(is_separator_at(whole, n));
    assert forall|i: int| n + 2 <= i < whole.len() implies !is_separator_at(whole, i) by {
        assert(whole[i] == piece[i - n - 2]);
    }
    lemma_next_separator_is(whole, n + 2, whole.len() as int);
    assert(tokens_from(whole, n + 2) =~= seq![piece]) by {
        assert(whole.subrange(n + 2, whole.len() as int) =~= piece);
    }
    if end + 2 <= s.len() {
        assert(is_separator_at(whole, end));
        assert forall|i: int| from <= i < end implies !is_separator_at(whole, i) by {
            assert(!is_separator_at(s, i));
        }
        lemma_next_separator_is(whole, from, end);
        lemma_tokens_append(s, piece, end + 2);
        assert(whole.subrange(from, end) =~= s.subrange(from, end));
        assert(tokens_from(whole, from) =~= tokens_from(s, from).push(piece));
    } else {
        assert(end == n);
        assert forall|i: int| from <= i < n implies !is_separator_at(whole, i) by {
            if is_separator_at(whole, i) {
                if i + 2 <= n {
                    assert(is_separator_at(s, i));
                } else {
                    assert(whole[i + 1] == ',');
                }
            }
        }
        lemma_next_separator_is(whole, from, n);
        assert(whole.subrange(from, n) =~= s.subrange(from, n));
        assert(tokens_from(whole, from) =~= tokens_from(s, from).push(piece));
    }
}

/// The texts of the entries, one by one.
pub open spec fn entry_texts(entries: Seq<VariantSpecView>) -> Seq<Seq<char>> {
    Seq::new(entries.len(), |i: int| entry_text(entries[i]))
}

/// The tokens of the text of a list of well-formed entries are the texts of
/// its entries.
pub proof fn lemma_tokens_of_list_text(entries: Seq<VariantSpecView>)
    requires
        entries.len() > 0,
        forall|i: int| 0 <= i < entries.len() ==> well_formed_entry(#[trigger] entries[i]),
    ensures
        tokens(list_text(entries)) == entry_texts(entries),
    decreases entries.len(),
{
    let last = entries.last();
    let piece = entry_text(last);
    assert(well_formed_entry(last));
    lemma_entry_text_chars(piece, last);
    if entries.len() == 1 {
        assert forall|i: int| 0 <= i < piece.len() implies !is_separator_at(piece, i) by {}
        lemma_next_separator_is(piece, 0, piece.len() as int);
        assert(piece.subrange(0, piece.len() as int) =~= piece);
        assert(tokens(piece) =~= entry_texts(entries));
    } else {
        let front = entries.drop_last();
        assert forall|i: int| 0 <= i < front.len() implies well_formed_entry(
            #[trigger] front[i],
        ) by {
            assert(front[i] == entries[i]);
        }
        lemma_tokens_of_list_text(front);
        lemma_tokens_append(list_text(front), piece, 0);
        assert(entry_texts(front).push(piece) =~= entry_texts(entries));
    }
}

} // verus!
