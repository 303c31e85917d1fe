//! The lexical rules of a variant list: identifiers and type names.

use crate::text::chars_of;
use vstd::prelude::*;

verus! {

/// A character that may open an identifier: an ASCII letter or an underscore.
pub open spec fn is_ident_start(c: char) -> bool {
    ('a' <= c && c <= 'z') || ('A' <= c && c <= 'Z') || c == '_'
}

/// A character that may stand inside an identifier: an ASCII letter, an
/// underscore or an ASCII digit.
pub open spec fn is_ident_continue(c: char) -> bool {
    is_ident_start(c) || ('0' <= c && c <= '9')
}

/// `tag := identifier`: a non-empty run of identifier characters that does not
/// open with a digit and is not the lone underscore.
pub open spec fn is_identifier(s: Seq<char>) -> bool {
    &&& s.len() > 0
    &&& is_ident_start(s[0])
    &&& forall|i: int| 0 <= i < s.len() ==> is_ident_continue(#[trigger] s[i])
    &&& !(s.len() == 1 && s[0] == '_')
}

/// `s` opens with an identifier of `k` characters that a `::` follows.
pub open spec fn qualifier_ends_at(s: Seq<char>, k: int) -> bool {
    &&& 0 < k
    &&& k + 2 <= s.len()
    &&& is_identifier(s.take(k))
    &&& s[k] == ':'
    &&& s[k + 1] == ':'
}

/// `type_name := identifier ("::" identifier)*`: an identifier, or an
/// identifier, `::`, and a type name.
pub open spec fn is_type_name(s: Seq<char>) -> bool
    decreases s.len(),
{
    is_identifier(s) || exists|k: int| #[trigger]
        qualifier_ends_at(s, k) && is_type_name(s.skip(k + 2))
}

/// A character that a type name may hold.
pub open spec fn is_type_name_char(c: char) -> bool {
    is_ident_continue(c) || c == ':'
}

/// A type name is non-empty and holds identifier characters and colons only.
pub proof fn lemma_type_name_chars(s: Seq<char>)
    requires
        is_type_name(s),
    ensures
        s.len() > 0,
        forall|i: int| 0 <= i < s.len() ==> is_type_name_char(#[trigger] s[i]),
    decreases s.len(),
{
    if !is_identifier(s) {
        let k = choose|k: int| #[trigger] qualifier_ends_at(s, k) && is_type_name(s.skip(k + 2));
        let rest = s.skip(k + 2);
        lemma_type_name_chars(rest);
        assert forall|i: int| 0 <= i < s.len() implies is_type_name_char(#[trigger] s[i]) by {
            if i < k {
                assert(s.take(k)[i] == s[i]);
            } else if i >= k + 2 {
                assert(rest[i - (k + 2)] == s[i]);
            }
        }
    }
}

/// Where the leading run of identifier characters of `s` ends at `e`, `s` is a
/// type name exactly if that run is an identifier and either is all of `s` or
/// is followed by `::` and a type name.
pub proof fn lemma_type_name_unfold(s: Seq<char>, e: int)
    requires
        0 <= e <= s.len(),
        forall|i: int| 0 <= i < e ==> is_ident_continue(#[trigger] s[i]),
        e < s.len() ==> !is_ident_continue(s[e]),
    ensures
        is_type_name(s) <==> (is_identifier(s.take(e)) && (e == s.len() || (e + 2 <= s.len()
            && s[e] == ':' && s[e + 1] == ':' && is_type_name(s.skip(e + 2))))),
{
    let unfolded = is_identifier(s.take(e)) && (e == s.len() || (e + 2 <= s.len() && s[e] == ':'
        && s[e + 1] == ':' && is_type_name(s.skip(e + 2))));
    if is_type_name(s) {
        if is_identifier(s) {
            assert(e == s.len());
            assert(s.take(e) =~= s);
        } else {
            let k = choose|k: int| #[trigger]
                qualifier_ends_at(s, k) && is_type_name(s.skip(k + 2));
            assert forall|i: int| 0 <= i < k implies is_ident_continue(#[trigger] s[i]) by {
                assert(s.take(k)[i] == s[i]);
            }
            assert(k == e);
        }
        assert(unfolded);
    }
    if unfolded {
        if e == s.len() {
            assert(s.take(e) =~= s);
        } else {
            assert(qualifier_ends_at(s, e));
        }
        assert(is_type_name(s));
    }
}

/// Tells whether `c` may open an identifier.
pub fn ident_start(c: char) -> (b: bool)
    ensures
        b == is_ident_start(c),
{
    (c >= 'a' && c <= 'z') || (c >= 'A' && c <= 'Z') || c == '_'
}

/// Tells whether `c` may stand inside an identifier.
pub fn ident_continue(c: char) -> (b: bool)
    ensures
        b == is_ident_continue(c),
{
    ident_start(c) || (c >= '0' && c <= '9')
}

/// The end of the run of identifier characters of `cs` that starts at `from`,
/// looking no further than `to`.
pub(crate) fn ident_run_end(cs: &Vec<char>, from: usize, to: usize) -> (e: usize)
    requires
        from <= to <= cs.len(),
    ensures
        from <= e <= to,
        forall|i: int| from <= i < e ==> is_ident_continue(#[trigger] cs@[i]),
        e < to ==> !is_ident_continue(cs@[e as int]),
{
    let mut e: usize = from;
    while e < to && ident_continue(cs[e])
        invariant
            from <= e <= to <= cs.len(),
            forall|i: int| from <= i < e ==> is_ident_continue(#[trigger] cs@[i]),
        decreases to - e,
    {
        e += 1;
    }
    e
}

/// Tells whether the characters of `cs` from `from` up to `to` are an identifier.
pub(crate) fn identifier_at(cs: &Vec<char>, from: usize, to: usize) -> (ok: bool)
    requires
        from <= to <= cs.len(),
    ensures
        ok == is_identifier(cs@.subrange(from as int, to as int)),
{
    let ghost s = cs@.subrange(from as int, to as int);
    if from == to || !ident_start(cs[from]) {
        assert(s.len() > 0 ==> s[0] == cs@[from as int]);
        return false;
    }
    assert(s[0] == cs@[from as int]);
    if to - from == 1 && cs[from] == '_' {
        return false;
    }
    let e = ident_run_end(cs, from, to);
    if e < to {
        assert(s[e - from] == cs@[e as int]);
        return false;
    }
    assert forall|i: int| 0 <= i < s.len() implies is_ident_continue(#[trigger] s[i]) by {
        assert(s[i] == cs@[from + i]);
    }
    true
}

/// Tells whether the characters of `cs` from `from` up to `to` are a type name.
pub(crate) fn type_name_at(cs: &Vec<char>, from: usize, to: usize) -> (ok: bool)
    requires
        from <= to <= cs.len(),
    ensures
        ok == is_type_name(cs@.subrange(from as int, to as int)),
{
    let ghost whole = cs@.subrange(from as int, to as int);
    let mut seg: usize = from;
    loop
        invariant
            from <= seg <= to <= cs.len(),
            whole == cs@.subrange(from as int, to as int),
            is_type_name(whole) == is_type_name(cs@.subrange(seg as int, to as int)),
        decreases to - seg,
    {
        let ghost s = cs@.subrange(seg as int, to as int);
        let e = ident_run_end(cs, seg, to);
        proof {
            assert forall|i: int| 0 <= i < e - seg implies is_ident_continue(#[trigger] s[i]) by {
                assert(s[i] == cs@[seg + i]);
            }
            assert(e < to ==> s[e - seg] == cs@[e as int]);
            lemma_type_name_unfold(s, e - seg);
            assert(s.take(e - seg) =~= cs@.subrange(seg as int, e as int));
        }
        if !identifier_at(cs, seg, e) {
            return false;
        }
        if e == to {
            return true;
        }
        if to - e < 2 || cs[e] != ':' || cs[e + 1] != ':' {
            assert(e + 1 < to ==> s[e - seg + 1] == cs@[e + 1]);
            return false;
        }
        assert(s[e - seg + 1] == cs@[e + 1]);
        assert(s.skip(e - seg + 2) =~= cs@.subrange(e + 2, to as int));
        seg = e + 2;
    }
}

/// Tells whether `s` is an identifier, as a tag has to be.
pub fn is_valid_identifier(s: &str) -> (ok: bool)
    ensures
        ok == is_identifier(s@),
{
    let cs = chars_of(s);
    assert(cs@.subrange(0, cs@.len() as int) =~= s@);
    identifier_at(&cs, 0, cs.len())
}

/// Tells whether `s` is a type name, as a wrapped type has to be: identifiers
/// with `::` in between.
pub fn is_valid_type_name(s: &str) -> (ok: bool)
    ensures
        ok == is_type_name(s@),
{
    let cs = chars_of(s);
    assert(cs@.subrange(0, cs@.len() as int) =~= s@);
    type_name_at(&cs, 0, cs.len())
}

} // verus!
