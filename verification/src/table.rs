//! The variant table: which tag wraps which type.

use crate::grammar::{is_identifier, is_type_name};
use crate::text::same_text;
use vstd::prelude::*;

verus! {

/// One variant as contracts see it: its tag and the name of the type it wraps.
pub struct VariantSpecView {
    pub variant_name: Seq<char>,
    pub wrapped_type: Seq<char>,
}

/// One variant of the aggregate type: a tag and the name of the type it wraps.
#[derive(Debug, Clone, PartialEq, Eq)]
pub struct VariantSpec {
    pub variant_name: String,
    pub wrapped_type: String,
}

impl View for VariantSpec {
    type V = VariantSpecView;

    open spec fn view(&self) -> VariantSpecView {
        VariantSpecView { variant_name: self.variant_name@, wrapped_type: self.wrapped_type@ }
    }
}

/// The tag is an identifier and the wrapped type is a type name.
pub open spec fn well_formed_entry(e: VariantSpecView) -> bool {
    is_identifier(e.variant_name) && is_type_name(e.wrapped_type)
}

/// No two entries share a tag.
pub open spec fn distinct_tags(entries: Seq<VariantSpecView>) -> bool {
    forall|i: int, j: int|
        0 <= i < j < entries.len() ==> (#[trigger] entries[i]).variant_name
            != (#[trigger] entries[j]).variant_name
}

/// Every entry is well formed and no two entries share a tag.
pub open spec fn well_formed_entries(entries: Seq<VariantSpecView>) -> bool {
    &&& forall|i: int| 0 <= i < entries.len() ==> well_formed_entry(#[trigger] entries[i])
    &&& distinct_tags(entries)
}

/// Some entry carries the tag `tag`.
pub open spec fn has_tag(entries: Seq<VariantSpecView>, tag: Seq<char>) -> bool {
    exists|i: int| 0 <= i < entries.len() && (#[trigger] entries[i]).variant_name == tag
}

/// The tags of the entries, as a set.
pub open spec fn tag_set(entries: Seq<VariantSpecView>) -> Set<Seq<char>> {
    Set::new(|tag: Seq<char>| has_tag(entries, tag))
}

/// The entry at `i` carries the tag `tag`, and no entry before it does.
pub open spec fn is_first_with_tag(entries: Seq<VariantSpecView>, tag: Seq<char>, i: int) -> bool {
    &&& 0 <= i < entries.len()
    &&& entries[i].variant_name == tag
    &&& !has_tag(entries.take(i), tag)
}

/// The mapping that the entries stand for: from each tag to the type that the
/// first entry with that tag wraps.
pub open spec fn mapping(entries: Seq<VariantSpecView>) -> Map<Seq<char>, Seq<char>> {
    Map::new(
        |tag: Seq<char>| has_tag(entries, tag),
        |tag: Seq<char>| entries[choose|i: int| is_first_with_tag(entries, tag, i)].wrapped_type,
    )
}

/// At most one entry is the first with a given tag.
pub proof fn lemma_first_with_tag_unique(
    entries: Seq<VariantSpecView>,
    tag: Seq<char>,
    i: int,
    k: int,
)
    requires
        is_first_with_tag(entries, tag, i),
        is_first_with_tag(entries, tag, k),
    ensures
        i == k,
{
    if k < i {
        assert(entries.take(i)[k].variant_name == tag);
    } else if i < k {
        assert(entries.take(k)[i].variant_name == tag);
    }
}

/// Where no tag repeats, the mapping sends the tag of each entry to the type
/// that this very entry wraps.
pub proof fn lemma_mapping_at(entries: Seq<VariantSpecView>, i: int)
    requires
        distinct_tags(entries),
        0 <= i < entries.len(),
    ensures
        mapping(entries).dom().contains(entries[i].variant_name),
        mapping(entries)[entries[i].variant_name] == entries[i].wrapped_type,
{
    let tag = entries[i].variant_name;
    assert(is_first_with_tag(entries, tag, i)) by {
        if has_tag(entries.take(i), tag) {
            let j = choose|j: int|
                0 <= j < entries.take(i).len() && (#[trigger] entries.take(i)[j]).variant_name
                    == tag;
            assert(entries[j].variant_name != entries[i].variant_name);
        }
    }
    let k = choose|k: int| is_first_with_tag(entries, tag, k);
    lemma_first_with_tag_unique(entries, tag, i, k);
}

/// The variants of one aggregate type, in the order in which they were
/// declared. Every tag is an identifier, every wrapped type a type name, and no
/// tag occurs twice.
#[derive(Debug, Clone, PartialEq, Eq)]
pub struct VariantTable {
    entries: Vec<VariantSpec>,
}

impl View for VariantTable {
    type V = Seq<VariantSpecView>;

    closed spec fn view(&self) -> Seq<VariantSpecView> {
        Seq::new(self.entries@.len(), |i: int| self.entries@[i]@)
    }
}

impl VariantTable {
    /// The table's invariant.
    pub open spec fn wf(&self) -> bool {
        well_formed_entries(self@)
    }

    /// A table without variants.
    pub fn new() -> (table: VariantTable)
        ensures
            table@ == Seq::<VariantSpecView>::empty(),
            table.wf(),
    {
        VariantTable { entries: Vec::new() }
    }

    /// The number of variants.
    pub fn len(&self) -> (n: usize)
        ensures
            n == self@.len(),
    {
        self.entries.len()
    }

    /// The variants, in the order in which they were declared.
    pub fn entries(&self) -> (entries: &Vec<VariantSpec>)
        ensures
            entries@.len() == self@.len(),
            forall|i: int| 0 <= i < entries@.len() ==> (#[trigger] entries@[i])@ == self@[i],
    {
        &self.entries
    }

    /// Where in the table the variant tagged `tag` stands, if there is one.
    pub fn position_of(&self, tag: &str) -> (found: Option<usize>)
        ensures
            match found {
                Some(i) => is_first_with_tag(self@, tag@, i as int),
                None => !has_tag(self@, tag@),
            },
    {
        let n = self.entries.len();
        let mut i: usize = 0;
        while i < n
            invariant
                i <= n,
                n == self.entries@.len(),
                n == self@.len(),
                forall|j: int| 0 <= j < i ==> (#[trigger] self@[j]).variant_name != tag@,
            decreases n - i,
        {
            if same_text(self.entries[i].variant_name.as_str(), tag) {
                return Some(i);
            }
            i += 1;
        }
        None
    }

    /// The type that the variant tagged `tag` wraps, if the table has such a
    /// variant.
    pub fn get(&self, tag: &str) -> (wrapped: Option<&String>)
        ensures
            wrapped is Some <==> has_tag(self@, tag@),
            wrapped matches Some(w) ==> w@ == mapping(self@)[tag@],
    {
        match self.position_of(tag) {
            Some(i) => {
                proof {
                    let k = choose|k: int| is_first_with_tag(self@, tag@, k);
                    lemma_first_with_tag_unique(self@, tag@, i as int, k);
                }
                Some(&self.entries[i].wrapped_type)
            },
            None => None,
        }
    }

    /// Adds a variant at the end of the table.
    pub(crate) fn push(&mut self, variant_name: String, wrapped_type: String)
        requires
            old(self).wf(),
            is_identifier(variant_name@),
            is_type_name(wrapped_type@),
            !has_tag(old(self)@, variant_name@),
        ensures
            final(self).wf(),
            final(self)@ == old(self)@.push(
                VariantSpecView { variant_name: variant_name@, wrapped_type: wrapped_type@ },
            ),
    {
        let ghost before = self@;
        let ghost added = VariantSpecView {
            variant_name: variant_name@,
            wrapped_type: wrapped_type@,
        };
        self.entries.push(VariantSpec { variant_name, wrapped_type });
        assert(self@ =~= before.push(added));
    }
}

} // verus!
