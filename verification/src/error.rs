//! What can go wrong while a declaration is generated.

use crate::text::{decimal_text, push_decimal};
use vstd::prelude::*;

verus! {

/// Why no declaration was generated. Each variant carries the fragment of the
/// input, or of the output, that the failure is about.
#[derive(Debug, Clone, PartialEq, Eq)]
pub enum GenerationError {
    /// An entry of the variant list does not read `tag(type_name)`.
    MalformedVariantSpec {
        /// The offending entry, as it stands between two separators.
        token: String,
        /// How many entries precede it.
        index: usize,
        /// How many characters of the input precede it.
        offset: usize,
    },
    /// An entry repeats the tag of an earlier entry.
    DuplicateVariantTag {
        /// The repeated tag.
        tag: String,
        /// How many entries precede the repeating entry.
        index: usize,
        /// How many characters of the input precede the repeating entry.
        offset: usize,
    },
    /// The host could not read the generated declaration back.
    CodeSynthesisFailure {
        /// The declaration that was refused.
        text: String,
    },
}

/// Where in the input an entry stands, as a diagnostic words it.
pub open spec fn place_text(index: nat, offset: nat) -> Seq<char> {
    " (entry "@ + decimal_text(index) + ", offset "@ + decimal_text(offset) + ")"@
}

/// Adds the wording of a place in the input to `out`.
fn push_place(out: &mut String, index: usize, offset: usize)
    ensures
        final(out)@ == old(out)@ + place_text(index as nat, offset as nat),
{
    let ghost before = out@;
    out.append(" (entry ");
    push_decimal(out, index);
    out.append(", offset ");
    push_decimal(out, offset);
    out.append(")");
    assert(out@ =~= before + place_text(index as nat, offset as nat));
}

impl GenerationError {
    /// The text of a diagnostic for this error: what went wrong, the fragment
    /// it is about between backquotes and, for an entry of the input, where it
    /// stands, entries and characters counted from zero.
    pub open spec fn spec_message(self) -> Seq<char> {
        match self {
            GenerationError::MalformedVariantSpec { token, index, offset } =>
                "malformed variant entry `"@ + token@ + "`"@ + place_text(
                    index as nat,
                    offset as nat,
                ) + ": expected `Tag(Type)`"@,
            GenerationError::DuplicateVariantTag { tag, index, offset } =>
                "duplicate variant tag `"@ + tag@ + "`"@ + place_text(index as nat, offset as nat),
            GenerationError::CodeSynthesisFailure { text } =>
                "generated declaration does not parse: `"@ + text@ + "`"@,
        }
    }

    /// The fragment of input or output that this error is about.
    pub open spec fn spec_fragment(self) -> Seq<char> {
        match self {
            GenerationError::MalformedVariantSpec { token, .. } => token@,
            GenerationError::DuplicateVariantTag { tag, .. } => tag@,
            GenerationError::CodeSynthesisFailure { text } => text@,
        }
    }

    /// The fragment of input or output that this error is about.
    pub fn fragment(&self) -> (s: &String)
        ensures
            s@ == self.spec_fragment(),
    {
        match self {
            GenerationError::MalformedVariantSpec { token, .. } => token,
            GenerationError::DuplicateVariantTag { tag, .. } => tag,
            GenerationError::CodeSynthesisFailure { text } => text,
        }
    }

    /// The text of a diagnostic for this error.
    pub fn message(&self) -> (s: String)
        ensures
            s@ == self.spec_message(),
    {
        match self {
            GenerationError::MalformedVariantSpec { token, index, offset } => {
                let mut s = String::from_str("malformed variant entry `");
                s.append(token.as_str());
                s.append("`");
                push_place(&mut s, *index, *offset);
                s.append(": expected `Tag(Type)`");
                s
            },
            GenerationError::DuplicateVariantTag { tag, index, offset } => {
                let mut s = String::from_str("duplicate variant tag `");
                s.append(tag.as_str());
                s.append("`");
                push_place(&mut s, *index, *offset);
                s
            },
            GenerationError::CodeSynthesisFailure { text } => {
                let mut s = String::from_str("generated declaration does not parse: `");
                s.append(text.as_str());
                s.append("`");
                s
            },
        }
    }
}

} // verus!
