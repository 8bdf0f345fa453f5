//! The open-ended extension value a run request may carry.

use crate::error::{MalformedMessage, WireField};
use crate::text::{is_value_token, scan_value_at, str_chars};
use vstd::prelude::*;

verus! {

/// Tool-specific metadata riding inside a run request, kept as the raw text
/// of exactly one wire value token (a quoted token, a bracketed container,
/// or a scalar such as a number).
///
/// The protocol deliberately does not validate or interpret the content:
/// the text is carried through unchanged and spliced into the record as it
/// stands. The only demand, kept as this type's invariant, is that the text
/// frames a single value token, so that a record containing it stays
/// well-formed and reads back with the same boundaries.
#[derive(Debug)]
pub struct ExtensionData {
    text: String,
}

impl View for ExtensionData {
    type V = Seq<char>;

    closed spec fn view(&self) -> Seq<char> {
        self.text@
    }
}

impl ExtensionData {
    #[verifier::type_invariant]
    spec fn inv(self) -> bool {
        is_value_token(self.text@)
    }

    /// Wraps raw extension text, accepting it when it is exactly one value
    /// token and refusing it otherwise.
    pub fn new(text: String) -> (r: Result<ExtensionData, MalformedMessage>)
        ensures
            r matches Ok(d) ==> d@ == text@ && is_value_token(text@),
            r is Err ==> !is_value_token(text@) && r == Err::<ExtensionData, MalformedMessage>(
                MalformedMessage::InvalidFieldValue(WireField::Data),
            ),
    {
        let chars = str_chars(&text);
        match scan_value_at(&chars, 0) {
            Some(j) => {
                if j == chars.len() {
                    Ok(ExtensionData { text })
                } else {
                    Err(MalformedMessage::InvalidFieldValue(WireField::Data))
                }
            },
            None => Err(MalformedMessage::InvalidFieldValue(WireField::Data)),
        }
    }

    /// The raw text of the extension value.
    pub fn text(&self) -> (r: &String)
        ensures
            r@ == self@,
    {
        &self.text
    }

    /// Every extension value frames exactly one value token. Callers holding
    /// one may learn that through this observer, for instance to meet the
    /// hypothesis of the round-trip law on a request that carries it.
    pub fn check_token(&self) -> (r: bool)
        ensures
            r,
            is_value_token(self@),
    {
        proof {
            use_type_invariant(self);
        }
        true
    }
}

impl PartialEq for ExtensionData {
    fn eq(&self, other: &Self) -> bool {
        self.text == other.text
    }
}

impl vstd::std_specs::cmp::PartialEqSpecImpl for ExtensionData {
    open spec fn obeys_eq_spec() -> bool {
        true
    }

    open spec fn eq_spec(&self, other: &Self) -> bool {
        self@ == other@
    }
}

impl Eq for ExtensionData {}

} // verus!
