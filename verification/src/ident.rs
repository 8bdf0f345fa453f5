//! The opaque identifier of a build target.

use vstd::prelude::*;

verus! {

/// Identifies a build target by a URI-like token chosen by the build server.
///
/// The protocol treats the identifier as opaque: it carries the token
/// unchanged and never interprets it. On the wire it appears as a plain
/// JSON string.
#[derive(Debug)]
pub struct BuildTargetIdentifier {
    uri: String,
}

impl View for BuildTargetIdentifier {
    type V = Seq<char>;

    closed spec fn view(&self) -> Seq<char> {
        self.uri@
    }
}

impl BuildTargetIdentifier {
    /// Wraps a URI-like token as a target identifier.
    pub fn new(uri: String) -> (r: Self)
        ensures
            r@ == uri@,
    {
        BuildTargetIdentifier { uri }
    }

    /// The identifier's token.
    pub fn uri(&self) -> (r: &String)
        ensures
            r@ == self@,
    {
        &self.uri
    }
}

impl PartialEq for BuildTargetIdentifier {
    fn eq(&self, other: &Self) -> bool {
        self.uri == other.uri
    }
}

impl vstd::std_specs::cmp::PartialEqSpecImpl for BuildTargetIdentifier {
    open spec fn obeys_eq_spec() -> bool {
        true
    }

    open spec fn eq_spec(&self, other: &Self) -> bool {
        self@ == other@
    }
}

impl Eq for BuildTargetIdentifier {}

} // verus!
