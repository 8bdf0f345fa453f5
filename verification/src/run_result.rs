//! The result payload answering a "run a build target" request.

use vstd::prelude::*;

verus! {

/// Turns an optional owned string into its optional view.
pub open spec fn opt_str_view(o: Option<String>) -> Option<Seq<char>> {
    match o {
        Some(s) => Some(s@),
        None => None,
    }
}

/// The mathematical content of a [`BuildTargetRunResult`].
#[verifier::ext_equal]
pub struct RunResultView {
    pub origin_id: Option<Seq<char>>,
    pub status_code: usize,
}

/// The payload a build server answers a run request with.
///
/// `status_code` is always present; its meaning (success, failure,
/// cancellation) is fixed by the surrounding protocol, not by this type.
/// `origin_id` echoes the request's correlation token when the client
/// supplied one.
#[derive(Debug)]
pub struct BuildTargetRunResult {
    origin_id: Option<String>,
    status_code: usize,
}

impl View for BuildTargetRunResult {
    type V = RunResultView;

    closed spec fn view(&self) -> RunResultView {
        RunResultView { origin_id: opt_str_view(self.origin_id), status_code: self.status_code }
    }
}

impl BuildTargetRunResult {
    /// Builds a result; a status code is never optional, so there is no
    /// shorter construction path.
    pub fn new(origin_id: Option<String>, status_code: usize) -> (r: Self)
        ensures
            r@ == (RunResultView { origin_id: opt_str_view(origin_id), status_code }),
    {
        BuildTargetRunResult { origin_id, status_code }
    }

    /// The echoed correlation token, if the request carried one.
    pub fn origin_id(&self) -> (r: Option<&String>)
        ensures
            (r is Some) == (self@.origin_id is Some),
            r matches Some(s) ==> self@.origin_id == Some(s@),
    {
        self.origin_id.as_ref()
    }

    /// The execution status reported by the build tool.
    pub fn status_code(&self) -> (r: usize)
        ensures
            r == self@.status_code,
    {
        self.status_code
    }

    /// Replaces the correlation token; no other field changes.
    pub fn set_origin_id(&mut self, origin_id: Option<String>)
        ensures
            final(self)@.origin_id == opt_str_view(origin_id),
            final(self)@.status_code == old(self)@.status_code,
    {
        self.origin_id = origin_id;
    }

    /// Replaces the status code; no other field changes.
    pub fn set_status_code(&mut self, status_code: usize)
        ensures
            final(self)@.status_code == status_code,
            final(self)@.origin_id == old(self)@.origin_id,
    {
        self.status_code = status_code;
    }
}

impl PartialEq for BuildTargetRunResult {
    fn eq(&self, other: &Self) -> bool {
        let same_status = self.status_code == other.status_code;
        match (&self.origin_id, &other.origin_id) {
            (Some(a), Some(b)) => {
                let r = *a == *b && same_status;
                proof {
                    if r {
                        assert(self@ =~= other@);
                    }
                }
                r
            },
            (None, None) => {
                proof {
                    if same_status {
                        assert(self@ =~= other@);
                    }
                }
                same_status
            },
            _ => {
                proof {
                    assert((self@.origin_id is Some) != (other@.origin_id is Some));
                }
                false
            },
        }
    }
}

impl vstd::std_specs::cmp::PartialEqSpecImpl for BuildTargetRunResult {
    open spec fn obeys_eq_spec() -> bool {
        true
    }

    open spec fn eq_spec(&self, other: &Self) -> bool {
        self@ == other@
    }
}

impl Eq for BuildTargetRunResult {}

} // verus!
