//! The request payload asking a build server to run a build target.

use crate::extension::ExtensionData;
use crate::ident::BuildTargetIdentifier;
use crate::run_result::opt_str_view;
use vstd::prelude::*;

verus! {

/// Turns an optional extension value into its optional view.
pub open spec fn opt_ext_view(o: Option<ExtensionData>) -> Option<Seq<char>> {
    match o {
        Some(d) => Some(d@),
        None => None,
    }
}

/// The mathematical content of a [`BuildTargetRun`].
#[verifier::ext_equal]
pub struct RunView {
    pub target: Seq<char>,
    pub origin_id: Option<Seq<char>>,
    pub arguments: Option<Seq<char>>,
    pub data_kind: Option<Seq<char>>,
    pub data: Option<Seq<char>>,
}

/// The view a run request built from these five fields has.
pub open spec fn full_view(
    target: Seq<char>,
    origin_id: Option<Seq<char>>,
    arguments: Option<Seq<char>>,
    data_kind: Option<Seq<char>>,
    data: Option<Seq<char>>,
) -> RunView {
    RunView { target, origin_id, arguments, data_kind, data }
}

/// The view a run request built from a target alone has.
pub open spec fn simple_view(target: Seq<char>) -> RunView {
    full_view(target, None, None, None, None)
}

/// Minimality of the short construction path: a request built from a target
/// alone has exactly the view of the full construction with the same target
/// and every optional field absent. Since a request's view determines
/// equality, the two construction paths yield equal instances.
pub proof fn lemma_new_simple_minimal(target: Seq<char>)
    ensures
        simple_view(target) == full_view(target, None, None, None, None),
{
}

/// The payload a client sends to run one build target.
///
/// `target` is the only required field: an otherwise empty request is valid
/// and means "run this target with the build tool's own defaults".
/// `origin_id` is a correlation token the server echoes back; `arguments`
/// are handed to the executed application; `data_kind` names the shape of
/// `data`, the open-ended extension value.
#[derive(Debug)]
pub struct BuildTargetRun {
    target: BuildTargetIdentifier,
    origin_id: Option<String>,
    arguments: Option<String>,
    data_kind: Option<String>,
    data: Option<ExtensionData>,
}

impl View for BuildTargetRun {
    type V = RunView;

    closed spec fn view(&self) -> RunView {
        RunView {
            target: self.target@,
            origin_id: opt_str_view(self.origin_id),
            arguments: opt_str_view(self.arguments),
            data_kind: opt_str_view(self.data_kind),
            data: opt_ext_view(self.data),
        }
    }
}

impl BuildTargetRun {
    /// Builds a request from all five fields; any combination of absent
    /// optional fields is accepted.
    pub fn new(
        target: BuildTargetIdentifier,
        origin_id: Option<String>,
        arguments: Option<String>,
        data_kind: Option<String>,
        data: Option<ExtensionData>,
    ) -> (r: Self)
        ensures
            r@ == full_view(
                target@,
                opt_str_view(origin_id),
                opt_str_view(arguments),
                opt_str_view(data_kind),
                opt_ext_view(data),
            ),
    {
        BuildTargetRun { target, origin_id, arguments, data_kind, data }
    }

    /// Builds the canonical "run with defaults" request: only the target is
    /// set, every optional field is absent.
    pub fn new_simple(target: BuildTargetIdentifier) -> (r: Self)
        ensures
            r@ == simple_view(target@),
    {
        BuildTargetRun { target, origin_id: None, arguments: None, data_kind: None, data: None }
    }

    /// The build target to run.
    pub fn target(&self) -> (r: &BuildTargetIdentifier)
        ensures
            r@ == self@.target,
    {
        &self.target
    }

    /// Replaces the build target; no other field changes.
    pub fn set_target(&mut self, target: BuildTargetIdentifier)
        ensures
            final(self)@ == (RunView { target: target@, ..old(self)@ }),
    {
        self.target = target;
    }

    /// The client's correlation token, if set.
    pub fn origin_id(&self) -> (r: Option<&String>)
        ensures
            (r is Some) == (self@.origin_id is Some),
            r matches Some(s) ==> self@.origin_id == Some(s@),
    {
        self.origin_id.as_ref()
    }

    /// Replaces the correlation token; no other field changes.
    pub fn set_origin_id(&mut self, origin_id: Option<String>)
        ensures
            final(self)@ == (RunView { origin_id: opt_str_view(origin_id), ..old(self)@ }),
    {
        self.origin_id = origin_id;
    }

    /// The arguments for the executed application, if set.
    pub fn arguments(&self) -> (r: Option<&String>)
        ensures
            (r is Some) == (self@.arguments is Some),
            r matches Some(s) ==> self@.arguments == Some(s@),
    {
        self.arguments.as_ref()
    }

    /// Replaces the arguments; no other field changes.
    pub fn set_arguments(&mut self, arguments: Option<String>)
        ensures
            final(self)@ == (RunView { arguments: opt_str_view(arguments), ..old(self)@ }),
    {
        self.arguments = arguments;
    }

    /// The tag naming the shape of the extension value, if set.
    pub fn data_kind(&self) -> (r: Option<&String>)
        ensures
            (r is Some) == (self@.data_kind is Some),
            r matches Some(s) ==> self@.data_kind == Some(s@),
    {
        self.data_kind.as_ref()
    }

    /// Replaces the shape tag; no other field changes.
    pub fn set_data_kind(&mut self, data_kind: Option<String>)
        ensures
            final(self)@ == (RunView { data_kind: opt_str_view(data_kind), ..old(self)@ }),
    {
        self.data_kind = data_kind;
    }

    /// The extension value, if set.
    pub fn data(&self) -> (r: Option<&ExtensionData>)
        ensures
            (r is Some) == (self@.data is Some),
            r matches Some(d) ==> self@.data == Some(d@),
    {
        self.data.as_ref()
    }

    /// Replaces the extension value; no other field changes.
    pub fn set_data(&mut self, data: Option<ExtensionData>)
        ensures
            final(self)@ == (RunView { data: opt_ext_view(data), ..old(self)@ }),
    {
        self.data = data;
    }
}

/// Field-wise comparison of optional strings, by content.
fn opt_str_eq(a: &Option<String>, b: &Option<String>) -> (r: bool)
    ensures
        r == (opt_str_view(*a) == opt_str_view(*b)),
{
    match (a, b) {
        (Some(x), Some(y)) => *x == *y,
        (None, None) => true,
        _ => false,
    }
}

impl PartialEq for BuildTargetRun {
    fn eq(&self, other: &Self) -> bool {
        let same_data = match (&self.data, &other.data) {
            (Some(x), Some(y)) => *x == *y,
            (None, None) => true,
            _ => false,
        };
        let r = self.target == other.target && opt_str_eq(&self.origin_id, &other.origin_id)
            && opt_str_eq(&self.arguments, &other.arguments) && opt_str_eq(
            &self.data_kind,
            &other.data_kind,
        ) && same_data;
        proof {
            if r {
                assert(self@ =~= other@);
            }
        }
        r
    }
}

impl vstd::std_specs::cmp::PartialEqSpecImpl for BuildTargetRun {
    open spec fn obeys_eq_spec() -> bool {
        true
    }

    open spec fn eq_spec(&self, other: &Self) -> bool {
        self@ == other@
    }
}

impl Eq for BuildTargetRun {}

} // verus!
