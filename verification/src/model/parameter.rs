//! The two runtime parameters reachable over D-Bus.
//!
//! The daemon accepts only a closed set of names, so the set is an enum, not a
//! string. Every other `usbguard-daemon.conf` setting is startup configuration
//! and cannot be changed over D-Bus at all.

use vstd::prelude::*;
use crate::text::str_eq;

verus! {

/// A runtime parameter name.
#[derive(Debug, Clone, Copy, PartialEq, Eq, Structural, Hash)]
pub enum Parameter {
    /// Treatment of a device matching no rule: `allow`, `block`, `reject`.
    ImplicitPolicyTarget,
    /// Treatment of a device inserted while the daemon runs:
    /// `block`, `reject`, `apply-policy`.
    InsertedDevicePolicy,
}

impl Parameter {
    /// The name as the daemon knows it.
    pub open spec fn spec_name(self) -> Seq<char> {
        match self {
            Parameter::ImplicitPolicyTarget => "ImplicitPolicyTarget"@,
            Parameter::InsertedDevicePolicy => "InsertedDevicePolicy"@,
        }
    }

    /// The values the daemon accepts for this parameter.
    pub open spec fn spec_allowed_values(self) -> Seq<Seq<char>> {
        match self {
            Parameter::ImplicitPolicyTarget => seq!["allow"@, "block"@, "reject"@],
            Parameter::InsertedDevicePolicy => seq!["block"@, "reject"@, "apply-policy"@],
        }
    }

    /// Both parameters.
    pub fn all() -> (r: Vec<Parameter>)
        ensures
            r@ == seq![Parameter::ImplicitPolicyTarget, Parameter::InsertedDevicePolicy],
    {
        let r = vec![Parameter::ImplicitPolicyTarget, Parameter::InsertedDevicePolicy];
        assert(r@ =~= seq![Parameter::ImplicitPolicyTarget, Parameter::InsertedDevicePolicy]);
        r
    }

    /// The name as the daemon knows it.
    pub fn name(self) -> (r: &'static str)
        ensures
            r@ == self.spec_name(),
    {
        match self {
            Parameter::ImplicitPolicyTarget => "ImplicitPolicyTarget",
            Parameter::InsertedDevicePolicy => "InsertedDevicePolicy",
        }
    }

    /// The values the daemon accepts for this parameter.
    pub fn allowed_values(self) -> (r: Vec<&'static str>)
        ensures
            r@.len() == self.spec_allowed_values().len(),
            forall|i: int| 0 <= i < r@.len() ==> (#[trigger] r@[i])@ == self.spec_allowed_values()[i],
    {
        match self {
            Parameter::ImplicitPolicyTarget => vec!["allow", "block", "reject"],
            Parameter::InsertedDevicePolicy => vec!["block", "reject", "apply-policy"],
        }
    }

    /// The inverse of [`Parameter::name`].
    pub fn from_name(name: &str) -> (r: Option<Self>)
        ensures
            r matches Some(p) ==> p.spec_name() == name@,
            r is None ==> (forall|p: Parameter| #[trigger] p.spec_name() != name@),
    {
        if str_eq(Parameter::ImplicitPolicyTarget.name(), name) {
            return Some(Parameter::ImplicitPolicyTarget);
        }
        if str_eq(Parameter::InsertedDevicePolicy.name(), name) {
            return Some(Parameter::InsertedDevicePolicy);
        }
        assert forall|p: Parameter| #[trigger] p.spec_name() != name@ by {
            match p {
                Parameter::ImplicitPolicyTarget => {},
                Parameter::InsertedDevicePolicy => {},
            }
        }
        None
    }

    /// The name, as `Display` shows it.
    pub fn to_string(&self) -> (r: String)
        ensures
            r@ == self.spec_name(),
    {
        String::from_str(self.name())
    }
}

/// Parameter names are distinct, so a name reads back as its parameter.
pub proof fn lemma_names_distinct(p: Parameter, q: Parameter)
    ensures
        p.spec_name() == q.spec_name() ==> p == q,
{
    reveal_strlit("ImplicitPolicyTarget");
    reveal_strlit("InsertedDevicePolicy");
    if p != q {
        assert(p.spec_name()[1] != q.spec_name()[1]);
    }
}

} // verus!
