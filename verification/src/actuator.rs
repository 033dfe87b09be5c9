//! Actuators: the operations that write routes, and what an actuator does
//! before it writes one.

use vstd::prelude::*;

use crate::environment::Environment;
use crate::policy::Policy;

verus! {

/// The operation that appends sources to destinations.
#[derive(Clone, Copy, Debug, PartialEq, Eq, Structural)]
pub enum Append {
    Append,
}

/// The operation that copies sources to destinations.
#[derive(Clone, Copy, Debug, PartialEq, Eq, Structural)]
pub enum Copy {
    Copy,
}

/// The operation that hard links destinations to sources.
#[derive(Clone, Copy, Debug, PartialEq, Eq, Structural)]
pub enum HardLink {
    HardLink,
}

/// The operation that soft (symbolic) links destinations to sources.
#[derive(Clone, Copy, Debug, PartialEq, Eq, Structural)]
pub enum SoftLink {
    SoftLink,
}

/// The operation that moves sources to destinations.
#[derive(Clone, Copy, Debug, PartialEq, Eq, Structural)]
pub enum Move {
    Move,
}

/// The name of an operation, as shown to users.
pub trait Label {
    const LABEL: &'static str;
}

impl Label for Copy {
    const LABEL: &'static str = "copy";
}

impl Label for HardLink {
    const LABEL: &'static str = "hard link";
}

impl Label for Move {
    const LABEL: &'static str = "move";
}

impl Label for SoftLink {
    const LABEL: &'static str = "soft link";
}

/// Writes routes under the policy of an environment.
pub struct Actuator<'e> {
    environment: &'e Environment,
}

impl<'e> Actuator<'e> {
    /// The policy under which routes are written.
    pub closed spec fn policy_spec(&self) -> Policy {
        self.environment.policy_spec()
    }

    /// An actuator for an environment.
    pub fn new(environment: &'e Environment) -> (r: Actuator<'e>)
        ensures
            r.policy_spec() == environment.policy_spec(),
    {
        Actuator { environment }
    }

    /// The policy under which routes are written.
    pub fn policy(&self) -> (r: Policy)
        ensures
            r == self.policy_spec(),
    {
        *self.environment.policy()
    }

    /// Whether the parent directory of a destination is created before the
    /// route is written: exactly where the policy creates parents and the
    /// parent does not exist.
    pub fn creates_parent(&self, parent_exists: bool) -> (r: bool)
        ensures
            r == (self.policy_spec().parents && !parent_exists),
    {
        self.environment.policy().parents && !parent_exists
    }
}

} // verus!
