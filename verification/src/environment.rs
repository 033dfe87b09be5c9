//! Environments: the policy under which patterns are read and routes are
//! written.

use vstd::prelude::*;

use crate::actuator::Actuator;
use crate::pattern::from::FromPattern;
use crate::pattern::to::ToPattern;
use crate::transform::Transform;

pub use crate::policy::Policy;

verus! {

/// The environment of transforms and actuators.
#[derive(Clone, Copy, Debug)]
pub struct Environment {
    policy: Policy,
}

impl Environment {
    /// The policy of the environment.
    pub closed spec fn policy_spec(&self) -> Policy {
        self.policy
    }

    /// An environment with a policy.
    pub fn new(policy: Policy) -> (r: Environment)
        ensures
            r.policy_spec() == policy,
    {
        Environment { policy }
    }

    /// A transform from a from-pattern to a to-pattern under the policy of
    /// the environment.
    pub fn transform(&self, from: FromPattern, to: ToPattern) -> (r: Transform)
        ensures
            r.policy_spec() == self.policy_spec(),
            r.from_spec() == from.glob_spec(),
            r.prefix_spec() == from.prefix_spec(),
            r.to_spec() == to@,
    {
        Transform::new(self.policy, from, to)
    }

    /// An actuator under the policy of the environment.
    pub fn actuator(&self) -> (r: Actuator<'_>)
        ensures
            r.policy_spec() == self.policy_spec(),
    {
        Actuator::new(self)
    }

    /// The policy of the environment.
    pub fn policy(&self) -> (r: &Policy)
        ensures
            *r == self.policy_spec(),
    {
        &self.policy
    }
}

} // verus!
