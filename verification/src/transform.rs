//! Transforms: building the manifest of routes from the files that a
//! from-pattern selects to the paths that a to-pattern resolves.
//!
//! A transform reads a directory tree with its from-pattern; for each source
//! file it resolves the destination with its to-pattern, checks the route
//! against its policy, and adds the route to the manifest.

use vstd::prelude::*;

use crate::glob::capture::Captures;
use crate::glob::read::Read;
use crate::glob::token::TokenSpec;
use crate::glob::GlobError;
use crate::manifest::{Manifest, ManifestError, left_taken, right_taken};
use crate::pattern::from::FromPattern;
use crate::pattern::to::token::TokenView;
use crate::pattern::to::{ToPattern, properties_view, resolved};
use crate::pattern::PatternError;
use crate::policy::{Policy, PolicyError, Survey, check, refusal_of};

verus! {

/// Why a manifest could not be built.
#[derive(Debug)]
pub enum TransformError {
    /// The from-pattern is not a glob.
    FromPattern(GlobError),
    /// A route collides with another.
    Manifest(ManifestError),
    /// The policy refuses a route.
    Policy(PolicyError),
    /// A destination could not be resolved.
    ToPattern(PatternError),
}

impl TransformError {
    /// The description of the error.
    pub open spec fn message_spec(&self) -> Seq<char> {
        "failed to build manifest: "@ + match self {
            TransformError::FromPattern(e) => e.message_spec(),
            TransformError::Manifest(e) => e.message_spec(),
            TransformError::Policy(e) => e.message_spec(),
            TransformError::ToPattern(e) => e.message_spec(),
        }
    }

    /// A description of the error.
    pub fn message(&self) -> (r: String)
        ensures
            r@ == self.message_spec(),
    {
        let detail = match self {
            TransformError::FromPattern(e) => crate::text::copy_str(e.message()),
            TransformError::Manifest(e) => e.message(),
            TransformError::Policy(e) => e.message(),
            TransformError::ToPattern(e) => crate::text::copy_str(e.message()),
        };
        let mut m = crate::text::copy_str("failed to build manifest: ");
        crate::text::push_str(&mut m, detail.as_str());
        m
    }
}

/// A transform: a policy, a from-pattern and a to-pattern.
pub struct Transform {
    policy: Policy,
    from: FromPattern,
    to: ToPattern,
}

impl Transform {
    pub closed spec fn policy_spec(&self) -> Policy {
        self.policy
    }

    /// The glob of the from-pattern.
    pub closed spec fn from_spec(&self) -> Seq<TokenSpec> {
        self.from.glob_spec()
    }

    /// The invariant prefix of the from-pattern.
    pub closed spec fn prefix_spec(&self) -> Seq<char> {
        self.from.prefix_spec()
    }

    /// The tokens of the to-pattern.
    pub closed spec fn to_spec(&self) -> Seq<TokenView> {
        self.to@
    }

    /// A transform under a policy.
    pub fn new(policy: Policy, from: FromPattern, to: ToPattern) -> (r: Transform)
        ensures
            r.policy_spec() == policy,
            r.from_spec() == from.glob_spec(),
            r.prefix_spec() == from.prefix_spec(),
            r.to_spec() == to@,
    {
        Transform { policy, from, to }
    }

    /// The policy of the transform.
    pub fn policy(&self) -> (r: Policy)
        ensures
            r == self.policy_spec(),
    {
        self.policy
    }

    /// The from-pattern.
    pub fn from(&self) -> (r: &FromPattern)
        ensures
            r.glob_spec() == self.from_spec(),
            r.prefix_spec() == self.prefix_spec(),
    {
        &self.from
    }

    /// The to-pattern.
    pub fn to(&self) -> (r: &ToPattern)
        ensures
            r@ == self.to_spec(),
    {
        &self.to
    }

    /// A reader of the source files below the from-pattern's prefix.
    pub fn read(&self) -> (r: Read<'_>)
        ensures
            r.glob_spec() == self.from_spec(),
            r.files_only_spec(),
    {
        self.from.read()
    }

    /// The destination path (relative to the working directory) of a source
    /// whose path has the given captures, with the texts of the to-pattern's
    /// property substitutions.
    pub fn destination(&self, captures: &Captures, properties: &Vec<Option<String>>) -> (r: Result<String, TransformError>)
        ensures
            r matches Ok(s) ==> resolved(self.to_spec(), captures.text_spec(), captures.groups_spec(), properties_view(properties@)) == Ok::<Seq<char>, PatternError>(s@),
            r is Err ==> (r matches Err(TransformError::ToPattern(e)) && resolved(self.to_spec(), captures.text_spec(), captures.groups_spec(), properties_view(properties@)) == Err::<Seq<char>, PatternError>(e)),
    {
        match self.to.resolve(captures, properties) {
            Ok(s) => Ok(s),
            Err(e) => Err(TransformError::ToPattern(e)),
        }
    }

    /// Enters the route from `source` to `destination` into a manifest: the
    /// policy must accept it, given what the file system holds at its paths,
    /// and neither path may already be routed. Where the route is refused,
    /// the manifest is unchanged.
    pub fn route(&self, manifest: &mut Manifest, source: String, destination: String, survey: &Survey) -> (r: Result<(), TransformError>)
        ensures
            refusal_of(self.policy_spec(), *survey) matches Some(refusal) ==> {
                &&& r matches Err(TransformError::Policy(e)) && e.refusal() == refusal && e.path_spec()
                    == if refusal == crate::policy::Refusal::SourceNotReadable {
                    source@
                } else {
                    destination@
                }
                &&& final(manifest)@ == old(manifest)@
            },
            refusal_of(self.policy_spec(), *survey) is None ==> {
                &&& r is Ok <==> !left_taken(old(manifest)@, source@) && !right_taken(old(manifest)@, destination@)
                &&& r is Ok ==> final(manifest)@ == old(manifest)@.insert((source@, destination@))
                &&& r is Err ==> (r matches Err(TransformError::Manifest(ManifestError::PathCollision(d))) && d@ == destination@ && final(manifest)@ == old(manifest)@)
            },
    {
        match check(&self.policy, source.as_str(), destination.as_str(), survey) {
            Ok(()) => {},
            Err(e) => {
                return Err(TransformError::Policy(e));
            },
        }
        match manifest.insert(source, destination) {
            Ok(()) => Ok(()),
            Err(e) => Err(TransformError::Manifest(e)),
        }
    }
}

} // verus!
