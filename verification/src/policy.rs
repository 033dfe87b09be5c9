//! Policies: which routes may be written, given what the file system holds.

use vstd::prelude::*;

verus! {

/// How routes may treat their destinations.
#[derive(Clone, Copy, Debug, PartialEq, Eq, Structural)]
pub struct Policy {
    /// Create missing parent directories of destinations.
    pub parents: bool,
    /// Overwrite existing destination files.
    pub overwrite: bool,
}

/// What the file system holds at an existing destination path.
#[derive(Clone, Copy, Debug, PartialEq, Eq, Structural)]
pub struct Existing {
    /// The path is a directory.
    pub is_dir: bool,
    /// The path may be written.
    pub writable: bool,
}

/// What the file system holds at the paths of a route.
#[derive(Clone, Copy, Debug)]
pub struct Survey {
    /// The source may be read.
    pub source_readable: bool,
    /// The destination, where it exists.
    pub destination: Option<Existing>,
    /// The destination's parent directory exists.
    pub parent_exists: bool,
    /// The destination's parent directory may be written.
    pub parent_writable: bool,
    /// The nearest existing ancestor of the destination's parent directory
    /// (the parent itself, where it exists) may be written.
    pub ancestor_writable: bool,
}

/// Why a policy refuses a route.
#[derive(Clone, Copy, Debug, PartialEq, Eq, Structural)]
pub enum Refusal {
    DestinationNotAFile,
    DestinationAlreadyExists,
    DestinationOrphaned,
    DestinationNotWritable,
    SourceNotReadable,
}

/// Why a policy refuses a route, with the path concerned.
#[derive(Debug)]
#[non_exhaustive]
pub enum PolicyError {
    /// The destination is a directory.
    DestinationNotAFile(String),
    /// The destination exists and may not be overwritten.
    DestinationAlreadyExists(String),
    /// The destination's parent directory does not exist and may not be
    /// created.
    DestinationOrphaned(String),
    /// The destination (or the directory it would be created in) may not be
    /// written.
    DestinationNotWritable(String),
    /// The source may not be read.
    SourceNotReadable(String),
}

impl PolicyError {
    /// The kind of refusal.
    pub open spec fn refusal(&self) -> Refusal {
        match self {
            PolicyError::DestinationNotAFile(_) => Refusal::DestinationNotAFile,
            PolicyError::DestinationAlreadyExists(_) => Refusal::DestinationAlreadyExists,
            PolicyError::DestinationOrphaned(_) => Refusal::DestinationOrphaned,
            PolicyError::DestinationNotWritable(_) => Refusal::DestinationNotWritable,
            PolicyError::SourceNotReadable(_) => Refusal::SourceNotReadable,
        }
    }

    /// The path concerned.
    pub open spec fn path_spec(&self) -> Seq<char> {
        match self {
            PolicyError::DestinationNotAFile(p) => p@,
            PolicyError::DestinationAlreadyExists(p) => p@,
            PolicyError::DestinationOrphaned(p) => p@,
            PolicyError::DestinationNotWritable(p) => p@,
            PolicyError::SourceNotReadable(p) => p@,
        }
    }

    /// The description of the error.
    pub open spec fn message_spec(&self) -> Seq<char> {
        let head = match self.refusal() {
            Refusal::DestinationNotAFile => "destination is a directory: `"@,
            Refusal::DestinationAlreadyExists => "destination file already exists: `"@,
            Refusal::DestinationOrphaned => "destination parent directory does not exist: `"@,
            Refusal::DestinationNotWritable => "cannot write to destination: `"@,
            Refusal::SourceNotReadable => "cannot read from source: `"@,
        };
        head + self.path_spec() + "`"@
    }

    /// A description of the error.
    pub fn message(&self) -> (r: String)
        ensures
            r@ == self.message_spec(),
    {
        let (head, path) = match self {
            PolicyError::DestinationNotAFile(p) => ("destination is a directory: `", p),
            PolicyError::DestinationAlreadyExists(p) => ("destination file already exists: `", p),
            PolicyError::DestinationOrphaned(p) => ("destination parent directory does not exist: `", p),
            PolicyError::DestinationNotWritable(p) => ("cannot write to destination: `", p),
            PolicyError::SourceNotReadable(p) => ("cannot read from source: `", p),
        };
        let mut m = crate::text::copy_str(head);
        crate::text::push_str(&mut m, path.as_str());
        crate::text::push_str(&mut m, "`");
        m
    }
}

/// The refusal of a route by a policy, or `None` where the route may be
/// written: the source must be readable; an existing destination may be
/// replaced only under `overwrite`, only where it is not a directory and only
/// where it may be written; a missing destination needs a parent directory
/// that exists and may be written, or, under `parents`, an existing ancestor
/// that may be written.
pub open spec fn refusal_of(policy: Policy, survey: Survey) -> Option<Refusal> {
    if !survey.source_readable {
        Some(Refusal::SourceNotReadable)
    } else {
        match survey.destination {
            Some(existing) => if policy.overwrite {
                if existing.is_dir {
                    Some(Refusal::DestinationNotAFile)
                } else if !existing.writable {
                    Some(Refusal::DestinationNotWritable)
                } else {
                    None
                }
            } else {
                Some(Refusal::DestinationAlreadyExists)
            },
            None => if policy.parents {
                if !survey.ancestor_writable {
                    Some(Refusal::DestinationNotWritable)
                } else {
                    None
                }
            } else if !survey.parent_exists {
                Some(Refusal::DestinationOrphaned)
            } else if !survey.parent_writable {
                Some(Refusal::DestinationNotWritable)
            } else {
                None
            },
        }
    }
}

/// Checks a route from `source` to `destination` against a policy, given
/// what the file system holds at its paths. A refusal of the source names
/// the source; every other refusal names the destination.
pub fn check(policy: &Policy, source: &str, destination: &str, survey: &Survey) -> (r: Result<(), PolicyError>)
    ensures
        match r {
            Ok(()) => refusal_of(*policy, *survey) is None,
            Err(e) => refusal_of(*policy, *survey) == Some(e.refusal()) && e.path_spec() == if e.refusal()
                == Refusal::SourceNotReadable {
                source@
            } else {
                destination@
            },
        },
{
    let source = crate::text::copy_str(source);
    let destination = crate::text::copy_str(destination);
    if !survey.source_readable {
        return Err(PolicyError::SourceNotReadable(source));
    }
    match survey.destination {
        Some(existing) => {
            if policy.overwrite {
                if existing.is_dir {
                    Err(PolicyError::DestinationNotAFile(destination))
                } else if !existing.writable {
                    Err(PolicyError::DestinationNotWritable(destination))
                } else {
                    Ok(())
                }
            } else {
                Err(PolicyError::DestinationAlreadyExists(destination))
            }
        },
        None => {
            if policy.parents {
                if !survey.ancestor_writable {
                    Err(PolicyError::DestinationNotWritable(destination))
                } else {
                    Ok(())
                }
            } else if !survey.parent_exists {
                Err(PolicyError::DestinationOrphaned(destination))
            } else if !survey.parent_writable {
                Err(PolicyError::DestinationNotWritable(destination))
            } else {
                Ok(())
            }
        },
    }
}

/// The refusal of a destination by the reading rules of a policy, or `None`
/// where it may be written: a missing parent directory refuses it unless
/// `parents` is set; an existing directory refuses it; an existing file
/// refuses it unless `overwrite` is set.
pub open spec fn read_refusal_of(policy: Policy, destination: Option<Existing>, parent_exists: bool) -> Option<Refusal> {
    if !policy.parents && !parent_exists {
        Some(Refusal::DestinationOrphaned)
    } else {
        match destination {
            Some(existing) => if existing.is_dir {
                Some(Refusal::DestinationNotAFile)
            } else if !policy.overwrite {
                Some(Refusal::DestinationAlreadyExists)
            } else {
                None
            },
            None => None,
        }
    }
}

impl Policy {
    /// Checks a destination alone against the policy, given what the file
    /// system holds there and whether its parent directory exists. Every
    /// refusal names the destination.
    pub fn read(&self, destination: &str, existing: Option<Existing>, parent_exists: bool) -> (r: Result<(), PolicyError>)
        ensures
            match r {
                Ok(()) => read_refusal_of(*self, existing, parent_exists) is None,
                Err(e) => read_refusal_of(*self, existing, parent_exists) == Some(e.refusal()) && e.path_spec() == destination@,
            },
    {
        let destination = crate::text::copy_str(destination);
        if !self.parents && !parent_exists {
            return Err(PolicyError::DestinationOrphaned(destination));
        }
        match existing {
            Some(e) => if e.is_dir {
                Err(PolicyError::DestinationNotAFile(destination))
            } else if !self.overwrite {
                Err(PolicyError::DestinationAlreadyExists(destination))
            } else {
                Ok(())
            },
            None => Ok(()),
        }
    }
}

} // verus!

verus! {

/// Routes never write to directories: a destination that is an existing
/// directory is refused under every policy.
pub proof fn lemma_directories_refused(policy: Policy, survey: Survey)
    requires
        survey.destination matches Some(existing) && existing.is_dir,
    ensures
        refusal_of(policy, survey) is Some,
{
}

/// The same holds of the reading rules of a policy.
pub proof fn lemma_directories_refused_on_read(policy: Policy, existing: Existing, parent_exists: bool)
    requires
        existing.is_dir,
    ensures
        read_refusal_of(policy, Some(existing), parent_exists) is Some,
{
}

} // verus!
