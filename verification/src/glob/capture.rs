//! The text that a glob's capturing groups matched in a path.

use vstd::prelude::*;

verus! {

/// Selects a capture by index (zero is the whole match) or by name.
pub enum Selector {
    ByIndex(usize),
    ByName(String),
}

/// The captures of one match: the matched text and, for each group in order
/// (the whole match first), its byte range or `None` where the group did not
/// take part in the match.
pub struct Captures {
    text: Vec<u8>,
    groups: Vec<Option<(usize, usize)>>,
}

/// The text of group `index`, if it took part in the match.
pub open spec fn group_text(text: Seq<u8>, groups: Seq<Option<(usize, usize)>>, index: int) -> Option<Seq<u8>> {
    if 0 <= index < groups.len() {
        match groups[index] {
            Some((s, e)) => Some(text.subrange(s as int, e as int)),
            None => None,
        }
    } else {
        None
    }
}

/// Group ranges that a match reports: at least the whole match, and every
/// range within the text.
pub open spec fn groups_wf(text: Seq<u8>, groups: Seq<Option<(usize, usize)>>) -> bool {
    &&& groups.len() > 0
    &&& groups[0] is Some
    &&& forall|i: int| 0 <= i < groups.len() ==> (#[trigger] groups[i] matches Some((s, e)) ==> s <= e <= text.len())
}

impl Captures {
    #[verifier::type_invariant]
    spec fn inv(self) -> bool {
        groups_wf(self.text@, self.groups@)
    }

    /// The text in which the match was found.
    pub closed spec fn text_spec(self) -> Seq<u8> {
        self.text@
    }

    /// The group ranges of the match.
    pub closed spec fn groups_spec(self) -> Seq<Option<(usize, usize)>> {
        self.groups@
    }

    /// Captures of a match in `text` with the given group ranges.
    pub fn from_groups(text: Vec<u8>, groups: Vec<Option<(usize, usize)>>) -> (r: Captures)
        requires
            groups_wf(text@, groups@),
        ensures
            r.text_spec() == text@,
            r.groups_spec() == groups@,
    {
        Captures { text, groups }
    }

    /// The text of a capture: index zero is the whole match, other indices
    /// count capturing groups from one. `None` for an index past the last
    /// group or for a group that did not take part in the match.
    pub fn get(&self, index: usize) -> (r: Option<&[u8]>)
        ensures
            match r {
                Some(t) => group_text(self.text_spec(), self.groups_spec(), index as int) == Some(t@),
                None => group_text(self.text_spec(), self.groups_spec(), index as int).is_none(),
            },
    {
        proof {
            use_type_invariant(self);
        }
        if index < self.groups.len() {
            match self.groups[index] {
                Some((s, e)) => Some(vstd::slice::slice_subrange(self.text.as_slice(), s, e)),
                None => None,
            }
        } else {
            None
        }
    }

    /// The whole text of the match.
    pub fn matched(&self) -> (r: &[u8])
        ensures
            group_text(self.text_spec(), self.groups_spec(), 0) == Some(r@),
    {
        proof {
            use_type_invariant(self);
        }
        match self.get(0) {
            Some(t) => t,
            None => self.text.as_slice(),
        }
    }

    /// The text of the selected capture. Glob patterns have no named groups,
    /// so a selection by name finds nothing.
    pub fn select(&self, selector: &Selector) -> (r: Option<&[u8]>)
        ensures
            match selector {
                Selector::ByIndex(index) => match r {
                    Some(t) => group_text(self.text_spec(), self.groups_spec(), *index as int) == Some(t@),
                    None => group_text(self.text_spec(), self.groups_spec(), *index as int).is_none(),
                },
                Selector::ByName(_) => r.is_none(),
            },
    {
        match selector {
            Selector::ByIndex(index) => self.get(*index),
            Selector::ByName(_) => None,
        }
    }

    /// These captures, owning their text.
    pub fn into_owned(self) -> (r: Captures)
        ensures
            r.text_spec() == self.text_spec(),
            r.groups_spec() == self.groups_spec(),
    {
        self
    }
}

} // verus!
