//! The worlds that submissions can be scored against, by name.

use vstd::prelude::*;
use vstd::string::StringSliceAdditionalSpecFns;
use vstd::utf8::encode_utf8;
use crate::{InputFileName, Score, ScoringError};
use super::simulation::{score, spec_score};
use super::world::{Case, CaseView};

verus! {

/// Whether `prefix` is the start of `text`.
pub fn starts_with(text: &[u8], prefix: &[u8]) -> (starts: bool)
    ensures
        starts == prefix@.is_prefix_of(text@),
{
    if prefix.len() > text.len() {
        return false;
    }
    let mut i: usize = 0;
    while i < prefix.len()
        invariant
            0 <= i <= prefix.len() <= text.len(),
            forall|j: int| 0 <= j < i ==> prefix@[j] == text@[j],
        decreases prefix.len() - i,
    {
        if prefix[i] != text[i] {
            assert(text@.subrange(0, prefix@.len() as int)[i as int] != prefix@[i as int]);
            return false;
        }
        i = i + 1;
    }
    assert(prefix@ =~= text@.subrange(0, prefix@.len() as int));
    true
}

/// A named world, as plain values.
pub struct EntryView {
    /// The bytes of the name.
    pub name: Seq<u8>,
    pub case: CaseView,
}

/// The place of the first of the first `k` entries whose name starts
/// `selector`.
pub open spec fn selected_upto(entries: Seq<EntryView>, selector: Seq<u8>, k: nat) -> Option<int>
    decreases k,
{
    if k == 0 {
        None
    } else {
        match selected_upto(entries, selector, (k - 1) as nat) {
            Some(i) => Some(i),
            None => if entries[k - 1].name.is_prefix_of(selector) {
                Some(k - 1)
            } else {
                None
            },
        }
    }
}

/// Once an entry has been selected, it stays the first.
pub proof fn lemma_selected_stays(entries: Seq<EntryView>, selector: Seq<u8>, found: nat, k: nat)
    requires
        selected_upto(entries, selector, found) is Some,
        found <= k,
    ensures
        selected_upto(entries, selector, k) == selected_upto(entries, selector, found),
    decreases k,
{
    if found < k {
        lemma_selected_stays(entries, selector, found, (k - 1) as nat);
    }
}

/// Worlds by name, in the order in which they were registered. A selector
/// picks the first world whose name it starts with.
pub struct CaseRegistry {
    pub(crate) names: Vec<String>,
    pub(crate) cases: Vec<Case>,
}

impl View for CaseRegistry {
    type V = Seq<EntryView>;

    open(crate) spec fn view(&self) -> Seq<EntryView> {
        Seq::new(
            self.names@.len(),
            |i: int| EntryView { name: encode_utf8(self.names@[i]@), case: self.cases@[i]@ },
        )
    }
}

impl CaseRegistry {
    /// Every world is well formed and gives its drones a place to start.
    pub open(crate) spec fn wf(&self) -> bool {
        &&& self.names@.len() == self.cases@.len()
        &&& forall|i: int|
            0 <= i < self.cases@.len() ==> (#[trigger] self.cases@[i]).wf()
                && self.cases@[i]@.has_launch_site()
    }

    /// The world that `selector` picks.
    pub open spec fn selected(&self, selector: Seq<char>) -> Option<CaseView> {
        match selected_upto(self@, encode_utf8(selector), self@.len()) {
            Some(i) => Some(self@[i].case),
            None => None,
        }
    }

    pub fn new() -> (registry: Self)
        ensures
            registry@ == Seq::<EntryView>::empty(),
            registry.wf(),
    {
        let registry = CaseRegistry { names: Vec::new(), cases: Vec::new() };
        assert(registry@ =~= Seq::<EntryView>::empty());
        registry
    }

    /// Adds a world under `name`, behind those that are there.
    pub fn register(&mut self, name: &str, case: Case)
        requires
            old(self).wf(),
            case.wf(),
            case@.has_launch_site(),
        ensures
            final(self)@ == old(self)@.push(EntryView { name: name.spec_bytes(), case: case@ }),
            final(self).wf(),
    {
        self.names.push(name.to_owned());
        self.cases.push(case);
        assert(self@ =~= old(self)@.push(EntryView { name: name.spec_bytes(), case: case@ }));
    }

    /// Looks up the world that `selector` picks.
    pub fn find(&self, selector: &InputFileName) -> (found: Option<&Case>)
        requires
            self.wf(),
        ensures
            match self.selected(selector@) {
                Some(case) => found matches Some(c) && c@ == case && c.wf()
                    && c@.has_launch_site(),
                None => found is None,
            },
    {
        let wanted = selector.0.as_str().as_bytes();
        let mut i: usize = 0;
        while i < self.names.len()
            invariant
                self.wf(),
                0 <= i <= self.names.len(),
                wanted@ == encode_utf8(selector@),
                selected_upto(self@, wanted@, i as nat) is None,
            decreases self.names.len() - i,
        {
            if starts_with(wanted, self.names[i].as_str().as_bytes()) {
                proof {
                    assert(selected_upto(self@, wanted@, (i + 1) as nat) == Some(i as int));
                    lemma_selected_stays(self@, wanted@, (i + 1) as nat, self@.len());
                }
                return Some(&self.cases[i]);
            }
            i = i + 1;
        }
        None
    }

    /// Scores a script in the world that `selector` picks.
    pub fn score(&self, submission: &str, selector: &InputFileName) -> (r: Result<
        Score,
        ScoringError,
    >)
        requires
            self.wf(),
        ensures
            match self.selected(selector@) {
                Some(case) => r == spec_score(case, submission.spec_bytes()),
                None => r == Err::<Score, ScoringError>(
                    ScoringError::UnknownInputCase(*selector),
                ),
            },
    {
        match self.find(selector) {
            Some(case) => score(submission, case),
            None => Err(ScoringError::UnknownInputCase(InputFileName(selector.0.clone()))),
        }
    }
}

} // verus!
