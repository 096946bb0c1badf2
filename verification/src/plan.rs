//! The outcome of planning: a size and a changelog for each project, the
//! pull requests that touched none, and the dependency edges to write out.

use vstd::prelude::*;
use crate::changelog::{Changelog, CommitInfo, EntryView, LoggedPr};
use crate::project::ProjectId;
use crate::size::Size;
use crate::text::{lemma_lex_asymmetric, lemma_lex_total, lemma_lex_transitive, lex_lt, text_before};

verus! {

/// The identifiers of a run of commits.
pub open spec fn commit_ids(cs: Seq<CommitInfo>) -> Seq<Seq<char>> {
    Seq::new(cs.len(), |i: int| cs[i].id@)
}

/// Each text comes strictly before the next in dictionary order.
pub open spec fn ascending(ids: Seq<Seq<char>>) -> bool {
    forall|i: int, j: int| 0 <= i < j < ids.len() ==> lex_lt(#[trigger] ids[i], #[trigger] ids[j])
}

/// The number of texts at the front of `ids` that come before `id`.
pub open spec fn rank_of(ids: Seq<Seq<char>>, id: Seq<char>) -> int
    decreases ids.len(),
{
    if ids.len() == 0 || !lex_lt(ids[0], id) {
        0
    } else {
        1 + rank_of(ids.drop_first(), id)
    }
}

pub proof fn lemma_rank_bounds(ids: Seq<Seq<char>>, id: Seq<char>)
    ensures
        0 <= rank_of(ids, id) <= ids.len(),
    decreases ids.len(),
{
    if ids.len() > 0 && lex_lt(ids[0], id) {
        lemma_rank_bounds(ids.drop_first(), id);
    }
}

/// What a plan has to say beyond what it takes to carry it out.
#[derive(Clone, Debug)]
pub struct PlanInfo {
    /// The commits whose size is `Failure`, each once, ascending by
    /// identifier.
    pub failed_commits: Vec<CommitInfo>,
}

impl PlanInfo {
    /// The identifiers of the failed commits.
    pub open spec fn ids(&self) -> Seq<Seq<char>> {
        commit_ids(self.failed_commits@)
    }

    /// The failed commits ascend strictly by identifier.
    pub open spec fn wf(&self) -> bool {
        ascending(self.ids())
    }

    /// Whether the commit `id` is among the failed ones.
    pub open spec fn holds(&self, id: Seq<char>) -> bool {
        self.ids().contains(id)
    }

    pub fn new() -> (r: PlanInfo)
        ensures
            r.failed_commits@.len() == 0,
            r.wf(),
    {
        PlanInfo { failed_commits: Vec::new() }
    }

    pub fn failed_commits(&self) -> (r: &Vec<CommitInfo>)
        ensures
            *r == self.failed_commits,
    {
        &self.failed_commits
    }

    /// Records a failed commit at its place in the order, unless a commit
    /// with the same identifier is recorded already.
    pub fn add_failed_commit(&mut self, failure: CommitInfo)
        requires
            old(self).wf(),
        ensures
            final(self).wf(),
            old(self).holds(failure.id@) ==> *final(self) == *old(self),
            !old(self).holds(failure.id@) ==> final(self).failed_commits@ == old(self).failed_commits@.insert(rank_of(old(self).ids(), failure.id@), failure),
            !old(self).holds(failure.id@) ==> final(self).ids() == old(self).ids().insert(
                rank_of(old(self).ids(), failure.id@),
                failure.id@,
            ),
            0 <= rank_of(old(self).ids(), failure.id@) <= old(self).ids().len(),
    {
        proof {
            lemma_rank_bounds(old(self).ids(), failure.id@);
        }
        let ghost ids = self.ids();
        let ghost id = failure.id@;
        let mut i: usize = 0;
        assert(ids.skip(0) =~= ids);
        while i < self.failed_commits.len() && text_before(self.failed_commits[i].id(), failure.id())
            invariant
                i <= self.failed_commits@.len(),
                ids == self.ids(),
                id == failure.id@,
                self.failed_commits == old(self).failed_commits,
                forall|j: int| 0 <= j < i ==> lex_lt(#[trigger] ids[j], id),
                rank_of(ids, id) == i + rank_of(ids.skip(i as int), id),
            decreases self.failed_commits@.len() - i,
        {
            proof {
                let rest = ids.skip(i as int);
                assert(rest[0] == ids[i as int]);
                assert(rest.drop_first() =~= ids.skip(i + 1));
            }
            i += 1;
        }
        proof {
            let rest = ids.skip(i as int);
            if i < ids.len() {
                assert(rest[0] == ids[i as int]);
            }
            assert(rank_of(ids, id) == i);
        }
        let present = i < self.failed_commits.len() && !text_before(
            failure.id(),
            self.failed_commits[i].id(),
        );
        proof {
            if present {
                lemma_lex_total(ids[i as int], id);
                assert(self.holds(id));
            } else {
                assert forall|j: int| 0 <= j < ids.len() implies ids[j] != id by {
                    if j < i {
                        if ids[j] == id {
                            lemma_lex_asymmetric(ids[j], id);
                        }
                    } else if j == i {
                        if ids[j] == id {
                            lemma_lex_asymmetric(id, ids[j]);
                        }
                    } else {
                        if ids[j] == id {
                            lemma_lex_asymmetric(ids[i as int], ids[j]);
                        }
                    }
                }
            }
        }
        if !present {
            self.failed_commits.insert(i, failure);
            proof {
                let now = self.ids();
                assert(now =~= ids.insert(i as int, id));
                assert forall|a: int, b: int| 0 <= a < b < now.len() implies lex_lt(
                    #[trigger] now[a],
                    #[trigger] now[b],
                ) by {
                    if b < i {
                    } else if b == i {
                    } else if a < i {
                        assert(now[b] == ids[b - 1]);
                        if b - 1 == i {
                            lemma_lex_transitive(ids[a], id, ids[b - 1]);
                        }
                    } else if a == i {
                        assert(now[b] == ids[b - 1]);
                        if b - 1 > i {
                            lemma_lex_transitive(id, ids[i as int], ids[b - 1]);
                        }
                    } else {
                        assert(now[a] == ids[a - 1]);
                        assert(now[b] == ids[b - 1]);
                    }
                }
            }
        }
    }
}

impl Default for PlanInfo {
    fn default() -> (r: PlanInfo)
        ensures
            r.failed_commits@.len() == 0,
            r.wf(),
    {
        PlanInfo::new()
    }
}

/// What a plan says of one project.
#[derive(Clone, Debug)]
pub struct PlanEntry {
    pub id: ProjectId,
    pub size: Size,
    pub changelog: Changelog,
}

/// No two entries speak of the same project.
pub open spec fn distinct_entries(incrs: Seq<PlanEntry>) -> bool {
    forall|i: int, j: int|
        0 <= i < j < incrs.len() ==> #[trigger] incrs[i].id != #[trigger] incrs[j].id
}

/// Whether some entry speaks of project `id`.
pub open spec fn has_entry(incrs: Seq<PlanEntry>, id: ProjectId) -> bool {
    exists|i: int| 0 <= i < incrs.len() && #[trigger] incrs[i].id == id
}

/// A release plan.
#[derive(Clone, Debug)]
pub struct Plan {
    /// One entry for each project that the plan speaks of.
    pub incrs: Vec<PlanEntry>,
    /// The pull requests that touched no project.
    pub ineffective: Vec<LoggedPr>,
    /// The dependency edges, upstream project first.
    pub chain_writes: Vec<(ProjectId, ProjectId)>,
    pub info: PlanInfo,
}

impl Plan {
    /// No project has two entries, and the failed commits are in order.
    pub open spec fn wf(&self) -> bool {
        distinct_entries(self.incrs@) && self.info.wf()
    }

    /// Whether any size in the plan is `Failure`: a commit failed, or a
    /// project ended up with `Failure`.
    pub open spec fn poisoned(&self) -> bool {
        self.info.failed_commits@.len() > 0 || exists|i: int|
            0 <= i < self.incrs@.len() && (#[trigger] self.incrs@[i]).size == Size::Failure
    }

    pub fn incrs(&self) -> (r: &Vec<PlanEntry>)
        ensures
            *r == self.incrs,
    {
        &self.incrs
    }

    pub fn ineffective(&self) -> (r: &[LoggedPr])
        ensures
            r@ == self.ineffective@,
    {
        self.ineffective.as_slice()
    }

    pub fn chain_writes(&self) -> (r: &[(ProjectId, ProjectId)])
        ensures
            r@ == self.chain_writes@,
    {
        self.chain_writes.as_slice()
    }

    pub fn info(&self) -> (r: &PlanInfo)
        ensures
            *r == self.info,
    {
        &self.info
    }

    /// The entry of project `id`, if the plan has one.
    pub fn entry(&self, id: &ProjectId) -> (r: Option<&PlanEntry>)
        ensures
            r is Some == has_entry(self.incrs@, *id),
            r is Some ==> r->0.id == *id && self.incrs@.contains(*r->0),
    {
        let mut i: usize = 0;
        while i < self.incrs.len()
            invariant
                i <= self.incrs.len(),
                forall|j: int| 0 <= j < i ==> self.incrs@[j].id != *id,
            decreases self.incrs.len() - i,
        {
            if self.incrs[i].id == *id {
                return Some(&self.incrs[i]);
            }
            i += 1;
        }
        None
    }

    /// Executable form of [`Plan::poisoned`].
    pub fn is_poisoned(&self) -> (r: bool)
        ensures
            r == self.poisoned(),
    {
        if self.info.failed_commits.len() > 0 {
            return true;
        }
        let mut i: usize = 0;
        while i < self.incrs.len()
            invariant
                i <= self.incrs.len(),
                forall|j: int| 0 <= j < i ==> self.incrs@[j].size != Size::Failure,
            decreases self.incrs.len() - i,
        {
            if self.incrs[i].size.is_failure() {
                return true;
            }
            i += 1;
        }
        false
    }
}

/// What the plan under construction says of one project.
#[derive(Clone, Debug)]
pub struct Slot {
    /// Whether the plan speaks of the project at all.
    pub present: bool,
    pub size: Size,
    pub changelog: Changelog,
}

/// What a [`Slot`] holds, as plain values.
pub struct SlotView {
    pub present: bool,
    pub size: Size,
    pub changelog: Seq<EntryView>,
}

impl View for Slot {
    type V = SlotView;

    open spec fn view(&self) -> SlotView {
        SlotView { present: self.present, size: self.size, changelog: self.changelog@ }
    }
}

/// The views of a run of slots.
pub open spec fn slot_views(slots: Seq<Slot>) -> Seq<SlotView> {
    Seq::new(slots.len(), |i: int| slots[i]@)
}

/// A slot that the plan does not speak of has the size `Empty` and an empty
/// changelog.
pub open spec fn unused_slots_empty(slots: Seq<SlotView>) -> bool {
    forall|i: int|
        0 <= i < slots.len() && !(#[trigger] slots[i]).present ==> slots[i].size == Size::Empty
            && slots[i].changelog.len() == 0
}

/// What an entry of a plan says, as plain values: the project, its size
/// and its changelog.
pub open spec fn entry_model(e: PlanEntry) -> (ProjectId, Size, Seq<EntryView>) {
    (e.id, e.size, e.changelog@)
}

/// What the entries of a plan say, as plain values.
pub open spec fn plan_model(incrs: Seq<PlanEntry>) -> Seq<(ProjectId, Size, Seq<EntryView>)> {
    Seq::new(incrs.len(), |i: int| entry_model(incrs[i]))
}

/// The entries that the first `upto` slots come to: one for each slot that
/// the plan speaks of, under the identifier at the same place of `ids`.
pub open spec fn planned(ids: Seq<ProjectId>, slots: Seq<SlotView>, upto: int) -> Seq<
    (ProjectId, Size, Seq<EntryView>),
>
    decreases upto,
{
    if upto <= 0 {
        Seq::empty()
    } else if slots[upto - 1].present {
        planned(ids, slots, upto - 1).push((ids[upto - 1], slots[upto - 1].size, slots[upto - 1].changelog))
    } else {
        planned(ids, slots, upto - 1)
    }
}

/// The place among the slots that entry `i` of [`planned`] comes from.
pub open spec fn place_of(ids: Seq<ProjectId>, slots: Seq<SlotView>, upto: int, i: int) -> int
    decreases upto,
{
    if upto <= 0 {
        0
    } else if i < planned(ids, slots, upto - 1).len() {
        place_of(ids, slots, upto - 1, i)
    } else {
        upto - 1
    }
}

/// An entry of [`planned`] bears the identifier at the place it comes
/// from, and the places ascend with the entries.
pub proof fn lemma_planned_order(ids: Seq<ProjectId>, slots: Seq<SlotView>, upto: int, a: int, b: int)
    requires
        0 <= upto <= ids.len(),
        0 <= a < b < planned(ids, slots, upto).len(),
    ensures
        0 <= place_of(ids, slots, upto, a) < place_of(ids, slots, upto, b) < upto,
        planned(ids, slots, upto)[a].0 == ids[place_of(ids, slots, upto, a)],
        planned(ids, slots, upto)[b].0 == ids[place_of(ids, slots, upto, b)],
    decreases upto,
{
    let prev = planned(ids, slots, upto - 1);
    if b < prev.len() {
        lemma_planned_order(ids, slots, upto - 1, a, b);
    } else {
        lemma_planned_place(ids, slots, upto - 1, a);
    }
}

/// An entry of [`planned`] bears the identifier at the place it comes
/// from.
pub proof fn lemma_planned_place(ids: Seq<ProjectId>, slots: Seq<SlotView>, upto: int, a: int)
    requires
        0 <= upto <= ids.len(),
        0 <= a < planned(ids, slots, upto).len(),
    ensures
        0 <= place_of(ids, slots, upto, a) < upto,
        planned(ids, slots, upto)[a].0 == ids[place_of(ids, slots, upto, a)],
    decreases upto,
{
    let prev = planned(ids, slots, upto - 1);
    if a < prev.len() {
        lemma_planned_place(ids, slots, upto - 1, a);
    }
}

} // verus!
