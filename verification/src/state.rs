//! The changes that a command has decided on and that are still to be
//! carried out.

use std::collections::HashMap;
use vstd::prelude::*;
use crate::project::ProjectId;

verus! {

broadcast use vstd::std_specs::hash::group_hash_axioms;

/// One change to carry out.
#[derive(Clone, Debug)]
pub enum Write {
    /// The version of the project becomes `value` in its source of record.
    SetValue { id: ProjectId, value: String },
    /// The project is tagged at the version `value`, which it has already.
    ForwardTag { id: ProjectId, value: String },
    /// The version `value` of `upstream` is written where `downstream`
    /// keeps it.
    ChainValue { upstream: ProjectId, downstream: ProjectId, value: String },
    /// The changelog of the project is written to `path` for `version`.
    Changelog { id: ProjectId, version: String, path: String },
}

/// What a [`Write`] holds, as plain values.
pub enum WriteView {
    SetValue { id: ProjectId, value: Seq<char> },
    ForwardTag { id: ProjectId, value: Seq<char> },
    ChainValue { upstream: ProjectId, downstream: ProjectId, value: Seq<char> },
    Changelog { id: ProjectId, version: Seq<char>, path: Seq<char> },
}

impl View for Write {
    type V = WriteView;

    open spec fn view(&self) -> WriteView {
        match self {
            Write::SetValue { id, value } => WriteView::SetValue { id: *id, value: value@ },
            Write::ForwardTag { id, value } => WriteView::ForwardTag { id: *id, value: value@ },
            Write::ChainValue { upstream, downstream, value } => WriteView::ChainValue {
                upstream: *upstream,
                downstream: *downstream,
                value: value@,
            },
            Write::Changelog { id, version, path } => WriteView::Changelog {
                id: *id,
                version: version@,
                path: path@,
            },
        }
    }
}

/// The views of a run of writes.
pub open spec fn write_views(ws: Seq<Write>) -> Seq<WriteView> {
    Seq::new(ws.len(), |i: int| ws[i]@)
}

/// The changelogs to write among the changes `ws`, in their order.
pub open spec fn changelogs_among(ws: Seq<WriteView>) -> Seq<WriteView>
    decreases ws.len(),
{
    if ws.len() == 0 {
        Seq::empty()
    } else if ws.last() is Changelog {
        changelogs_among(ws.drop_last()).push(ws.last())
    } else {
        changelogs_among(ws.drop_last())
    }
}

/// The changes that are pending, in the order they were decided on.
#[derive(Clone, Debug)]
pub struct StateWrite {
    pub writes: Vec<Write>,
    /// Whether the changelogs are to be written out without a commit.
    pub changelogs_only: bool,
}

impl View for StateWrite {
    type V = Seq<WriteView>;

    open spec fn view(&self) -> Seq<WriteView> {
        write_views(self.writes@)
    }
}

impl StateWrite {
    pub fn new() -> (r: StateWrite)
        ensures
            r@ == Seq::<WriteView>::empty(),
            !r.changelogs_only,
    {
        let r = StateWrite { writes: Vec::new(), changelogs_only: false };
        assert(r@ =~= Seq::<WriteView>::empty());
        r
    }

    /// Adds a change after those that are pending.
    pub fn push(&mut self, w: Write)
        ensures
            final(self)@ == old(self)@.push(w@),
            final(self).changelogs_only == old(self).changelogs_only,
    {
        self.writes.push(w);
        assert(self@ =~= old(self)@.push(w@));
    }

    /// The changelogs that are to be written among the pending changes.
    pub fn changelog_writes(&self) -> (r: Vec<Write>)
        ensures
            write_views(r@) == changelogs_among(self@),
    {
        let ghost all = self@;
        let mut r: Vec<Write> = Vec::new();
        let mut i: usize = 0;
        assert(all.take(0) =~= Seq::<WriteView>::empty());
        assert(write_views(r@) =~= changelogs_among(all.take(0)));
        while i < self.writes.len()
            invariant
                i <= self.writes.len(),
                all == self@,
                write_views(r@) == changelogs_among(all.take(i as int)),
            decreases self.writes.len() - i,
        {
            let ghost before = write_views(r@);
            proof {
                let now = all.take(i + 1);
                assert(now.drop_last() =~= all.take(i as int));
                assert(now.last() == self.writes@[i as int]@);
            }
            match &self.writes[i] {
                Write::Changelog { id, version, path } => {
                    let w = Write::Changelog { id: *id, version: version.clone(), path: path.clone() };
                    r.push(w);
                    assert(write_views(r@) =~= before.push(self.writes@[i as int]@));
                },
                _ => {},
            }
            i += 1;
        }
        assert(all.take(self.writes@.len() as int) =~= all);
        r
    }

    /// Adds a run of changes after those that are pending.
    pub fn append(&mut self, ws: Vec<Write>)
        ensures
            final(self)@ == old(self)@ + write_views(ws@),
            final(self).changelogs_only == old(self).changelogs_only,
    {
        let ghost all = ws@;
        let ghost start = self@;
        let n: usize = ws.len();
        let mut i: usize = 0;
        assert(start =~= start + write_views(all.take(0)));
        for w in it: ws
            invariant
                i == it.index(),
                it.seq() == all,
                all.len() == n,
                self@ == start + write_views(all.take(i as int)),
                self.changelogs_only == old(self).changelogs_only,
        {
            let ghost before = self@;
            assert(w == all[i as int]);
            self.push(w);
            assert(before.push(w@) =~= start + write_views(all.take(i + 1)));
            i += 1;
        }
        assert(all.take(all.len() as int) =~= all);
    }
}

/// Everything it takes to carry a release out later: the pending changes
/// and what the committer needs to know. This is what is kept while a
/// release is paused.
#[derive(Clone, Debug)]
pub struct CommitState {
    pub writes: Vec<Write>,
    /// The tag whose annotation records the versions of a release.
    pub prev_tag: String,
    /// The newest commit that touched each project.
    pub last_commits: HashMap<u32, String>,
    /// The last known version of each project.
    pub old_tags: HashMap<u32, String>,
    /// Whether the tag of the last release moves to this one.
    pub advance_prev: bool,
    /// Whether the release stops here, to be resumed later.
    pub pause: bool,
}

/// What a [`CommitState`] holds, as plain values.
pub struct CommitStateView {
    pub writes: Seq<WriteView>,
    pub prev_tag: Seq<char>,
    pub last_commits: Map<u32, Seq<char>>,
    pub old_tags: Map<u32, Seq<char>>,
    pub advance_prev: bool,
    pub pause: bool,
}

/// The texts in a map of strings.
pub open spec fn text_map(m: Map<u32, String>) -> Map<u32, Seq<char>> {
    Map::new(|k: u32| m.contains_key(k), |k: u32| m[k]@)
}

impl View for CommitState {
    type V = CommitStateView;

    open spec fn view(&self) -> CommitStateView {
        CommitStateView {
            writes: write_views(self.writes@),
            prev_tag: self.prev_tag@,
            last_commits: text_map(self.last_commits@),
            old_tags: text_map(self.old_tags@),
            advance_prev: self.advance_prev,
            pause: self.pause,
        }
    }
}

/// The versions that the projects have once the changes are made: those
/// in `start`, and over them, change by change, the version that a project
/// is set to or tagged at.
pub open spec fn recorded(writes: Seq<WriteView>, start: Map<u32, Seq<char>>) -> Map<u32, Seq<char>>
    decreases writes.len(),
{
    if writes.len() == 0 {
        start
    } else {
        let before = recorded(writes.drop_last(), start);
        match writes.last() {
            WriteView::SetValue { id, value } => before.insert(id.id, value),
            WriteView::ForwardTag { id, value } => before.insert(id.id, value),
            _ => before,
        }
    }
}

impl CommitState {
    /// The version of each project as of this release, to be recorded in
    /// the annotation of the release's tag: the last known versions, and
    /// over them the versions that this release sets or tags.
    pub fn versions(&self) -> (r: HashMap<u32, String>)
        ensures
            text_map(r@) == recorded(self@.writes, self@.old_tags),
    {
        let mut r = self.old_tags.clone();
        let ghost all = write_views(self.writes@);
        let mut i: usize = 0;
        assert(all.take(0) =~= Seq::<WriteView>::empty());
        while i < self.writes.len()
            invariant
                i <= self.writes.len(),
                all == write_views(self.writes@),
                text_map(r@) == recorded(all.take(i as int), text_map(self.old_tags@)),
            decreases self.writes.len() - i,
        {
            let ghost before = text_map(r@);
            proof {
                let now = all.take(i + 1);
                assert(now.drop_last() =~= all.take(i as int));
                assert(now.last() == self.writes@[i as int]@);
            }
            match &self.writes[i] {
                Write::SetValue { id, value } => {
                    r.insert(id.id, value.clone());
                    assert(text_map(r@) =~= before.insert(id.id, value@));
                },
                Write::ForwardTag { id, value } => {
                    r.insert(id.id, value.clone());
                    assert(text_map(r@) =~= before.insert(id.id, value@));
                },
                _ => {},
            }
            i += 1;
        }
        assert(all.take(self.writes@.len() as int) =~= all);
        r
    }
}

} // verus!
