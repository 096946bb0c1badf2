//! Finding, for each project, the newest commit of the main line that
//! touched one of its files.

use std::collections::HashMap;
use vstd::prelude::*;
use crate::builder::{attributed, cover_decided, cover_fails};
use crate::changelog::CommitInfo;
use crate::config::ConfigFile;
use crate::error::Error;
use crate::history::{History, Slicer};
use crate::project::{Project, ProjectId};
use crate::repo::Repo;
use crate::tags::text_at;

verus! {

broadcast use vstd::std_specs::hash::group_hash_axioms;

/// Whether project number `k` is one that `current` has and that covered
/// `path` in the configuration `snap`.
pub open spec fn touched(snap: Seq<Project>, current: ConfigFile, k: u32, path: Seq<char>) -> bool {
    current.has(ProjectId { id: k }) && attributed(snap, ProjectId { id: k }, path)
}

/// Walks the commits of the main line, newest first, and keeps for each
/// project the first commit that touches it.
pub struct LastCommitBuilder<'s> {
    pub on_line_commit: Option<String>,
    pub last_commits: HashMap<u32, String>,
    pub prev: Slicer<'s>,
    pub current: &'s ConfigFile,
}

impl<'s> LastCommitBuilder<'s> {
    /// While a commit is at hand, the history stands at its configuration.
    pub open spec fn wf(&self) -> bool {
        self.on_line_commit is Some ==> self.prev.snapshot() is Some
    }

    pub fn create(repo: &'s History, current: &'s ConfigFile) -> (r: LastCommitBuilder<'s>)
        ensures
            r.wf(),
            r.on_line_commit is None,
            r.last_commits@ == Map::<u32, String>::empty(),
            r.prev == Slicer::Orig(repo),
            r.current == current,
    {
        LastCommitBuilder {
            on_line_commit: None,
            last_commits: HashMap::new(),
            prev: Slicer::init(repo),
            current,
        }
    }

    /// Turns to the next commit and moves the history to it.
    ///
    /// Fails, and changes nothing, where the history has no readable
    /// configuration for the commit.
    pub fn start_line_commit(&mut self, commit: &CommitInfo) -> (r: Result<(), Error>)
        requires
            old(self).wf(),
        ensures
            final(self).wf(),
            match r {
                Ok(()) => {
                    &&& old(self).prev.target(commit.id@) is Ok
                    &&& final(self).prev == Slicer::Slice(
                        old(self).prev.history(),
                        old(self).prev.target(commit.id@)->Ok_0,
                    )
                    &&& final(self).on_line_commit is Some
                    &&& final(self).on_line_commit->0@ == commit.id@
                    &&& final(self).last_commits == old(self).last_commits
                    &&& final(self).current == old(self).current
                },
                Err(e) => old(self).prev.target(commit.id@) == Err::<usize, Error>(e) && *final(self)
                    == *old(self),
            },
    {
        match self.prev.slice_to(commit.id()) {
            Err(e) => Err(e),
            Ok(()) => {
                self.on_line_commit = Some(commit.id.clone());
                Ok(())
            },
        }
    }

    pub fn finish_line_commit(&mut self) -> (r: Result<(), Error>)
        ensures
            r is Ok,
            *final(self) == *old(self),
    {
        Ok(())
    }

    /// Notes the commit at hand for every project that has no commit yet,
    /// that the current configuration has, and that covered the path at
    /// that commit.
    ///
    /// Fails, and changes nothing, outside a commit and where a project
    /// that both configurations have cannot say whether it covers the path.
    #[verifier::loop_isolation(false)]
    pub fn start_line_file(&mut self, path: &str) -> (r: Result<(), Error>)
        requires
            old(self).wf(),
        ensures
            final(self).wf(),
            final(self).on_line_commit == old(self).on_line_commit,
            final(self).prev == old(self).prev,
            final(self).current == old(self).current,
            match r {
                Ok(()) => {
                    let snap = old(self).prev.snapshot()->0.projects@;
                    &&& old(self).on_line_commit is Some
                    &&& cover_decided(snap, *old(self).current, path@)
                    &&& forall|k: u32|
                        text_at(final(self).last_commits@, k) == if old(self).last_commits@.contains_key(
                            k,
                        ) {
                            text_at(old(self).last_commits@, k)
                        } else if touched(snap, *old(self).current, k, path@) {
                            Some(old(self).on_line_commit->0@)
                        } else {
                            None
                        }
                },
                Err(e) => {
                    &&& final(self).last_commits == old(self).last_commits
                    &&& if old(self).on_line_commit is None {
                        e == Error::NotOnLineCommit
                    } else {
                        cover_fails(
                            old(self).prev.snapshot()->0.projects@,
                            *old(self).current,
                            path@,
                            e,
                        )
                    }
                },
            },
    {
        let commit_id = match &self.on_line_commit {
            Some(c) => c.clone(),
            None => {
                return Err(Error::NotOnLineCommit);
            },
        };
        let prev = self.prev;
        let file = match prev.file() {
            Ok(f) => f,
            Err(e) => {
                return Err(e);
            },
        };
        let ghost snap = file.projects@;
        let current = self.current;
        let mut hits: Vec<u32> = Vec::new();
        let mut k: usize = 0;
        while k < file.projects.len()
            invariant
                k <= file.projects.len(),
                forall|id: u32|
                    hits@.contains(id) <==> touched(snap.take(k as int), *current, id, path@),
                cover_decided(snap.take(k as int), *current, path@),
            decreases file.projects.len() - k,
        {
            let q = &file.projects[k];
            let ghost before = snap.take(k as int);
            let ghost after = snap.take(k + 1);
            let ghost hits0 = hits@;
            assert(after[k as int] == snap[k as int]);
            assert(forall|j: int| 0 <= j < k ==> before[j] == after[j]);
            let mut hit = false;
            if current.position(&q.id).is_some() {
                match q.does_cover(path) {
                    Err(e) => {
                        assert(cover_fails(snap, *current, path@, e));
                        return Err(e);
                    },
                    Ok(true) => {
                        hits.push(q.id.id);
                        hit = true;
                    },
                    Ok(false) => {},
                }
            }
            proof {
                assert forall|id: u32| hits@.contains(id) <==> touched(after, *current, id, path@) by {
                    let pid = ProjectId { id };
                    if attributed(before, pid, path@) {
                        let w = choose|w: int|
                            0 <= w < before.len() && (#[trigger] before[w]).id == pid
                                && before[w].covers_path(path@) == Ok::<bool, Error>(true);
                        assert(after[w].id == pid);
                    }
                    if attributed(after, pid, path@) && !attributed(before, pid, path@) {
                        let w = choose|w: int|
                            0 <= w < after.len() && (#[trigger] after[w]).id == pid
                                && after[w].covers_path(path@) == Ok::<bool, Error>(true);
                        if w < k {
                            assert(before[w].id == pid);
                        }
                        assert(w == k);
                    }
                    if hit && id == q.id.id {
                        assert(after[k as int].id == pid);
                        assert(hits@[hits0.len() as int] == id);
                    }
                    if hits0.contains(id) {
                        let w = choose|w: int| 0 <= w < hits0.len() && hits0[w] == id;
                        assert(hits@[w] == id);
                    }
                    if hits@.contains(id) && !hits0.contains(id) {
                        let w = choose|w: int| 0 <= w < hits@.len() && hits@[w] == id;
                        if w < hits0.len() {
                            assert(hits0[w] == id);
                        }
                    }
                }
                assert forall|w: int|
                    0 <= w < after.len() && current.has((#[trigger] after[w]).id) implies after[w].covers_path(
                    path@,
                ) is Ok by {
                    if w < k {
                        assert(before[w] == after[w]);
                    }
                }
            }
            k += 1;
        }
        assert(snap.take(snap.len() as int) =~= snap);
        let mut j: usize = 0;
        while j < hits.len()
            invariant
                j <= hits.len(),
                forall|id: u32|
                    text_at(self.last_commits@, id) == if old(self).last_commits@.contains_key(id) {
                        text_at(old(self).last_commits@, id)
                    } else if hits@.take(j as int).contains(id) {
                        Some(commit_id@)
                    } else {
                        None
                    },
                self.on_line_commit == old(self).on_line_commit,
                self.prev == old(self).prev,
                self.current == old(self).current,
            decreases hits.len() - j,
        {
            let id: u32 = hits[j];
            let ghost before = self.last_commits@;
            let ghost h0 = hits@.take(j as int);
            let ghost h1 = hits@.take(j + 1);
            if !self.last_commits.contains_key(&id) {
                self.last_commits.insert(id, commit_id.clone());
            }
            proof {
                assert(h1[j as int] == id);
                assert forall|x: u32| h1.contains(x) == (h0.contains(x) || x == id) by {
                    if h0.contains(x) {
                        let w = choose|w: int| 0 <= w < h0.len() && h0[w] == x;
                        assert(h1[w] == x);
                    }
                    if h1.contains(x) && x != id {
                        let w = choose|w: int| 0 <= w < h1.len() && h1[w] == x;
                        assert(h0[w] == x);
                    }
                }
                assert forall|x: u32|
                    text_at(self.last_commits@, x) == if old(self).last_commits@.contains_key(x) {
                        text_at(old(self).last_commits@, x)
                    } else if h1.contains(x) {
                        Some(commit_id@)
                    } else {
                        None
                    } by {
                    assert(h1.contains(x) == (h0.contains(x) || x == id));
                    assert(text_at(before, x) == if old(self).last_commits@.contains_key(x) {
                        text_at(old(self).last_commits@, x)
                    } else if h0.contains(x) {
                        Some(commit_id@)
                    } else {
                        None
                    });
                    if x != id {
                        assert(text_at(self.last_commits@, x) == text_at(before, x));
                    }
                }
            }
            j += 1;
        }
        assert(hits@.take(hits@.len() as int) =~= hits@);
        Ok(())
    }

    pub fn finish_line_file(&mut self) -> (r: Result<(), Error>)
        ensures
            r is Ok,
            *final(self) == *old(self),
    {
        Ok(())
    }

    /// The commit that was kept for each project.
    pub fn build(self) -> (r: Result<HashMap<u32, String>, Error>)
        ensures
            r == Ok::<HashMap<u32, String>, Error>(self.last_commits),
    {
        Ok(self.last_commits)
    }
}

/// Where slicing the history of `repo` to main-line commit `c` leads.
pub open spec fn slice_of(repo: Repo, c: int) -> Result<usize, Error> {
    Slicer::Orig(&repo.history).target(repo.line_commits@[c].id@)
}

/// The projects of the configuration at main-line commit `c`.
pub open spec fn snap_of(repo: Repo, c: int) -> Seq<Project> {
    repo.history.snapshots@[slice_of(repo, c)->Ok_0 as int].file->0.projects@
}

/// Whether one of the first `nfiles` files of main-line commit `c` touches
/// project number `k`.
pub open spec fn touches_upto(repo: Repo, current: ConfigFile, c: int, k: u32, nfiles: int) -> bool {
    exists|f: int|
        0 <= f < nfiles && touched(
            snap_of(repo, c),
            current,
            k,
            (#[trigger] repo.line_commits@[c].files@[f])@,
        )
}

/// Whether main-line commit `c` touches project number `k`.
pub open spec fn touches(repo: Repo, current: ConfigFile, c: int, k: u32) -> bool {
    touches_upto(repo, current, c, k, repo.line_commits@[c].files@.len() as int)
}

/// The first of the main-line commits before `upto` that touches project
/// number `k`.
pub open spec fn last_commit_of(repo: Repo, current: ConfigFile, k: u32, upto: int) -> Option<
    Seq<char>,
>
    decreases upto,
{
    if upto <= 0 {
        None
    } else {
        match last_commit_of(repo, current, k, upto - 1) {
            Some(v) => Some(v),
            None => if touches(repo, current, upto - 1, k) {
                Some(repo.line_commits@[upto - 1].id@)
            } else {
                None
            },
        }
    }
}

/// Whether the first `nfiles` files of main-line commit `c` can all be
/// attributed.
pub open spec fn files_decided(repo: Repo, current: ConfigFile, c: int, nfiles: int) -> bool {
    forall|f: int|
        0 <= f < nfiles ==> cover_decided(
            snap_of(repo, c),
            current,
            (#[trigger] repo.line_commits@[c].files@[f])@,
        )
}

/// Whether main-line commit `c` can be dealt with: the history has a
/// readable configuration for it and every file can be attributed.
pub open spec fn commit_fine(repo: Repo, current: ConfigFile, c: int) -> bool {
    slice_of(repo, c) is Ok && files_decided(
        repo,
        current,
        c,
        repo.line_commits@[c].files@.len() as int,
    )
}

/// Whether dealing with main-line commit `c` fails with `e`: slicing the
/// history to it does, or else attributing one of its files.
pub open spec fn commit_fails(repo: Repo, current: ConfigFile, c: int, e: Error) -> bool {
    if slice_of(repo, c) is Err {
        slice_of(repo, c) == Err::<usize, Error>(e)
    } else {
        exists|f: int|
            0 <= f < repo.line_commits@[c].files@.len() && cover_fails(
                snap_of(repo, c),
                current,
                (#[trigger] repo.line_commits@[c].files@[f])@,
                e,
            )
    }
}

/// Whether `map` holds, for each project, the newest main-line commit that
/// touched it, every commit having been dealt with.
pub open spec fn records_last_commits(repo: Repo, current: ConfigFile, map: Map<u32, String>) -> bool {
    &&& forall|c: int| 0 <= c < repo.line_commits@.len() ==> #[trigger] commit_fine(repo, current, c)
    &&& forall|k: u32|
        text_at(map, k) == last_commit_of(repo, current, k, repo.line_commits@.len() as int)
}

/// Whether the first main-line commit that cannot be dealt with fails with
/// `e`.
pub open spec fn last_commits_fail(repo: Repo, current: ConfigFile, e: Error) -> bool {
    exists|c: int|
        0 <= c < repo.line_commits@.len() && #[trigger] commit_fails(repo, current, c, e) && forall|
            b: int,
        | 0 <= b < c ==> #[trigger] commit_fine(repo, current, b)
}

/// The newest main-line commit that touched each project.
///
/// The commits are taken newest first, and a project keeps the first commit
/// with a file that the project covered at that commit. Projects that the
/// current configuration no longer has, and projects that no commit
/// touched, get none. Fails with the error of the first commit that cannot
/// be dealt with.
pub fn find_last_commits(current: &ConfigFile, repo: &Repo) -> (r: Result<
    HashMap<u32, String>,
    Error,
>)
    ensures
        match r {
            Ok(map) => records_last_commits(*repo, *current, map@),
            Err(e) => last_commits_fail(*repo, *current, e),
        },
{
    let mut last_commits = LastCommitBuilder::create(&repo.history, current);
    let n: usize = repo.line_commits.len();
    let mut c: usize = 0;
    while c < n
        invariant
            n == repo.line_commits@.len(),
            c <= n,
            last_commits.wf(),
            last_commits.current == current,
            last_commits.prev.history() == &repo.history,
            forall|b: int| 0 <= b < c ==> #[trigger] commit_fine(*repo, *current, b),
            forall|k: u32|
                text_at(last_commits.last_commits@, k) == last_commit_of(*repo, *current, k, c as int),
        decreases n - c,
    {
        let commit = &repo.line_commits[c];
        match last_commits.start_line_commit(commit) {
            Err(e) => {
                assert(commit_fails(*repo, *current, c as int, e));
                return Err(e);
            },
            Ok(()) => {},
        }
        let ghost snap = snap_of(*repo, c as int);
        assert(last_commits.prev.snapshot()->0.projects@ == snap);
        let m: usize = commit.files.len();
        let mut f: usize = 0;
        while f < m
            invariant
                n == repo.line_commits@.len(),
                c < n,
                *commit == repo.line_commits@[c as int],
                m == commit.files@.len(),
                f <= m,
                last_commits.wf(),
                last_commits.current == current,
                last_commits.prev.history() == &repo.history,
                last_commits.on_line_commit is Some,
                last_commits.on_line_commit->0@ == commit.id@,
                slice_of(*repo, c as int) is Ok,
                snap == snap_of(*repo, c as int),
                last_commits.prev.snapshot() is Some,
                last_commits.prev.snapshot()->0.projects@ == snap,
                files_decided(*repo, *current, c as int, f as int),
                forall|b: int| 0 <= b < c ==> #[trigger] commit_fine(*repo, *current, b),
                forall|k: u32|
                    text_at(last_commits.last_commits@, k) == match last_commit_of(
                        *repo,
                        *current,
                        k,
                        c as int,
                    ) {
                        Some(v) => Some(v),
                        None => if touches_upto(*repo, *current, c as int, k, f as int) {
                            Some(commit.id@)
                        } else {
                            None
                        },
                    },
            decreases m - f,
        {
            let ghost before = last_commits.last_commits@;
            match last_commits.start_line_file(commit.files[f].as_str()) {
                Err(e) => {
                    assert(cover_fails(snap, *current, repo.line_commits@[c as int].files@[f as int]@, e));
                    assert(commit_fails(*repo, *current, c as int, e));
                    return Err(e);
                },
                Ok(()) => {},
            }
            proof {
                let path = commit.files@[f as int]@;
                assert forall|k: u32|
                    touches_upto(*repo, *current, c as int, k, f + 1) == (touches_upto(
                        *repo,
                        *current,
                        c as int,
                        k,
                        f as int,
                    ) || touched(snap, *current, k, path)) by {
                    if touches_upto(*repo, *current, c as int, k, f as int) {
                        let g = choose|g: int|
                            0 <= g < f && touched(
                                snap_of(*repo, c as int),
                                *current,
                                k,
                                (#[trigger] repo.line_commits@[c as int].files@[g])@,
                            );
                        assert(touched(snap, *current, k, repo.line_commits@[c as int].files@[g]@));
                    }
                    if touched(snap, *current, k, path) {
                        assert(touched(snap, *current, k, repo.line_commits@[c as int].files@[f as int]@));
                    }
                }
                assert forall|k: u32|
                    text_at(last_commits.last_commits@, k) == match last_commit_of(
                        *repo,
                        *current,
                        k,
                        c as int,
                    ) {
                        Some(v) => Some(v),
                        None => if touches_upto(*repo, *current, c as int, k, f + 1) {
                            Some(commit.id@)
                        } else {
                            None
                        },
                    } by {
                    assert(touches_upto(*repo, *current, c as int, k, f + 1) == (touches_upto(
                        *repo,
                        *current,
                        c as int,
                        k,
                        f as int,
                    ) || touched(snap, *current, k, path)));
                    assert(text_at(before, k) == match last_commit_of(*repo, *current, k, c as int) {
                        Some(v) => Some(v),
                        None => if touches_upto(*repo, *current, c as int, k, f as int) {
                            Some(commit.id@)
                        } else {
                            None
                        },
                    });
                }
                assert forall|g: int| 0 <= g < f + 1 implies cover_decided(
                    snap_of(*repo, c as int),
                    *current,
                    (#[trigger] repo.line_commits@[c as int].files@[g])@,
                ) by {}
            }
            let _ = last_commits.finish_line_file();
            f += 1;
        }
        let _ = last_commits.finish_line_commit();
        proof {
            assert(commit_fine(*repo, *current, c as int));
        }
        c += 1;
    }
    last_commits.build()
}

} // verus!
