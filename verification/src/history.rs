//! The configuration as it stood at earlier commits.

use vstd::prelude::*;
use crate::config::ConfigFile;
use crate::error::Error;
use crate::text::same_text;

verus! {

/// The configuration at one commit; `None` where the file at that commit
/// cannot be read as a configuration.
#[derive(Clone, Debug)]
pub struct Snapshot {
    pub commit: String,
    pub file: Option<ConfigFile>,
}

/// The configurations of the commits that a walk may come to.
#[derive(Clone, Debug)]
pub struct History {
    pub snapshots: Vec<Snapshot>,
}

impl History {
    /// Whether the history holds a snapshot of commit `id`.
    pub open spec fn knows(&self, id: Seq<char>) -> bool {
        exists|i: int| 0 <= i < self.snapshots@.len() && #[trigger] self.snapshots@[i].commit@ == id
    }

    /// Position of the first snapshot of commit `id`.
    pub open spec fn first_of(&self, id: Seq<char>) -> usize {
        choose|i: usize|
            0 <= i < self.snapshots@.len() && #[trigger] self.snapshots@[i as int].commit@ == id
                && forall|j: int| 0 <= j < i ==> self.snapshots@[j].commit@ != id
    }

    /// Position of the first snapshot of commit `id`.
    pub fn find(&self, id: &str) -> (r: Option<usize>)
        ensures
            r is Some == self.knows(id@),
            r is Some ==> r->0 < self.snapshots@.len() && r->0 == self.first_of(id@)
                && self.snapshots@[r->0 as int].commit@ == id@,
    {
        let mut i: usize = 0;
        while i < self.snapshots.len()
            invariant
                i <= self.snapshots.len(),
                forall|j: int| 0 <= j < i ==> self.snapshots@[j].commit@ != id@,
            decreases self.snapshots.len() - i,
        {
            if same_text(self.snapshots[i].commit.as_str(), id) {
                proof {
                    let c = self.first_of(id@);
                    assert(self.snapshots@[i as int].commit@ == id@);
                    if c < i {
                        assert(self.snapshots@[c as int].commit@ != id@);
                    }
                }
                return Some(i);
            }
            i += 1;
        }
        None
    }
}

/// A cursor into the history: not yet placed, or placed at one snapshot.
#[derive(Clone, Copy, Debug)]
pub enum Slicer<'r> {
    Orig(&'r History),
    Slice(&'r History, usize),
}

impl<'r> Slicer<'r> {
    /// The history that the cursor moves in.
    pub open spec fn history(&self) -> &'r History {
        match self {
            Slicer::Orig(h) => h,
            Slicer::Slice(h, _) => h,
        }
    }

    /// The configuration that the cursor stands at, if it stands at one.
    pub open spec fn snapshot(&self) -> Option<ConfigFile> {
        match self {
            Slicer::Orig(_) => None,
            Slicer::Slice(h, i) => if *i < h.snapshots@.len() {
                h.snapshots@[*i as int].file
            } else {
                None
            },
        }
    }

    /// What slicing to commit `id` leads to: the first snapshot of the
    /// commit, an error when the history has none or the snapshot cannot be
    /// read.
    pub open spec fn target(&self, id: Seq<char>) -> Result<usize, Error> {
        let h = self.history();
        if !h.knows(id) {
            Err(Error::MissingConfigAtRev)
        } else if h.snapshots@[h.first_of(id) as int].file is None {
            Err(Error::ConfigParse)
        } else {
            Ok(h.first_of(id))
        }
    }

    pub fn init(repo: &'r History) -> (r: Slicer<'r>)
        ensures
            r == Slicer::Orig(repo),
    {
        Slicer::Orig(repo)
    }

    /// The configuration that the cursor stands at.
    pub fn file(&self) -> (r: Result<&ConfigFile, Error>)
        ensures
            match r {
                Ok(f) => self.snapshot() == Some(*f),
                Err(e) => e == Error::NotSliced && self.snapshot() is None,
            },
    {
        match self {
            Slicer::Orig(_) => Err(Error::NotSliced),
            Slicer::Slice(h, i) => {
                if *i < h.snapshots.len() {
                    match &h.snapshots[*i].file {
                        Some(f) => Ok(f),
                        None => Err(Error::NotSliced),
                    }
                } else {
                    Err(Error::NotSliced)
                }
            },
        }
    }

    /// Moves the cursor to the configuration at commit `id`. On failure the
    /// cursor stays where it is.
    pub fn slice_to(&mut self, id: &str) -> (r: Result<(), Error>)
        ensures
            match r {
                Ok(()) => old(self).target(id@) is Ok && *final(self) == Slicer::Slice(
                    old(self).history(),
                    old(self).target(id@)->Ok_0,
                ) && final(self).snapshot() is Some,
                Err(e) => old(self).target(id@) == Err::<usize, Error>(e) && *final(self) == *old(self),
            },
    {
        let h: &'r History = match self {
            Slicer::Orig(h) => *h,
            Slicer::Slice(h, _) => *h,
        };
        match h.find(id) {
            None => Err(Error::MissingConfigAtRev),
            Some(i) => {
                if h.snapshots[i].file.is_none() {
                    Err(Error::ConfigParse)
                } else {
                    *self = Slicer::Slice(h, i);
                    Ok(())
                }
            },
        }
    }
}

} // verus!
