//! What the planner reads of a repository, as the version control system
//! reported it.

use std::collections::HashMap;
use vstd::prelude::*;
use crate::changelog::CommitInfo;
use crate::history::History;
use crate::text::same_text;

verus! {

/// The branch that is checked out.
#[derive(Clone, Debug)]
pub enum Branch {
    /// The branch could not be found out.
    Unknown,
    /// No branch is checked out.
    Detached,
    Named(String),
}

/// A tag and the commit it points to, annotations peeled off.
#[derive(Clone, Debug)]
pub struct TagRef {
    pub name: String,
    pub oid: String,
}

/// The tags that match one pattern.
#[derive(Clone, Debug)]
pub struct TagAnswer {
    pub pattern: String,
    pub tags: Vec<TagRef>,
}

/// What was read of the repository.
#[derive(Clone, Debug)]
pub struct Repo {
    pub branch: Branch,
    /// The tags for each pattern that was asked about.
    pub tag_answers: Vec<TagAnswer>,
    /// The commits from the head back to the tag of the last release, that
    /// one included, newest first.
    pub commits_to_head: Vec<String>,
    /// The commits of the main line over the same stretch, newest first.
    pub line_commits: Vec<CommitInfo>,
    /// The versions that the annotation of the last release's tag records.
    pub prev_versions: HashMap<u32, String>,
    /// The version of each project as the working tree has it.
    pub values: HashMap<u32, String>,
    /// The version of each project as of the last release.
    pub prev_values: HashMap<u32, String>,
    /// The configuration at earlier commits.
    pub history: History,
}

impl Repo {
    /// Whether the repository answered for `pattern`.
    pub open spec fn answered(&self, pattern: Seq<char>) -> bool {
        exists|i: int|
            0 <= i < self.tag_answers@.len() && (#[trigger] self.tag_answers@[i]).pattern@ == pattern
    }

    /// Position of the first answer for `pattern`.
    pub open spec fn answer_pos(&self, pattern: Seq<char>) -> int {
        choose|i: int|
            0 <= i < self.tag_answers@.len() && (#[trigger] self.tag_answers@[i]).pattern@ == pattern
                && forall|j: int| 0 <= j < i ==> (#[trigger] self.tag_answers@[j]).pattern@ != pattern
    }

    /// The tags that match `pattern`, by the first answer for it.
    pub open spec fn answer_of(&self, pattern: Seq<char>) -> Seq<TagRef> {
        self.tag_answers@[self.answer_pos(pattern)].tags@
    }

    /// The tags that match `pattern`; `None` when the repository was not
    /// asked about it.
    pub fn tag_names(&self, pattern: &str) -> (r: Option<&Vec<TagRef>>)
        ensures
            r is Some == self.answered(pattern@),
            r is Some ==> r->0@ == self.answer_of(pattern@),
    {
        let mut i: usize = 0;
        while i < self.tag_answers.len()
            invariant
                i <= self.tag_answers.len(),
                forall|j: int| 0 <= j < i ==> (#[trigger] self.tag_answers@[j]).pattern@ != pattern@,
            decreases self.tag_answers.len() - i,
        {
            if same_text(self.tag_answers[i].pattern.as_str(), pattern) {
                proof {
                    assert(self.tag_answers@[i as int].pattern@ == pattern@);
                    let c = self.answer_pos(pattern@);
                    if c < i {
                        assert(self.tag_answers@[c].pattern@ != pattern@);
                    } else if c > i {
                        assert(self.tag_answers@[i as int].pattern@ != pattern@);
                    }
                }
                return Some(&self.tag_answers[i].tags);
            }
            i += 1;
        }
        None
    }

    pub fn branch_name(&self) -> (r: &Branch)
        ensures
            *r == self.branch,
    {
        &self.branch
    }
}

} // verus!
