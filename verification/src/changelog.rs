//! What a plan records: the commits and pull requests behind each project's
//! bump, and the changelog they make up.

use vstd::prelude::*;
use crate::conventional::{conventional_kind, kind_of};
use crate::project::ProjectId;
use crate::size::Size;
use crate::text::owned;

verus! {

/// The characters of an optional string.
pub open spec fn opt_text(o: Option<String>) -> Option<Seq<char>> {
    match o {
        Some(s) => Some(s@),
        None => None,
    }
}

/// A copy of an optional string.
pub fn copy_opt(o: &Option<String>) -> (r: Option<String>)
    ensures
        opt_text(r) == opt_text(*o),
{
    match o {
        Some(s) => Some(s.clone()),
        None => None,
    }
}

/// A point in time with the offset of the zone it was written in.
#[derive(Clone, Copy, Debug, PartialEq, Eq, Structural)]
pub struct Timestamp {
    /// Seconds since the Unix epoch.
    pub secs: i64,
    pub nanos: u32,
    /// Seconds east of UTC.
    pub offset: i32,
}

/// What a [`LoggedCommit`] holds, as plain values.
pub struct CommitView {
    pub oid: Seq<char>,
    pub summary: Seq<char>,
    pub message: Seq<char>,
    pub size: Size,
    pub applies: bool,
    pub duplicate: bool,
    pub url: Option<Seq<char>>,
}

impl CommitView {
    /// Whether the commit counts towards the pull request it is logged in.
    pub open spec fn included(self) -> bool {
        self.applies && !self.duplicate
    }
}

/// A commit as it appears in the log of one project.
#[derive(Clone, Debug)]
pub struct LoggedCommit {
    pub oid: String,
    pub summary: String,
    pub message: String,
    pub size: Size,
    /// Whether the commit touched a path of the project.
    pub applies: bool,
    /// Whether an entry earlier in the changelog holds the same commit.
    pub duplicate: bool,
    pub url: Option<String>,
}

impl View for LoggedCommit {
    type V = CommitView;

    open spec fn view(&self) -> CommitView {
        CommitView {
            oid: self.oid@,
            summary: self.summary@,
            message: self.message@,
            size: self.size,
            applies: self.applies,
            duplicate: self.duplicate,
            url: opt_text(self.url),
        }
    }
}

impl LoggedCommit {
    /// A commit that so far applies to nothing and duplicates nothing.
    pub fn new(oid: String, summary: String, message: String, size: Size, url: Option<String>) -> (r:
        LoggedCommit)
        ensures
            r@ == (CommitView {
                oid: oid@,
                summary: summary@,
                message: message@,
                size,
                applies: false,
                duplicate: false,
                url: opt_text(url),
            }),
    {
        LoggedCommit { oid, summary, message, size, applies: false, duplicate: false, url }
    }

    pub fn applies(&self) -> (r: bool)
        ensures
            r == self@.applies,
    {
        self.applies
    }

    pub fn duplicate(&self) -> (r: bool)
        ensures
            r == self@.duplicate,
    {
        self.duplicate
    }

    pub fn included(&self) -> (r: bool)
        ensures
            r == self@.included(),
    {
        self.applies && !self.duplicate
    }

    pub fn oid(&self) -> (r: &str)
        ensures
            r@ == self@.oid,
    {
        self.oid.as_str()
    }

    pub fn summary(&self) -> (r: &str)
        ensures
            r@ == self@.summary,
    {
        self.summary.as_str()
    }

    pub fn message(&self) -> (r: &str)
        ensures
            r@ == self@.message,
    {
        self.message.as_str()
    }

    pub fn size(&self) -> (r: Size)
        ensures
            r == self@.size,
    {
        self.size
    }

    pub fn url(&self) -> (r: &Option<String>)
        ensures
            opt_text(*r) == self@.url,
    {
        &self.url
    }

    /// A copy that holds the same values.
    pub fn replicate(&self) -> (r: LoggedCommit)
        ensures
            r@ == self@,
    {
        LoggedCommit {
            oid: self.oid.clone(),
            summary: self.summary.clone(),
            message: self.message.clone(),
            size: self.size,
            applies: self.applies,
            duplicate: self.duplicate,
            url: copy_opt(&self.url),
        }
    }
}

/// The views of a run of commits.
pub open spec fn commit_views(cs: Seq<LoggedCommit>) -> Seq<CommitView> {
    Seq::new(cs.len(), |i: int| cs[i]@)
}

/// A copy of a run of commits.
pub fn copy_commits(cs: &Vec<LoggedCommit>) -> (r: Vec<LoggedCommit>)
    ensures
        commit_views(r@) == commit_views(cs@),
{
    let mut r: Vec<LoggedCommit> = Vec::new();
    let mut i: usize = 0;
    while i < cs.len()
        invariant
            i <= cs.len(),
            r@.len() == i,
            forall|j: int| 0 <= j < i ==> r@[j]@ == cs@[j]@,
        decreases cs.len() - i,
    {
        r.push(cs[i].replicate());
        i += 1;
    }
    assert(commit_views(r@) =~= commit_views(cs@));
    r
}

/// A pull request as the hosting service reports it.
#[derive(Clone, Debug)]
pub struct FullPr {
    pub number: u32,
    pub title: String,
    pub closed_at: Timestamp,
    /// Position at which the walk came upon the pull request.
    pub discovery_order: usize,
    /// The commits that count, oldest first.
    pub commits: Vec<CommitInfo>,
    /// Whether the pull request was made up to hold commits that belong to
    /// none.
    pub best_guess: bool,
}

impl FullPr {
    pub fn number(&self) -> (r: u32)
        ensures
            r == self.number,
    {
        self.number
    }

    pub fn title(&self) -> (r: &str)
        ensures
            r@ == self.title@,
    {
        self.title.as_str()
    }

    pub fn closed_at(&self) -> (r: &Timestamp)
        ensures
            *r == self.closed_at,
    {
        &self.closed_at
    }

    pub fn discovery_order(&self) -> (r: usize)
        ensures
            r == self.discovery_order,
    {
        self.discovery_order
    }

    pub fn best_guess(&self) -> (r: bool)
        ensures
            r == self.best_guess,
    {
        self.best_guess
    }

    pub fn included_commits(&self) -> (r: &Vec<CommitInfo>)
        ensures
            *r == self.commits,
    {
        &self.commits
    }
}

/// A commit as the version control system reports it.
#[derive(Clone, Debug)]
pub struct CommitInfo {
    pub id: String,
    pub summary: String,
    pub message: String,
    /// The kind that the message declares; `None` when the message does not
    /// follow the conventional form.
    pub kind: Option<String>,
    /// The paths that the commit touched.
    pub files: Vec<String>,
}

impl CommitInfo {
    pub fn id(&self) -> (r: &str)
        ensures
            r@ == self.id@,
    {
        self.id.as_str()
    }

    pub fn summary(&self) -> (r: &str)
        ensures
            r@ == self.summary@,
    {
        self.summary.as_str()
    }

    pub fn message(&self) -> (r: &str)
        ensures
            r@ == self.message@,
    {
        self.message.as_str()
    }

    pub fn kind(&self) -> (r: &Option<String>)
        ensures
            *r == self.kind,
    {
        &self.kind
    }

    pub fn files(&self) -> (r: &Vec<String>)
        ensures
            *r == self.files,
    {
        &self.files
    }

    /// The commit with the kind that its message declares.
    pub fn new(id: String, summary: String, message: String, files: Vec<String>) -> (r: CommitInfo)
        ensures
            r.id == id,
            r.summary == summary,
            r.message == message,
            r.files == files,
            opt_text(r.kind) == kind_of(message@),
    {
        let kind = conventional_kind(message.as_str());
        CommitInfo { id, summary, message, kind, files }
    }

    /// A copy that holds the same texts.
    pub fn replicate(&self) -> (r: CommitInfo)
        ensures
            r.id@ == self.id@,
            r.summary@ == self.summary@,
            r.message@ == self.message@,
            opt_text(r.kind) == opt_text(self.kind),
            r.files@.len() == self.files@.len(),
            forall|i: int| 0 <= i < self.files@.len() ==> r.files@[i]@ == self.files@[i]@,
    {
        let mut files: Vec<String> = Vec::new();
        let mut i: usize = 0;
        while i < self.files.len()
            invariant
                i <= self.files.len(),
                files@.len() == i,
                forall|j: int| 0 <= j < i ==> files@[j]@ == self.files@[j]@,
            decreases self.files.len() - i,
        {
            files.push(self.files[i].clone());
            i += 1;
        }
        CommitInfo {
            id: self.id.clone(),
            summary: self.summary.clone(),
            message: self.message.clone(),
            kind: copy_opt(&self.kind),
            files,
        }
    }
}

/// What a [`LoggedPr`] holds, as plain values.
pub struct PrView {
    pub number: u32,
    pub title: Seq<char>,
    pub closed_at: Timestamp,
    pub discovery_order: usize,
    pub commits: Seq<CommitView>,
    pub url: Option<Seq<char>>,
}

/// A pull request as it appears in the log of one project.
#[derive(Clone, Debug)]
pub struct LoggedPr {
    pub number: u32,
    pub title: String,
    pub closed_at: Timestamp,
    pub discovery_order: usize,
    pub commits: Vec<LoggedCommit>,
    pub url: Option<String>,
}

impl View for LoggedPr {
    type V = PrView;

    open spec fn view(&self) -> PrView {
        PrView {
            number: self.number,
            title: self.title@,
            closed_at: self.closed_at,
            discovery_order: self.discovery_order,
            commits: commit_views(self.commits@),
            url: opt_text(self.url),
        }
    }
}

impl LoggedPr {
    /// The log entry for `pr`, with no commits yet.
    pub fn capture(pr: &FullPr, url: Option<String>) -> (r: LoggedPr)
        ensures
            r@ == (PrView {
                number: pr.number,
                title: pr.title@,
                closed_at: pr.closed_at,
                discovery_order: pr.discovery_order,
                commits: Seq::<CommitView>::empty(),
                url: opt_text(url),
            }),
    {
        let r = LoggedPr {
            number: pr.number,
            title: owned(pr.title()),
            closed_at: pr.closed_at,
            discovery_order: pr.discovery_order,
            commits: Vec::new(),
            url,
        };
        assert(commit_views(r.commits@) =~= Seq::<CommitView>::empty());
        r
    }

    pub fn number(&self) -> (r: u32)
        ensures
            r == self@.number,
    {
        self.number
    }

    pub fn title(&self) -> (r: &str)
        ensures
            r@ == self@.title,
    {
        self.title.as_str()
    }

    pub fn _closed_at(&self) -> (r: &Timestamp)
        ensures
            *r == self@.closed_at,
    {
        &self.closed_at
    }

    pub fn discovery_order(&self) -> (r: usize)
        ensures
            r == self@.discovery_order,
    {
        self.discovery_order
    }

    pub fn commits(&self) -> (r: &[LoggedCommit])
        ensures
            r@ == self.commits@,
    {
        self.commits.as_slice()
    }

    pub fn url(&self) -> (r: &Option<String>)
        ensures
            opt_text(*r) == self@.url,
    {
        &self.url
    }

    /// A copy that holds the same values.
    pub fn replicate(&self) -> (r: LoggedPr)
        ensures
            r@ == self@,
    {
        LoggedPr {
            number: self.number,
            title: self.title.clone(),
            closed_at: self.closed_at,
            discovery_order: self.discovery_order,
            commits: copy_commits(&self.commits),
            url: copy_opt(&self.url),
        }
    }
}

/// What a [`ChangelogEntry`] holds, as plain values.
pub enum EntryView {
    Pr(PrView, Size),
    Dep(ProjectId, Seq<char>),
}

/// One line of a changelog: a pull request with the size it amounts to, or
/// an upstream project (identifier and name) whose change carried over.
#[derive(Clone, Debug)]
pub enum ChangelogEntry {
    Pr(LoggedPr, Size),
    Dep(ProjectId, String),
}

impl View for ChangelogEntry {
    type V = EntryView;

    open spec fn view(&self) -> EntryView {
        match self {
            ChangelogEntry::Pr(pr, size) => EntryView::Pr(pr@, *size),
            ChangelogEntry::Dep(id, name) => EntryView::Dep(*id, name@),
        }
    }
}

/// The views of a run of logged pull requests.
pub open spec fn pr_views(prs: Seq<LoggedPr>) -> Seq<PrView> {
    Seq::new(prs.len(), |i: int| prs[i]@)
}

/// The views of a run of changelog entries.
pub open spec fn entry_views(es: Seq<ChangelogEntry>) -> Seq<EntryView> {
    Seq::new(es.len(), |i: int| es[i]@)
}

/// The entries that make up the changelog of one project, in order.
#[derive(Clone, Debug)]
pub struct Changelog {
    pub entries: Vec<ChangelogEntry>,
}

impl View for Changelog {
    type V = Seq<EntryView>;

    open spec fn view(&self) -> Seq<EntryView> {
        entry_views(self.entries@)
    }
}

impl Changelog {
    pub fn empty() -> (r: Changelog)
        ensures
            r@ == Seq::<EntryView>::empty(),
    {
        let r = Changelog { entries: Vec::new() };
        assert(r@ =~= Seq::<EntryView>::empty());
        r
    }

    pub fn entries(&self) -> (r: &[ChangelogEntry])
        ensures
            r@ == self.entries@,
    {
        self.entries.as_slice()
    }

    /// Appends a pull request and the size it amounts to.
    pub fn add_entry(&mut self, pr: LoggedPr, size: Size)
        ensures
            final(self)@ == old(self)@.push(EntryView::Pr(pr@, size)),
    {
        self.entries.push(ChangelogEntry::Pr(pr, size));
        assert(self@ =~= old(self)@.push(EntryView::Pr(pr@, size)));
    }

    /// Appends an upstream project whose change carried over.
    pub fn add_dep(&mut self, id: ProjectId, name: &str)
        ensures
            final(self)@ == old(self)@.push(EntryView::Dep(id, name@)),
    {
        self.entries.push(ChangelogEntry::Dep(id, owned(name)));
        assert(self@ =~= old(self)@.push(EntryView::Dep(id, name@)));
    }

    pub fn is_empty(&self) -> (r: bool)
        ensures
            r == (self@.len() == 0),
    {
        self.entries.is_empty()
    }
}

} // verus!
