//! The commands, as far as they decide and compute: what each of them
//! makes of the repository, handed back as plain values.

use vstd::prelude::*;
use crate::changelog::{copy_opt, opt_text};
use crate::error::Error;
use crate::mono::Mono;
use crate::project::{Project, ProjectId};
use crate::state::{CommitState, WriteView};
use crate::tags::texts;
use crate::text::{contains_sub, same_text, text_contains};

verus! {

broadcast use vstd::std_specs::hash::group_hash_axioms;

/// What is known of the surroundings before the command line is read.
#[derive(Clone, Debug)]
pub struct EarlyInfo {
    pub project_count: usize,
    pub working_dir: String,
    pub orig_dir: String,
}

impl EarlyInfo {
    pub fn new(project_count: usize, working_dir: String, orig_dir: String) -> (r: EarlyInfo)
        ensures
            r.project_count == project_count,
            r.working_dir == working_dir,
            r.orig_dir == orig_dir,
    {
        EarlyInfo { project_count, working_dir, orig_dir }
    }

    pub fn project_count(&self) -> (r: usize)
        ensures
            r == self.project_count,
    {
        self.project_count
    }

    pub fn working_dir(&self) -> (r: &str)
        ensures
            r@ == self.working_dir@,
    {
        self.working_dir.as_str()
    }

    pub fn orig_dir(&self) -> (r: &str)
        ensures
            r@ == self.orig_dir@,
    {
        self.orig_dir.as_str()
    }
}

/// Which projects `info` picks and what it shows of them.
#[derive(Clone, Copy, Debug, PartialEq, Eq, Structural)]
pub struct InfoShow {
    pub pick_all: bool,
    pub show_id: bool,
    pub show_root: bool,
    pub show_name: bool,
    pub show_tag_prefix: bool,
    pub show_full_version: bool,
    pub show_version: bool,
}

impl InfoShow {
    /// Picks nothing and shows nothing.
    pub fn new() -> (r: InfoShow)
        ensures
            r == (InfoShow {
                pick_all: false,
                show_id: false,
                show_root: false,
                show_name: false,
                show_tag_prefix: false,
                show_full_version: false,
                show_version: false,
            }),
    {
        InfoShow {
            pick_all: false,
            show_id: false,
            show_root: false,
            show_name: false,
            show_version: false,
            show_tag_prefix: false,
            show_full_version: false,
        }
    }

    pub fn all(&self) -> (r: bool)
        ensures
            r == self.pick_all,
    {
        self.pick_all
    }

    pub fn id(&self) -> (r: bool)
        ensures
            r == self.show_id,
    {
        self.show_id
    }

    pub fn name(&self) -> (r: bool)
        ensures
            r == self.show_name,
    {
        self.show_name
    }

    pub fn root(&self) -> (r: bool)
        ensures
            r == self.show_root,
    {
        self.show_root
    }

    pub fn tag_prefix(&self) -> (r: bool)
        ensures
            r == self.show_tag_prefix,
    {
        self.show_tag_prefix
    }

    pub fn full_version(&self) -> (r: bool)
        ensures
            r == self.show_full_version,
    {
        self.show_full_version
    }

    pub fn version(&self) -> (r: bool)
        ensures
            r == self.show_version,
    {
        self.show_version
    }

    pub fn pick_all(self, v: bool) -> (r: InfoShow)
        ensures
            r == (InfoShow { pick_all: v, ..self }),
    {
        InfoShow { pick_all: v, ..self }
    }

    pub fn show_id(self, v: bool) -> (r: InfoShow)
        ensures
            r == (InfoShow { show_id: v, ..self }),
    {
        InfoShow { show_id: v, ..self }
    }

    pub fn show_name(self, v: bool) -> (r: InfoShow)
        ensures
            r == (InfoShow { show_name: v, ..self }),
    {
        InfoShow { show_name: v, ..self }
    }

    pub fn show_root(self, v: bool) -> (r: InfoShow)
        ensures
            r == (InfoShow { show_root: v, ..self }),
    {
        InfoShow { show_root: v, ..self }
    }

    pub fn show_tag_prefix(self, v: bool) -> (r: InfoShow)
        ensures
            r == (InfoShow { show_tag_prefix: v, ..self }),
    {
        InfoShow { show_tag_prefix: v, ..self }
    }

    pub fn show_full_version(self, v: bool) -> (r: InfoShow)
        ensures
            r == (InfoShow { show_full_version: v, ..self }),
    {
        InfoShow { show_full_version: v, ..self }
    }

    pub fn show_version(self, v: bool) -> (r: InfoShow)
        ensures
            r == (InfoShow { show_version: v, ..self }),
    {
        InfoShow { show_version: v, ..self }
    }
}

impl Default for InfoShow {
    fn default() -> (r: InfoShow)
        ensures
            r == (InfoShow {
                pick_all: false,
                show_id: false,
                show_root: false,
                show_name: false,
                show_tag_prefix: false,
                show_full_version: false,
                show_version: false,
            }),
    {
        InfoShow::new()
    }
}

/// How a project is named on the command line.
#[derive(Clone, Debug)]
pub enum NameMatch {
    /// By a part of its name.
    Partial(String),
    /// By its whole name.
    Exact(String),
    /// Not at all.
    Absent,
}

/// What a [`NameMatch`] holds, as plain values.
pub enum NameMatchView {
    Partial(Seq<char>),
    Exact(Seq<char>),
    Absent,
}

impl View for NameMatch {
    type V = NameMatchView;

    open spec fn view(&self) -> NameMatchView {
        match self {
            NameMatch::Partial(n) => NameMatchView::Partial(n@),
            NameMatch::Exact(n) => NameMatchView::Exact(n@),
            NameMatch::Absent => NameMatchView::Absent,
        }
    }
}

impl NameMatch {
    /// A part of the name goes before the whole name.
    pub fn from(part: &Option<String>, exact: &Option<String>) -> (r: NameMatch)
        ensures
            r@ == match (*part, *exact) {
                (Some(n), _) => NameMatchView::Partial(n@),
                (None, Some(n)) => NameMatchView::Exact(n@),
                (None, None) => NameMatchView::Absent,
            },
    {
        match part {
            Some(n) => NameMatch::Partial(n.clone()),
            None => match exact {
                Some(n) => NameMatch::Exact(n.clone()),
                None => NameMatch::Absent,
            },
        }
    }
}

/// While a release is paused no other command may run.
///
/// Fails with `PausedState` exactly when a release is paused.
pub fn sanity_check(paused: bool) -> (r: Result<(), Error>)
    ensures
        r == if paused {
            Err::<(), Error>(Error::PausedState)
        } else {
            Ok::<(), Error>(())
        },
{
    if paused {
        Err(Error::PausedState)
    } else {
        Ok(())
    }
}

/// What `get`, `show` and `info` report of one project.
#[derive(Clone, Debug)]
pub struct ProjLine {
    pub id: ProjectId,
    pub name: String,
    pub root: Option<String>,
    pub tag_prefix: Option<String>,
    pub version: String,
    /// The name of the tag for `version`.
    pub full_version: Option<String>,
}

/// What a [`ProjLine`] holds, as plain values.
pub struct ProjLineView {
    pub id: ProjectId,
    pub name: Seq<char>,
    pub root: Option<Seq<char>>,
    pub tag_prefix: Option<Seq<char>>,
    pub version: Seq<char>,
    pub full_version: Option<Seq<char>>,
}

impl View for ProjLine {
    type V = ProjLineView;

    open spec fn view(&self) -> ProjLineView {
        ProjLineView {
            id: self.id,
            name: self.name@,
            root: opt_text(self.root),
            tag_prefix: opt_text(self.tag_prefix),
            version: self.version@,
            full_version: opt_text(self.full_version),
        }
    }
}

/// The views of a run of lines.
pub open spec fn line_views(lines: Seq<ProjLine>) -> Seq<ProjLineView> {
    Seq::new(lines.len(), |i: int| lines[i]@)
}

/// The line for project `p`, with its version as of the last release if
/// `prev`, else as the working tree has it. `NoSuchValue` where the project
/// has no such version.
pub open spec fn line_of(mono: Mono, p: Project, prev: bool) -> Result<ProjLineView, Error> {
    let value = if prev {
        mono.prev_value_of(p.id.id)
    } else {
        mono.value_of(p.id.id)
    };
    match value {
        None => Err(Error::NoSuchValue),
        Some(v) => Ok(
            ProjLineView {
                id: p.id,
                name: p.name@,
                root: opt_text(p.root),
                tag_prefix: opt_text(p.tag_prefix),
                version: v,
                full_version: p.tag_name(v),
            },
        ),
    }
}

/// Executable form of [`line_of`].
pub fn project_line(mono: &Mono, p: &Project, prev: bool) -> (r: Result<ProjLine, Error>)
    ensures
        match r {
            Ok(line) => line_of(*mono, *p, prev) == Ok::<ProjLineView, Error>(line@),
            Err(e) => line_of(*mono, *p, prev) == Err::<ProjLineView, Error>(e),
        },
{
    let value = if prev {
        mono.get_prev_value(&p.id)
    } else {
        mono.get_value(&p.id)
    };
    match value {
        None => Err(Error::NoSuchValue),
        Some(v) => Ok(
            ProjLine {
                id: p.id,
                name: p.name.clone(),
                root: copy_opt(&p.root),
                tag_prefix: copy_opt(&p.tag_prefix),
                version: v.clone(),
                full_version: p.full_version(v.as_str()),
            },
        ),
    }
}

/// Checks that every project has a version that can be read.
pub fn check(mono: &Mono) -> (r: Result<(), Error>)
    ensures
        match r {
            Ok(()) => forall|i: int|
                0 <= i < mono.current.projects@.len() ==> mono.readable(
                    #[trigger] mono.current.projects@[i].id.id,
                ) is Ok,
            Err(e) => exists|i: int|
                0 <= i < mono.current.projects@.len() && mono.readable(
                    #[trigger] mono.current.projects@[i].id.id,
                ) == Err::<(), Error>(e) && forall|j: int|
                    0 <= j < i ==> mono.readable(#[trigger] mono.current.projects@[j].id.id) is Ok,
        },
{
    mono.check()
}

/// The project that a command is about: the one with the identifier `id`
/// if that is given, else the one that `name` names, else the only one.
pub open spec fn picked(mono: Mono, id: Option<u32>, name: NameMatchView, p: int) -> bool {
    let ps = mono.current.projects@;
    &&& 0 <= p < ps.len()
    &&& match id {
        Some(k) => ps[p].id.id == k && forall|j: int| 0 <= j < p ==> ps[j].id.id != k,
        None => match name {
            NameMatchView::Partial(n) => only_named(mono, p, n, false),
            NameMatchView::Exact(n) => only_named(mono, p, n, true),
            NameMatchView::Absent => ps.len() == 1,
        },
    }
}

/// Whether project `p` is the only one that goes by `name`.
pub open spec fn only_named(mono: Mono, p: int, name: Seq<char>, exact: bool) -> bool {
    named(mono, p, name, exact) && forall|j: int|
        0 <= j < mono.current.projects@.len() && j != p ==> !named(mono, j, name, exact)
}

/// Why no single project goes by `name`: none does, or several do.
pub open spec fn name_fails(mono: Mono, name: Seq<char>, exact: bool, e: Error) -> bool {
    if e == Error::NoSuchProject {
        forall|j: int| 0 <= j < mono.current.projects@.len() ==> !named(mono, j, name, exact)
    } else {
        e == Error::AmbiguousProject && exists|i: int, j: int|
            0 <= i < j < mono.current.projects@.len() && named(mono, i, name, exact) && named(
                mono,
                j,
                name,
                exact,
            )
    }
}

/// Why no project can be picked (see [`picked`]).
pub open spec fn pick_fails(mono: Mono, id: Option<u32>, name: NameMatchView, e: Error) -> bool {
    match id {
        Some(k) => e == Error::NoSuchProject && !mono.current.has(ProjectId { id: k }),
        None => match name {
            NameMatchView::Partial(n) => name_fails(mono, n, false, e),
            NameMatchView::Exact(n) => name_fails(mono, n, true, e),
            NameMatchView::Absent => e == Error::NoSoloProject && mono.current.projects@.len() != 1,
        },
    }
}

/// Picks the project that a command is about.
pub fn pick(mono: &Mono, id: Option<u32>, name: &NameMatch) -> (r: Result<usize, Error>)
    ensures
        match r {
            Ok(p) => picked(
                *mono,
                id,
                name@,
                p as int,
            ),
            Err(e) => pick_fails(
                *mono,
                id,
                name@,
                e,
            ),
        },
{
    let cfg = &mono.current;
    match id {
        Some(k) => {
            let pid = ProjectId::from_id(k);
            assert(pid == ProjectId { id: k });
            match cfg.position(&pid) {
                Some(p) => {
                    assert forall|j: int| 0 <= j < p implies mono.current.projects@[j].id.id != k by {
                        assert(cfg.projects@[j].id != pid);
                    }
                    Ok(p)
                },
                None => Err(Error::NoSuchProject),
            }
        },
        None => {
            match name {
                NameMatch::Partial(n) => unique_position(mono, n.as_str(), false),
                NameMatch::Exact(n) => unique_position(mono, n.as_str(), true),
                NameMatch::Absent => {
                    if cfg.projects.len() != 1 {
                        Err(Error::NoSoloProject)
                    } else {
                        Ok(0)
                    }
                },
            }
        },
    }
}

/// Position of the one project whose name is `name`, if `exact`, or
/// holds `name`, if not.
fn unique_position(mono: &Mono, name: &str, exact: bool) -> (r: Result<usize, Error>)
    ensures
        match r {
            Ok(p) => p < mono.current.projects@.len() && named(*mono, p as int, name@, exact)
                && forall|j: int|
                0 <= j < mono.current.projects@.len() && j != p ==> !named(*mono, j, name@, exact),
            Err(e) => if e == Error::NoSuchProject {
                forall|j: int| 0 <= j < mono.current.projects@.len() ==> !named(*mono, j, name@, exact)
            } else {
                e == Error::AmbiguousProject && exists|i: int, j: int|
                    0 <= i < j < mono.current.projects@.len() && named(*mono, i, name@, exact) && named(
                        *mono,
                        j,
                        name@,
                        exact,
                    )
            },
        },
{
    let cfg = &mono.current;
    let mut found: Option<usize> = None;
    let mut i: usize = 0;
    while i < cfg.projects.len()
        invariant
            i <= cfg.projects.len(),
            *cfg == mono.current,
            match found {
                Some(f) => f < i && named(*mono, f as int, name@, exact) && forall|j: int|
                    0 <= j < i && j != f ==> !named(*mono, j, name@, exact),
                None => forall|j: int| 0 <= j < i ==> !named(*mono, j, name@, exact),
            },
        decreases cfg.projects.len() - i,
    {
        let hit = if exact {
            same_text(cfg.projects[i].name(), name)
        } else {
            text_contains(cfg.projects[i].name(), name)
        };
        if hit {
            match found {
                Some(f) => {
                    assert(named(*mono, f as int, name@, exact) && named(*mono, i as int, name@, exact));
                    return Err(Error::AmbiguousProject);
                },
                None => {
                    found = Some(i);
                },
            }
        }
        i += 1;
    }
    match found {
        Some(f) => Ok(f),
        None => Err(Error::NoSuchProject),
    }
}

/// Whether project `j` has the name `name`, if `exact`, or a name that
/// holds it, if not.
pub open spec fn named(mono: Mono, j: int, name: Seq<char>, exact: bool) -> bool {
    if exact {
        mono.current.projects@[j].name@ == name
    } else {
        mono.current.name_holds(j, name)
    }
}

/// The line of the project that the command is about.
pub fn get(mono: &Mono, prev: bool, id: Option<u32>, name: &NameMatch) -> (r: Result<ProjLine, Error>)
    ensures
        match r {
            Ok(line) => exists|p: int|
                picked(
                    *mono,
                    id,
                    name@,
                    p,
                ) && line_of(*mono, mono.current.projects@[p], prev) == Ok::<ProjLineView, Error>(
                    line@,
                ),
            Err(e) => pick_fails(
                *mono,
                id,
                name@,
                e,
            ) || exists|p: int|
                picked(
                    *mono,
                    id,
                    name@,
                    p,
                ) && line_of(*mono, mono.current.projects@[p], prev) == Err::<ProjLineView, Error>(e),
        },
{
    match pick(mono, id, name) {
        Err(e) => Err(e),
        Ok(p) => project_line(mono, &mono.current.projects[p], prev),
    }
}

/// The lines of all projects, in the order of the configuration.
///
/// Fails with the error of the first project that has no line.
pub fn show(mono: &Mono, prev: bool) -> (r: Result<Vec<ProjLine>, Error>)
    ensures
        match r {
            Ok(lines) => lines@.len() == mono.current.projects@.len() && forall|i: int|
                0 <= i < lines@.len() ==> line_of(*mono, mono.current.projects@[i], prev) == Ok::<
                    ProjLineView,
                    Error,
                >((#[trigger] lines@[i])@),
            Err(e) => exists|i: int|
                0 <= i < mono.current.projects@.len() && line_of(
                    *mono,
                    #[trigger] mono.current.projects@[i],
                    prev,
                ) == Err::<ProjLineView, Error>(e) && forall|j: int|
                    0 <= j < i ==> line_of(*mono, #[trigger] mono.current.projects@[j], prev) is Ok,
        },
{
    let mut lines: Vec<ProjLine> = Vec::new();
    let mut i: usize = 0;
    while i < mono.current.projects.len()
        invariant
            i <= mono.current.projects.len(),
            lines@.len() == i,
            forall|j: int|
                0 <= j < i ==> line_of(*mono, mono.current.projects@[j], prev) == Ok::<
                    ProjLineView,
                    Error,
                >((#[trigger] lines@[j])@),
        decreases mono.current.projects.len() - i,
    {
        match project_line(mono, &mono.current.projects[i], prev) {
            Err(e) => {
                assert forall|j: int| 0 <= j < i implies line_of(
                    *mono,
                    #[trigger] mono.current.projects@[j],
                    prev,
                ) is Ok by {
                    assert(line_of(*mono, mono.current.projects@[j], prev) == Ok::<
                        ProjLineView,
                        Error,
                    >(lines@[j]@));
                }
                return Err(e);
            },
            Ok(line) => {
                lines.push(line);
            },
        }
        i += 1;
    }
    Ok(lines)
}

/// Sets the version of the project that the command is about and hands the
/// change over to be committed.
pub fn set(mono: &mut Mono, id: Option<u32>, name: &NameMatch, value: &str) -> (r: Result<
    CommitState,
    Error,
>)
    ensures
        final(mono).same_but_next(old(mono)),
        match r {
            Ok(state) => exists|p: int|
                picked(
                    *old(mono),
                    id,
                    name@,
                    p,
                ) && state@ == old(mono).handed_over(
                    old(mono).next@.push(
                        WriteView::SetValue { id: old(mono).current.projects@[p].id, value: value@ },
                    ),
                    false,
                    false,
                ) && final(mono).next@ == Seq::<WriteView>::empty(),
            Err(e) => pick_fails(
                *old(mono),
                id,
                name@,
                e,
            ) && final(mono).next == old(mono).next,
        },
{
    let p = match pick(mono, id, name) {
        Err(e) => {
            return Err(e);
        },
        Ok(p) => p,
    };
    let pid = mono.current.projects[p].id;
    assert(mono.current.has(pid));
    match mono.set_by_id(&pid, value) {
        Err(e) => Err(e),
        Ok(()) => mono.commit(false, false),
    }
}

/// Whether `info` picks project `p`: its number is among `ids`, its name
/// holds one of `names` or is one of `exacts`, or it bears one of
/// `labels`.
pub open spec fn selected(
    p: Project,
    ids: Seq<u32>,
    names: Seq<Seq<char>>,
    exacts: Seq<Seq<char>>,
    labels: Seq<Seq<char>>,
) -> bool {
    ||| ids.contains(p.id.id)
    ||| exists|i: int| 0 <= i < names.len() && contains_sub(p.name@, #[trigger] names[i])
    ||| exacts.contains(p.name@)
    ||| exists|i: int| 0 <= i < p.labels@.len() && labels.contains((#[trigger] p.labels@[i])@)
}

fn holds_text(list: &[String], text: &str) -> (r: bool)
    ensures
        r == texts(list@).contains(text@),
{
    let mut i: usize = 0;
    while i < list.len()
        invariant
            i <= list@.len(),
            forall|j: int| 0 <= j < i ==> texts(list@)[j] != text@,
        decreases list@.len() - i,
    {
        if same_text(list[i].as_str(), text) {
            assert(texts(list@)[i as int] == text@);
            return true;
        }
        i += 1;
    }
    false
}

/// Executable form of [`selected`].
pub fn is_selected(p: &Project, ids: &[u32], names: &[String], exacts: &[String], labels: &[String]) -> (r:
    bool)
    ensures
        r == selected(*p, ids@, texts(names@), texts(exacts@), texts(labels@)),
{
    let mut i: usize = 0;
    while i < ids.len()
        invariant
            i <= ids@.len(),
            forall|j: int| 0 <= j < i ==> ids@[j] != p.id.id,
        decreases ids@.len() - i,
    {
        if ids[i] == p.id.id {
            return true;
        }
        i += 1;
    }
    let mut i: usize = 0;
    while i < names.len()
        invariant
            i <= names@.len(),
            forall|j: int| 0 <= j < i ==> !contains_sub(p.name@, #[trigger] texts(names@)[j]),
        decreases names@.len() - i,
    {
        if text_contains(p.name(), names[i].as_str()) {
            assert(contains_sub(p.name@, texts(names@)[i as int]));
            return true;
        }
        i += 1;
    }
    if holds_text(exacts, p.name()) {
        return true;
    }
    let mut i: usize = 0;
    while i < p.labels.len()
        invariant
            i <= p.labels@.len(),
            forall|j: int| 0 <= j < i ==> !texts(labels@).contains((#[trigger] p.labels@[j])@),
        decreases p.labels@.len() - i,
    {
        if holds_text(labels, p.labels[i].as_str()) {
            return true;
        }
        i += 1;
    }
    false
}

/// The lines of the first `upto` projects that `info` picks.
pub open spec fn info_lines(
    mono: Mono,
    all: bool,
    ids: Seq<u32>,
    names: Seq<Seq<char>>,
    exacts: Seq<Seq<char>>,
    labels: Seq<Seq<char>>,
    upto: int,
) -> Result<Seq<ProjLineView>, Error>
    decreases upto,
{
    if upto <= 0 {
        Ok(Seq::empty())
    } else {
        match info_lines(mono, all, ids, names, exacts, labels, upto - 1) {
            Err(e) => Err(e),
            Ok(lines) => {
                let p = mono.current.projects@[upto - 1];
                if all || selected(p, ids, names, exacts, labels) {
                    match line_of(mono, p, false) {
                        Err(e) => Err(e),
                        Ok(line) => Ok(lines.push(line)),
                    }
                } else {
                    Ok(lines)
                }
            },
        }
    }
}

/// The lines of the projects that `info` picks, in the order of the
/// configuration: all of them if `show` says so, else those that meet one
/// of the criteria. Fails with the error of the first of them that has no
/// line.
pub fn info(
    mono: &Mono,
    ids: &[u32],
    names: &[String],
    exacts: &[String],
    labels: &[String],
    show: &InfoShow,
) -> (r: Result<Vec<ProjLine>, Error>)
    ensures
        match r {
            Ok(lines) => info_lines(
                *mono,
                show.pick_all,
                ids@,
                texts(names@),
                texts(exacts@),
                texts(labels@),
                mono.current.projects@.len() as int,
            ) == Ok::<Seq<ProjLineView>, Error>(line_views(lines@)),
            Err(e) => info_lines(
                *mono,
                show.pick_all,
                ids@,
                texts(names@),
                texts(exacts@),
                texts(labels@),
                mono.current.projects@.len() as int,
            ) == Err::<Seq<ProjLineView>, Error>(e),
        },
{
    let all = show.all();
    let mut lines: Vec<ProjLine> = Vec::new();
    let mut i: usize = 0;
    assert(line_views(lines@) =~= Seq::<ProjLineView>::empty());
    while i < mono.current.projects.len()
        invariant
            i <= mono.current.projects.len(),
            all == show.pick_all,
            info_lines(*mono, all, ids@, texts(names@), texts(exacts@), texts(labels@), i as int)
                == Ok::<Seq<ProjLineView>, Error>(line_views(lines@)),
        decreases mono.current.projects.len() - i,
    {
        let p = &mono.current.projects[i];
        if all || is_selected(p, ids, names, exacts, labels) {
            match project_line(mono, p, false) {
                Err(e) => {
                    proof {
                        lemma_info_error_stays(
                            *mono,
                            all,
                            ids@,
                            texts(names@),
                            texts(exacts@),
                            texts(labels@),
                            i + 1,
                            mono.current.projects@.len() as int,
                        );
                    }
                    return Err(e);
                },
                Ok(line) => {
                    let ghost before = line_views(lines@);
                    lines.push(line);
                    assert(line_views(lines@) =~= before.push(line@));
                },
            }
        }
        i += 1;
    }
    Ok(lines)
}

/// Once the lines fail they stay failed, with the same error.
pub proof fn lemma_info_error_stays(
    mono: Mono,
    all: bool,
    ids: Seq<u32>,
    names: Seq<Seq<char>>,
    exacts: Seq<Seq<char>>,
    labels: Seq<Seq<char>>,
    at: int,
    upto: int,
)
    requires
        at <= upto,
        info_lines(mono, all, ids, names, exacts, labels, at) is Err,
    ensures
        info_lines(mono, all, ids, names, exacts, labels, upto) == info_lines(
            mono,
            all,
            ids,
            names,
            exacts,
            labels,
            at,
        ),
    decreases upto - at,
{
    if at < upto {
        lemma_info_error_stays(mono, all, ids, names, exacts, labels, at, upto - 1);
    }
}

} // verus!
