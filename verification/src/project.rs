//! Projects, their identifiers, dependencies and path coverage, and the
//! configuration that lists them.

use vstd::prelude::*;
use crate::error::Error;
use crate::number::{decimal, decimal_chars};
use crate::size::Size;
use crate::text::{has_char, push_text, string_of};
use crate::version::{parse, version_of};

verus! {

/// Names a project for the lifetime of the repository.
#[derive(Clone, Copy, Debug, PartialEq, Eq, Structural, PartialOrd, Ord, Hash)]
pub struct ProjectId {
    pub id: u32,
}

impl ProjectId {
    /// The identifier written in decimal.
    pub open spec fn text(self) -> Seq<char> {
        decimal(self.id as nat)
    }

    pub fn from_id(id: u32) -> (r: ProjectId)
        ensures
            r.id == id,
    {
        ProjectId { id }
    }

    pub fn id(&self) -> (r: u32)
        ensures
            r == self.id,
    {
        self.id
    }

    /// The identifier written in decimal.
    pub fn to_string(&self) -> (r: String)
        ensures
            r@ == self.text(),
    {
        let v = decimal_chars(self.id);
        string_of(&v)
    }
}

/// Turns the size of an upstream change into the size it has downstream.
///
/// One answer for each of the six sizes.
#[derive(Clone, Copy, Debug, PartialEq, Eq, Structural)]
pub struct SizeMapper {
    pub on_empty: Size,
    pub on_none: Size,
    pub on_patch: Size,
    pub on_minor: Size,
    pub on_major: Size,
    pub on_failure: Size,
}

impl SizeMapper {
    /// What an upstream change of size `s` amounts to downstream.
    pub open spec fn map(self, s: Size) -> Size {
        match s {
            Size::Empty => self.on_empty,
            Size::NoBump => self.on_none,
            Size::Patch => self.on_patch,
            Size::Minor => self.on_minor,
            Size::Major => self.on_major,
            Size::Failure => self.on_failure,
        }
    }

    /// The mapping with `from` sent to `to` and the rest as in `self`.
    pub open spec fn updated(self, from: Size, to: Size) -> SizeMapper {
        match from {
            Size::Empty => SizeMapper { on_empty: to, ..self },
            Size::NoBump => SizeMapper { on_none: to, ..self },
            Size::Patch => SizeMapper { on_patch: to, ..self },
            Size::Minor => SizeMapper { on_minor: to, ..self },
            Size::Major => SizeMapper { on_major: to, ..self },
            Size::Failure => SizeMapper { on_failure: to, ..self },
        }
    }

    /// The mapping that hands every size on unchanged.
    pub fn identity() -> (r: SizeMapper)
        ensures
            forall|s: Size| r.map(s) == s,
    {
        let r = SizeMapper {
            on_empty: Size::Empty,
            on_none: Size::NoBump,
            on_patch: Size::Patch,
            on_minor: Size::Minor,
            on_major: Size::Major,
            on_failure: Size::Failure,
        };
        assert forall|s: Size| r.map(s) == s by {}
        r
    }

    /// Sends `from` to `to` and leaves the other sizes as they were.
    pub fn with(self, from: Size, to: Size) -> (r: SizeMapper)
        ensures
            r == self.updated(from, to),
            r.map(from) == to,
            forall|s: Size| s != from ==> r.map(s) == self.map(s),
    {
        let r = match from {
            Size::Empty => SizeMapper { on_empty: to, ..self },
            Size::NoBump => SizeMapper { on_none: to, ..self },
            Size::Patch => SizeMapper { on_patch: to, ..self },
            Size::Minor => SizeMapper { on_minor: to, ..self },
            Size::Major => SizeMapper { on_major: to, ..self },
            Size::Failure => SizeMapper { on_failure: to, ..self },
        };
        assert forall|s: Size| s != from implies r.map(s) == self.map(s) by {}
        r
    }

    pub fn convert(&self, s: Size) -> (r: Size)
        ensures
            r == self.map(s),
    {
        match s {
            Size::Empty => self.on_empty,
            Size::NoBump => self.on_none,
            Size::Patch => self.on_patch,
            Size::Minor => self.on_minor,
            Size::Major => self.on_major,
            Size::Failure => self.on_failure,
        }
    }
}

/// What a project takes from one of the projects it depends on.
#[derive(Clone, Copy, Debug, PartialEq, Eq, Structural)]
pub struct Depends {
    pub size: SizeMapper,
}

impl Depends {
    pub fn new(size: SizeMapper) -> (r: Depends)
        ensures
            r.size == size,
    {
        Depends { size }
    }

    pub fn size(&self) -> (r: &SizeMapper)
        ensures
            *r == self.size,
    {
        &self.size
    }
}

/// One entry of a project's dependencies: the upstream project and the edge
/// to it.
#[derive(Clone, Copy, Debug, PartialEq, Eq, Structural)]
pub struct Dependency {
    pub on: ProjectId,
    pub edge: Depends,
}

/// A condition on the versions a project may take: the major number has to
/// be one of `majors`.
#[derive(Clone, Debug)]
pub struct Restriction {
    pub majors: Vec<u32>,
}

impl Restriction {
    /// Whether a version with this major number meets the restriction.
    pub open spec fn admits(&self, major: u32) -> bool {
        self.majors@.contains(major)
    }

    /// Executable form of [`Restriction::admits`].
    pub fn allows(&self, major: u32) -> (r: bool)
        ensures
            r == self.admits(major),
    {
        let mut i: usize = 0;
        while i < self.majors.len()
            invariant
                i <= self.majors.len(),
                forall|j: int| 0 <= j < i ==> self.majors@[j] != major,
            decreases self.majors.len() - i,
        {
            if self.majors[i] == major {
                return true;
            }
            i += 1;
        }
        false
    }
}

/// Whether a text can be handed to the pattern matcher: it holds no
/// backslash, which some targets read as a path separator and others as an
/// ordinary character.
pub open spec fn portable(s: Seq<char>) -> bool {
    !s.contains('\\')
}

/// Whether the glob `pattern` matches `path`; `None` when `pattern` is not
/// a well-formed glob.
pub uninterp spec fn glob_match(pattern: Seq<char>, path: Seq<char>) -> Option<bool>;

/// Compiles `pattern` with `glob::Pattern::new` and matches `path` against
/// it with `glob::Pattern::matches`, which uses the default options
/// (case-sensitive, wildcards may match separators and leading dots).
///
/// The result is named [`glob_match`]; it is `None` when the pattern does
/// not compile. Both texts must be free of backslashes, so that the matcher
/// treats them alike on every target.
#[verifier::external_body]
fn glob_matches(pattern: &str, path: &str) -> (r: Option<bool>)
    requires
        portable(pattern@),
        portable(path@),
    ensures
        r == glob_match(pattern@, path@),
{
    match glob::Pattern::new(pattern) {
        Ok(p) => Some(p.matches(path)),
        Err(_) => None,
    }
}

/// What matching `path` against `pattern` gives: whether it matches, or
/// `None` where the pattern holds a backslash or is not a well-formed glob.
pub open spec fn match_result(pattern: Seq<char>, path: Seq<char>) -> Option<bool> {
    if portable(pattern) {
        glob_match(pattern, path)
    } else {
        None
    }
}

/// What matching `path` against each of `patterns` gives.
pub open spec fn match_results(patterns: Seq<String>, path: Seq<char>) -> Seq<Option<bool>> {
    Seq::new(patterns.len(), |i: int| match_result(patterns[i]@, path))
}

/// What the matches against a list of patterns come to: `None` if one of
/// the patterns could not be matched, otherwise whether any of them
/// matched.
pub open spec fn folded(results: Seq<Option<bool>>) -> Option<bool> {
    if exists|i: int| 0 <= i < results.len() && #[trigger] results[i] is None {
        None
    } else {
        Some(exists|i: int| 0 <= i < results.len() && #[trigger] results[i] == Some(true))
    }
}

/// Executable form of [`folded`].
pub fn fold_matches(results: &Vec<Option<bool>>) -> (r: Option<bool>)
    ensures
        r == folded(results@),
{
    let mut hit = false;
    let mut i: usize = 0;
    while i < results.len()
        invariant
            i <= results.len(),
            forall|j: int| 0 <= j < i ==> (#[trigger] results@[j]) is Some,
            hit == exists|j: int| 0 <= j < i && #[trigger] results@[j] == Some(true),
        decreases results.len() - i,
    {
        match results[i] {
            None => {
                return None;
            },
            Some(m) => {
                if m {
                    hit = true;
                }
            },
        }
        i += 1;
    }
    Some(hit)
}

/// Whether a project covers a path, given what matching the path against
/// its excluding patterns and against its covering patterns came to: it
/// does when a covering pattern matched and no excluding pattern did.
/// `BadPattern` where a pattern could not be matched.
pub open spec fn verdict(excluded: Option<bool>, included: Option<bool>) -> Result<bool, Error> {
    match (excluded, included) {
        (Some(e), Some(i)) => Ok(!e && i),
        _ => Err(Error::BadPattern),
    }
}

/// Executable form of [`verdict`].
pub fn cover_verdict(excluded: Option<bool>, included: Option<bool>) -> (r: Result<bool, Error>)
    ensures
        r == verdict(excluded, included),
{
    match (excluded, included) {
        (Some(e), Some(i)) => Ok(!e && i),
        _ => Err(Error::BadPattern),
    }
}

/// Matches `path` against each pattern of the list.
fn scan_patterns(patterns: &Vec<String>, path: &str) -> (r: Vec<Option<bool>>)
    requires
        portable(path@),
    ensures
        r@ == match_results(patterns@, path@),
{
    let mut r: Vec<Option<bool>> = Vec::new();
    let mut i: usize = 0;
    while i < patterns.len()
        invariant
            i <= patterns.len(),
            portable(path@),
            r@.len() == i,
            forall|j: int| 0 <= j < i ==> #[trigger] r@[j] == match_result(patterns@[j]@, path@),
        decreases patterns.len() - i,
    {
        let p = patterns[i].as_str();
        if has_char(p, '\\') {
            r.push(None);
        } else {
            r.push(glob_matches(p, path));
        }
        i += 1;
    }
    assert(r@ =~= match_results(patterns@, path@));
    r
}

/// A unit of independent versioning within the repository.
#[derive(Clone, Debug)]
pub struct Project {
    pub id: ProjectId,
    pub name: String,
    /// The directory of the project, relative to the repository root.
    pub root: Option<String>,
    /// Globs for the paths that belong to the project.
    pub covers: Vec<String>,
    /// Globs for paths that do not belong to it even where `covers` match.
    pub excludes: Vec<String>,
    /// The projects it depends on, each at most once.
    pub depends: Vec<Dependency>,
    /// `None`: the project takes part in no tags.
    pub tag_prefix: Option<String>,
    pub tag_prefix_separator: String,
    /// The major numbers whose tags belong to the project; `None` for all.
    pub tag_majors: Option<Vec<u32>>,
    pub labels: Vec<String>,
    pub restrictions: Vec<Restriction>,
    /// Where the changelog goes, relative to the repository root.
    pub changelog: Option<String>,
}

impl Project {
    /// A project without coverage, dependencies, tags, labels or
    /// restrictions, with `-` as the separator after a tag prefix.
    pub fn new(id: ProjectId, name: String) -> (r: Project)
        ensures
            r.id == id,
            r.name == name,
            r.root is None,
            r.covers@.len() == 0,
            r.excludes@.len() == 0,
            r.depends@.len() == 0,
            r.tag_prefix is None,
            r.tag_prefix_separator@ == seq!['-'],
            r.tag_majors is None,
            r.labels@.len() == 0,
            r.restrictions@.len() == 0,
            r.changelog is None,
    {
        let mut sep = String::new();
        sep.push('-');
        assert(sep@ =~= seq!['-']);
        Project {
            id,
            name,
            root: None,
            covers: Vec::new(),
            excludes: Vec::new(),
            depends: Vec::new(),
            tag_prefix: None,
            tag_prefix_separator: sep,
            tag_majors: None,
            labels: Vec::new(),
            restrictions: Vec::new(),
            changelog: None,
        }
    }

    pub fn id(&self) -> (r: &ProjectId)
        ensures
            *r == self.id,
    {
        &self.id
    }

    pub fn name(&self) -> (r: &str)
        ensures
            r@ == self.name@,
    {
        self.name.as_str()
    }

    /// The name of the tag for the version `version` of the project: the
    /// version after a `v`, and before that the tag prefix and the
    /// separator unless the prefix is empty. A project without a tag prefix
    /// has no tags.
    pub open spec fn tag_name(&self, version: Seq<char>) -> Option<Seq<char>> {
        match self.tag_prefix {
            None => None,
            Some(p) => Some(
                if p@.len() == 0 {
                    "v"@ + version
                } else {
                    p@ + self.tag_prefix_separator@ + "v"@ + version
                },
            ),
        }
    }

    /// Executable form of [`Project::tag_name`].
    pub fn full_version(&self, version: &str) -> (r: Option<String>)
        ensures
            crate::changelog::opt_text(r) == self.tag_name(version@),
    {
        match &self.tag_prefix {
            None => None,
            Some(p) => {
                let mut s = String::new();
                if p.as_str().unicode_len() != 0 {
                    push_text(&mut s, p.as_str());
                    push_text(&mut s, self.tag_prefix_separator.as_str());
                }
                push_text(&mut s, "v");
                push_text(&mut s, version);
                assert(s@ =~= self.tag_name(version@)->0);
                Some(s)
            },
        }
    }

    /// Whether the project covers `path`.
    ///
    /// A path with a backslash is refused, and so is a project with a pattern
    /// that cannot be matched. Otherwise the project covers the path when
    /// some `covers` pattern matches it and no `excludes` pattern does.
    pub open spec fn covers_path(&self, path: Seq<char>) -> Result<bool, Error> {
        if !portable(path) {
            Err(Error::PathNotPortable)
        } else {
            verdict(
                folded(match_results(self.excludes@, path)),
                folded(match_results(self.covers@, path)),
            )
        }
    }

    /// Executable form of [`Project::covers_path`].
    pub fn does_cover(&self, path: &str) -> (r: Result<bool, Error>)
        ensures
            r == self.covers_path(path@),
    {
        if has_char(path, '\\') {
            return Err(Error::PathNotPortable);
        }
        let out = scan_patterns(&self.excludes, path);
        let inn = scan_patterns(&self.covers, path);
        cover_verdict(fold_matches(&out), fold_matches(&inn))
    }

    /// Whether the project depends on `id`.
    pub open spec fn depends_on(&self, id: ProjectId) -> bool {
        exists|k: int| 0 <= k < self.depends@.len() && (#[trigger] self.depends@[k]).on == id
    }

    /// Position of the first dependency on `id` among `depends`.
    pub open spec fn dep_pos(&self, id: ProjectId) -> int {
        choose|k: int|
            0 <= k < self.depends@.len() && (#[trigger] self.depends@[k]).on == id && forall|j: int|
                0 <= j < k ==> (#[trigger] self.depends@[j]).on != id
    }

    /// The edge to the upstream project `id`, if the project depends on it.
    pub open spec fn dependency_on(&self, id: ProjectId) -> Option<Depends> {
        if self.depends_on(id) {
            Some(self.depends@[self.dep_pos(id)].edge)
        } else {
            None
        }
    }

    /// No upstream project is listed twice.
    pub open spec fn deps_distinct(&self) -> bool {
        forall|i: int, j: int|
            0 <= i < j < self.depends@.len() ==> (#[trigger] self.depends@[i]).on != (
            #[trigger] self.depends@[j]).on
    }

    /// The edge to the upstream project `id`, if the project depends on it.
    ///
    /// Where `id` is listed more than once, the first entry counts.
    pub fn dependency(&self, id: &ProjectId) -> (r: Option<Depends>)
        ensures
            r == self.dependency_on(*id),
    {
        let mut i: usize = 0;
        while i < self.depends.len()
            invariant
                i <= self.depends.len(),
                forall|j: int| 0 <= j < i ==> (#[trigger] self.depends@[j]).on != *id,
            decreases self.depends.len() - i,
        {
            if self.depends[i].on == *id {
                proof {
                    assert(self.depends@[i as int].on == *id);
                    let c = self.dep_pos(*id);
                    if c < i {
                        assert(self.depends@[c].on != *id);
                    } else if c > i {
                        assert(self.depends@[i as int].on != *id);
                    }
                }
                return Some(self.depends[i].edge);
            }
            i += 1;
        }
        None
    }

    /// Whether every restriction of the project admits this major number.
    pub open spec fn admits(&self, major: u32) -> bool {
        forall|i: int|
            0 <= i < self.restrictions@.len() ==> (#[trigger] self.restrictions@[i]).admits(major)
    }

    /// Whether the project may take the version `text`: it has to be a
    /// version, and every restriction has to admit its major number.
    pub open spec fn verified(&self, text: Seq<char>) -> Result<(), Error> {
        match version_of(text) {
            None => Err(Error::VersionParse),
            Some(v) => if self.admits(v.major) {
                Ok(())
            } else {
                Err(Error::RestrictionViolation)
            },
        }
    }

    /// Executable form of [`Project::verified`].
    #[verifier::loop_isolation(false)]
    pub fn verify_restrictions(&self, text: &str) -> (r: Result<(), Error>)
        ensures
            r == self.verified(text@),
    {
        let v = match parse(text) {
            Some(v) => v,
            None => {
                return Err(Error::VersionParse);
            },
        };
        let mut i: usize = 0;
        while i < self.restrictions.len()
            invariant
                i <= self.restrictions.len(),
                forall|j: int| 0 <= j < i ==> (#[trigger] self.restrictions@[j]).admits(v.major),
            decreases self.restrictions.len() - i,
        {
            if !self.restrictions[i].allows(v.major) {
                assert(!self.restrictions@[i as int].admits(v.major));
                return Err(Error::RestrictionViolation);
            }
            i += 1;
        }
        Ok(())
    }
}

} // verus!
