//! The configuration of a repository: its projects and the sizes that the
//! kinds of change stand for.

use vstd::prelude::*;
use crate::error::Error;
use crate::project::{Project, ProjectId};
use crate::size::Size;
use crate::text::{contains_sub, text_contains, same_text};

verus! {

/// The size that one kind of change stands for.
#[derive(Clone, Debug)]
pub struct SizeRule {
    pub kind: String,
    pub size: Size,
}

/// The sizes of the kinds of change, with a default for every kind that is
/// not listed.
#[derive(Clone, Debug)]
pub struct SizeRules {
    pub rules: Vec<SizeRule>,
    pub default: Size,
}

/// The size of the first rule for `kind`, or `default` when no rule names it.
pub open spec fn lookup(rules: Seq<SizeRule>, kind: Seq<char>, default: Size) -> Size
    decreases rules.len(),
{
    if rules.len() == 0 {
        default
    } else if rules[0].kind@ == kind {
        rules[0].size
    } else {
        lookup(rules.drop_first(), kind, default)
    }
}

impl SizeRules {
    /// The size of a change of the given kind. A change without a kind, one
    /// whose message does not follow the conventional form, is a `Failure`.
    pub open spec fn size_of(&self, kind: Option<Seq<char>>) -> Size {
        match kind {
            None => Size::Failure,
            Some(k) => lookup(self.rules@, k, self.default),
        }
    }

    /// Rules that give every kind the size `default`.
    pub fn new(default: Size) -> (r: SizeRules)
        ensures
            r.rules@.len() == 0,
            r.default == default,
    {
        SizeRules { rules: Vec::new(), default }
    }

    /// Adds a rule after the ones that are there; it counts for `kind`
    /// unless an earlier rule names the same kind.
    pub fn add(&mut self, kind: String, size: Size)
        ensures
            final(self).rules@ == old(self).rules@.push(SizeRule { kind, size }),
            final(self).default == old(self).default,
    {
        self.rules.push(SizeRule { kind, size });
    }

    /// Executable form of [`SizeRules::size_of`].
    #[verifier::loop_isolation(false)]
    pub fn size_for(&self, kind: &Option<String>) -> (r: Size)
        ensures
            r == self.size_of(crate::changelog::opt_text(*kind)),
    {
        match kind {
            None => Size::Failure,
            Some(k) => {
                let mut i: usize = 0;
                assert(self.rules@.skip(0) =~= self.rules@);
                while i < self.rules.len()
                    invariant
                        i <= self.rules.len(),
                        lookup(self.rules@, k@, self.default) == lookup(
                            self.rules@.skip(i as int),
                            k@,
                            self.default,
                        ),
                    decreases self.rules.len() - i,
                {
                    proof {
                        let rest = self.rules@.skip(i as int);
                        assert(rest[0] == self.rules@[i as int]);
                        assert(rest.drop_first() =~= self.rules@.skip(i + 1));
                    }
                    if self.rules[i].kind == *k {
                        assert(lookup(self.rules@.skip(i as int), k@, self.default)
                            == self.rules@[i as int].size);
                        return self.rules[i].size;
                    }
                    i += 1;
                }
                self.default
            },
        }
    }
}

/// Whether some project of the list has the identifier `id`.
pub open spec fn has_id(projects: Seq<Project>, id: ProjectId) -> bool {
    exists|i: int| 0 <= i < projects.len() && #[trigger] projects[i].id == id
}

/// No two projects of the list have the same identifier.
pub open spec fn distinct_ids(projects: Seq<Project>) -> bool {
    forall|i: int, j: int|
        0 <= i < j < projects.len() ==> #[trigger] projects[i].id != #[trigger] projects[j].id
}

/// Every dependency of project `p` names a project of the list, and none is
/// listed twice.
pub open spec fn deps_resolve(projects: Seq<Project>, p: Project) -> bool {
    &&& p.deps_distinct()
    &&& forall|k: int| 0 <= k < p.depends@.len() ==> has_id(projects, (#[trigger] p.depends@[k]).on)
}

/// The configuration file of a repository.
#[derive(Clone, Debug)]
pub struct ConfigFile {
    pub projects: Vec<Project>,
    pub sizes: SizeRules,
    /// The tag whose annotation records the versions of the last release.
    pub prev_tag: String,
    /// The branch that releases are made from, if only one is allowed.
    pub branch: Option<String>,
}

impl ConfigFile {
    /// Project identifiers are unique, and every dependency names a project
    /// of this configuration, once.
    pub open spec fn wf(&self) -> bool {
        &&& distinct_ids(self.projects@)
        &&& forall|i: int|
            0 <= i < self.projects@.len() ==> deps_resolve(self.projects@, #[trigger] self.projects@[i])
    }

    /// Whether the configuration has a project `id`.
    pub open spec fn has(&self, id: ProjectId) -> bool {
        has_id(self.projects@, id)
    }

    /// Position of the project `id`.
    pub open spec fn index_of(&self, id: ProjectId) -> int {
        choose|i: int| 0 <= i < self.projects@.len() && #[trigger] self.projects@[i].id == id
    }

    pub fn projects(&self) -> (r: &Vec<Project>)
        ensures
            *r == self.projects,
    {
        &self.projects
    }

    pub fn sizes(&self) -> (r: &SizeRules)
        ensures
            *r == self.sizes,
    {
        &self.sizes
    }

    pub fn prev_tag(&self) -> (r: &str)
        ensures
            r@ == self.prev_tag@,
    {
        self.prev_tag.as_str()
    }

    pub fn branch(&self) -> (r: &Option<String>)
        ensures
            *r == self.branch,
    {
        &self.branch
    }

    /// Position of the first project with the identifier `id`.
    pub fn position(&self, id: &ProjectId) -> (r: Option<usize>)
        ensures
            r is Some == self.has(*id),
            r is Some ==> r->0 < self.projects@.len() && self.projects@[r->0 as int].id == *id
                && forall|j: int| 0 <= j < r->0 ==> self.projects@[j].id != *id,
            r is Some && distinct_ids(self.projects@) ==> r->0 == self.index_of(*id),
    {
        let mut i: usize = 0;
        while i < self.projects.len()
            invariant
                i <= self.projects.len(),
                forall|j: int| 0 <= j < i ==> self.projects@[j].id != *id,
            decreases self.projects.len() - i,
        {
            if self.projects[i].id == *id {
                proof {
                    if distinct_ids(self.projects@) {
                        let c = self.index_of(*id);
                        if c < i {
                            assert(self.projects@[c].id != self.projects@[i as int].id);
                        } else if c > i {
                            assert(self.projects@[i as int].id != self.projects@[c].id);
                        }
                    }
                }
                return Some(i);
            }
            i += 1;
        }
        None
    }

    /// The first project with the identifier `id`.
    pub fn get_project(&self, id: &ProjectId) -> (r: Option<&Project>)
        ensures
            r is Some == self.has(*id),
            r is Some ==> r->0.id == *id && self.projects@.contains(*r->0),
            r is Some && distinct_ids(self.projects@) ==> *r->0 == self.projects@[self.index_of(*id)],
    {
        match self.position(id) {
            Some(i) => {
                assert(self.projects@[i as int] == self.projects@[i as int]);
                Some(&self.projects[i])
            },
            None => None,
        }
    }

    /// Executable test of [`ConfigFile::wf`].
    pub fn is_valid(&self) -> (r: bool)
        ensures
            r == self.wf(),
    {
        let n: usize = self.projects.len();
        let mut i: usize = 0;
        while i < n
            invariant
                n == self.projects@.len(),
                i <= n,
                forall|a: int, b: int|
                    0 <= a < b < n && a < i ==> #[trigger] self.projects@[a].id
                        != #[trigger] self.projects@[b].id,
                forall|a: int| 0 <= a < i ==> deps_resolve(self.projects@, #[trigger] self.projects@[a]),
            decreases n - i,
        {
            let mut j: usize = i + 1;
            while j < n
                invariant
                    n == self.projects@.len(),
                    i < j <= n,
                    forall|b: int| i < b < j ==> self.projects@[i as int].id != #[trigger] self.projects@[b].id,
                decreases n - j,
            {
                if self.projects[i].id == self.projects[j].id {
                    return false;
                }
                j += 1;
            }
            if !self.deps_ok(i) {
                return false;
            }
            i += 1;
        }
        true
    }

    #[verifier::loop_isolation(false)]
    fn deps_ok(&self, i: usize) -> (r: bool)
        requires
            i < self.projects@.len(),
        ensures
            r == deps_resolve(self.projects@, self.projects@[i as int]),
    {
        let p = &self.projects[i];
        let m: usize = p.depends.len();
        let mut k: usize = 0;
        while k < m
            invariant
                m == p.depends@.len(),
                k <= m,
                forall|a: int, b: int|
                    0 <= a < b < m && a < k ==> (#[trigger] p.depends@[a]).on != (
                    #[trigger] p.depends@[b]).on,
                forall|a: int| 0 <= a < k ==> has_id(self.projects@, (#[trigger] p.depends@[a]).on),
            decreases m - k,
        {
            if self.position(&p.depends[k].on).is_none() {
                assert(!has_id(self.projects@, p.depends@[k as int].on));
                return false;
            }
            let mut l: usize = k + 1;
            while l < m
                invariant
                    m == p.depends@.len(),
                    k < l <= m,
                    forall|b: int| k < b < l ==> p.depends@[k as int].on != (#[trigger] p.depends@[b]).on,
                decreases m - l,
            {
                if p.depends[k].on == p.depends[l].on {
                    assert(p.depends@[k as int].on == p.depends@[l as int].on);
                    return false;
                }
                l += 1;
            }
            k += 1;
        }
        true
    }

    /// Whether project `i` has `part` somewhere in its name.
    pub open spec fn name_holds(&self, i: int, part: Seq<char>) -> bool {
        contains_sub(self.projects@[i].name@, part)
    }

    /// The one project whose name holds `part`.
    ///
    /// Fails with `NoSuchProject` when no name holds it, and with
    /// `AmbiguousProject` when two or more do.
    pub fn find_unique(&self, part: &str) -> (r: Result<ProjectId, Error>)
        ensures
            match r {
                Ok(id) => exists|i: int|
                    0 <= i < self.projects@.len() && self.projects@[i].id == id && self.name_holds(
                        i,
                        part@,
                    ) && forall|j: int|
                        0 <= j < self.projects@.len() && j != i ==> !self.name_holds(j, part@),
                Err(e) => if e == Error::NoSuchProject {
                    forall|j: int| 0 <= j < self.projects@.len() ==> !self.name_holds(j, part@)
                } else {
                    e == Error::AmbiguousProject && exists|i: int, j: int|
                        0 <= i < j < self.projects@.len() && self.name_holds(i, part@)
                            && self.name_holds(j, part@)
                },
            },
    {
        let mut found: Option<usize> = None;
        let mut i: usize = 0;
        while i < self.projects.len()
            invariant
                i <= self.projects.len(),
                match found {
                    Some(f) => f < i && self.name_holds(f as int, part@) && forall|j: int|
                        0 <= j < i && j != f ==> !self.name_holds(j, part@),
                    None => forall|j: int| 0 <= j < i ==> !self.name_holds(j, part@),
                },
            decreases self.projects.len() - i,
        {
            if text_contains(self.projects[i].name(), part) {
                match found {
                    Some(f) => {
                        assert(self.name_holds(f as int, part@) && self.name_holds(i as int, part@));
                        return Err(Error::AmbiguousProject);
                    },
                    None => {
                        found = Some(i);
                    },
                }
            }
            i += 1;
        }
        match found {
            Some(f) => Ok(self.projects[f].id),
            None => Err(Error::NoSuchProject),
        }
    }

    /// The one project whose name is `name`.
    ///
    /// Fails with `NoSuchProject` when no project has the name, and with
    /// `AmbiguousProject` when two or more have it.
    pub fn find_exact(&self, name: &str) -> (r: Result<ProjectId, Error>)
        ensures
            match r {
                Ok(id) => exists|i: int|
                    0 <= i < self.projects@.len() && self.projects@[i].id == id
                        && self.projects@[i].name@ == name@ && forall|j: int|
                        0 <= j < self.projects@.len() && j != i ==> self.projects@[j].name@
                            != name@,
                Err(e) => if e == Error::NoSuchProject {
                    forall|j: int| 0 <= j < self.projects@.len() ==> self.projects@[j].name@ != name@
                } else {
                    e == Error::AmbiguousProject && exists|i: int, j: int|
                        0 <= i < j < self.projects@.len() && self.projects@[i].name@ == name@
                            && self.projects@[j].name@ == name@
                },
            },
    {
        let mut found: Option<usize> = None;
        let mut i: usize = 0;
        while i < self.projects.len()
            invariant
                i <= self.projects.len(),
                match found {
                    Some(f) => f < i && self.projects@[f as int].name@ == name@ && forall|j: int|
                        0 <= j < i && j != f ==> self.projects@[j].name@ != name@,
                    None => forall|j: int| 0 <= j < i ==> self.projects@[j].name@ != name@,
                },
            decreases self.projects.len() - i,
        {
            if same_text(self.projects[i].name(), name) {
                match found {
                    Some(f) => {
                        assert(self.projects@[f as int].name@ == name@ && self.projects@[i as int].name@
                            == name@);
                        return Err(Error::AmbiguousProject);
                    },
                    None => {
                        found = Some(i);
                    },
                }
            }
            i += 1;
        }
        match found {
            Some(f) => Ok(self.projects[f].id),
            None => Err(Error::NoSuchProject),
        }
    }
}

} // verus!
