//! Finding the version that each project was last tagged with.

use std::collections::HashMap;
use vstd::prelude::*;
use crate::config::ConfigFile;
use crate::error::Error;
use crate::number::{decimal, decimal_chars};
use crate::project::{Project, ProjectId};
use crate::repo::{Repo, TagRef};
use crate::text::{
    after_last, chars_of, contains_sub, find_after_last, find_sub, occurs_at, push_range,
    push_text, same_text, string_of_range,
};
use crate::version::{parse, version_of};

verus! {

broadcast use vstd::std_specs::hash::group_hash_axioms;

/// The texts of a run of strings.
pub open spec fn texts(v: Seq<String>) -> Seq<Seq<char>> {
    Seq::new(v.len(), |i: int| v[i]@)
}

/// The pattern for the version tags with the major number `m`.
pub open spec fn major_pattern(m: u32) -> Seq<char> {
    "v"@ + decimal(m as nat) + ".*"@
}

/// The patterns for the version part of a project's tags: one for each
/// major number that the project keeps to, or one for all versions.
pub open spec fn version_patterns(majors: Option<Vec<u32>>) -> Seq<Seq<char>> {
    match majors {
        Some(ms) => Seq::new(ms@.len(), |i: int| major_pattern(ms@[i])),
        None => seq!["v*"@],
    }
}

/// The patterns that the tags of a project match.
///
/// A project without a tag prefix has no tags. With the empty prefix the
/// tags are the bare version patterns; with any other prefix each version
/// pattern follows the prefix and the separator.
pub open spec fn tag_patterns(proj: Project) -> Seq<Seq<char>> {
    match proj.tag_prefix {
        None => Seq::empty(),
        Some(prefix) => {
            let vp = version_patterns(proj.tag_majors);
            if prefix@.len() == 0 {
                vp
            } else {
                Seq::new(vp.len(), |i: int| prefix@ + proj.tag_prefix_separator@ + vp[i])
            }
        },
    }
}

/// Executable form of [`tag_patterns`].
pub fn tag_fnmatches(proj: &Project) -> (r: Vec<String>)
    ensures
        texts(r@) == tag_patterns(*proj),
{
    let mut r: Vec<String> = Vec::new();
    let prefix = match &proj.tag_prefix {
        None => {
            assert(texts(r@) =~= tag_patterns(*proj));
            return r;
        },
        Some(p) => p,
    };
    let bare = prefix.as_str().unicode_len() == 0;
    let mut versions: Vec<String> = Vec::new();
    match &proj.tag_majors {
        Some(ms) => {
            let mut i: usize = 0;
            while i < ms.len()
                invariant
                    i <= ms.len(),
                    versions@.len() == i,
                    forall|j: int| 0 <= j < i ==> (#[trigger] versions@[j])@ == major_pattern(ms@[j]),
                decreases ms.len() - i,
            {
                let mut s = String::new();
                push_text(&mut s, "v");
                let d = decimal_chars(ms[i]);
                push_range(&mut s, &d, 0, d.len());
                push_text(&mut s, ".*");
                assert(d@.subrange(0, d@.len() as int) =~= d@);
                assert(s@ =~= major_pattern(ms@[i as int]));
                versions.push(s);
                i += 1;
            }
        },
        None => {
            let mut s = String::new();
            push_text(&mut s, "v*");
            assert(s@ =~= "v*"@);
            versions.push(s);
        },
    }
    assert(texts(versions@) =~= version_patterns(proj.tag_majors));
    if bare {
        return versions;
    }
    let ghost vp = texts(versions@);
    let mut i: usize = 0;
    while i < versions.len()
        invariant
            i <= versions.len(),
            vp == texts(versions@),
            r@.len() == i,
            forall|j: int|
                0 <= j < i ==> (#[trigger] r@[j])@ == prefix@ + proj.tag_prefix_separator@ + vp[j],
        decreases versions.len() - i,
    {
        let mut s = String::new();
        push_text(&mut s, prefix.as_str());
        push_text(&mut s, proj.tag_prefix_separator.as_str());
        push_text(&mut s, versions[i].as_str());
        assert(s@ =~= prefix@ + proj.tag_prefix_separator@ + vp[i as int]);
        r.push(s);
        i += 1;
    }
    assert(texts(r@) =~= tag_patterns(*proj));
    r
}

/// The version that a tag names, if it names one: what follows the last
/// `-` of the tag, or the whole tag if it has none, without its first
/// character, which is taken to be the `v`.
pub open spec fn tag_version(tag: Seq<char>) -> Option<Seq<char>> {
    let start = after_last(tag, '-') + 1;
    if start <= tag.len() && version_of(tag.skip(start)) is Some {
        Some(tag.skip(start))
    } else {
        None
    }
}

/// The versions that the tags name, in the order of the tags; tags that
/// name no version are left out.
pub open spec fn versions_of(tags: Seq<Seq<char>>) -> Seq<Seq<char>>
    decreases tags.len(),
{
    if tags.len() == 0 {
        Seq::empty()
    } else {
        match tag_version(tags.last()) {
            Some(v) => versions_of(tags.drop_last()).push(v),
            None => versions_of(tags.drop_last()),
        }
    }
}

/// Executable form of [`tag_version`].
pub fn version_of_tag(tag: &str) -> (r: Option<String>)
    ensures
        crate::changelog::opt_text(r) == tag_version(tag@),
{
    let v = chars_of(tag);
    let start: usize = find_after_last(&v, '-');
    if start >= v.len() {
        return None;
    }
    let s = string_of_range(&v, start + 1, v.len());
    assert(v@.subrange(start + 1, v@.len() as int) =~= v@.skip(start + 1));
    match parse(s.as_str()) {
        Some(_) => Some(s),
        None => None,
    }
}

/// Executable form of [`versions_of`].
pub fn tags_to_versions(tags: &[String]) -> (r: Vec<String>)
    ensures
        texts(r@) == versions_of(texts(tags@)),
{
    let ghost all = texts(tags@);
    let mut r: Vec<String> = Vec::new();
    let mut i: usize = 0;
    assert(all.take(0) =~= Seq::<Seq<char>>::empty());
    assert(texts(r@) =~= versions_of(all.take(0)));
    while i < tags.len()
        invariant
            i <= tags@.len(),
            all == texts(tags@),
            texts(r@) == versions_of(all.take(i as int)),
        decreases tags@.len() - i,
    {
        let ghost before = texts(r@);
        proof {
            let now = all.take(i + 1);
            assert(now.drop_last() =~= all.take(i as int));
            assert(now.last() == tags@[i as int]@);
        }
        match version_of_tag(tags[i].as_str()) {
            Some(v) => {
                r.push(v);
                assert(texts(r@) =~= before.push(v@));
            },
            None => {},
        }
        i += 1;
    }
    assert(all.take(tags@.len() as int) =~= all);
    r
}

/// The newest of the versions `vs`; of several that are equally new, the
/// first. `None` when there are none.
pub open spec fn best_of(vs: Seq<Seq<char>>) -> Option<Seq<char>>
    decreases vs.len(),
{
    if vs.len() == 0 {
        None
    } else {
        match best_of(vs.drop_last()) {
            None => Some(vs.last()),
            Some(b) => if version_of(b) is Some && version_of(vs.last()) is Some && version_of(
                b,
            )->0.before(version_of(vs.last())->0) {
                Some(vs.last())
            } else {
                Some(b)
            },
        }
    }
}

/// The newest of some versions is one of them, and none of them is newer.
pub proof fn law_best_is_newest(vs: Seq<Seq<char>>)
    requires
        vs.len() > 0,
        forall|i: int| 0 <= i < vs.len() ==> version_of(#[trigger] vs[i]) is Some,
    ensures
        best_of(vs) is Some,
        vs.contains(best_of(vs)->0),
        forall|i: int|
            0 <= i < vs.len() ==> !version_of(best_of(vs)->0)->0.before(
                version_of(#[trigger] vs[i])->0,
            ),
    decreases vs.len(),
{
    let rest = vs.drop_last();
    let last = vs.last();
    assert(vs[vs.len() - 1] == last);
    if rest.len() == 0 {
        assert(best_of(rest) is None);
    } else {
        assert forall|i: int| 0 <= i < rest.len() implies version_of(#[trigger] rest[i]) is Some by {
            assert(rest[i] == vs[i]);
        }
        law_best_is_newest(rest);
        let b = best_of(rest)->0;
        let k = choose|k: int| 0 <= k < rest.len() && rest[k] == b;
        assert(vs[k] == b);
        let best = best_of(vs)->0;
        assert forall|i: int| 0 <= i < vs.len() implies !version_of(best)->0.before(
            version_of(#[trigger] vs[i])->0,
        ) by {
            if i < rest.len() {
                assert(rest[i] == vs[i]);
                assert(!version_of(b)->0.before(version_of(rest[i])->0));
            }
        }
    }
}

/// The names of the tags that point to commit `oid`.
pub open spec fn names_at(tags: Seq<TagRef>, oid: Seq<char>) -> Seq<Seq<char>>
    decreases tags.len(),
{
    if tags.len() == 0 {
        Seq::empty()
    } else if tags.last().oid@ == oid {
        names_at(tags.drop_last(), oid).push(tags.last().name@)
    } else {
        names_at(tags.drop_last(), oid)
    }
}

/// The newest version that a tag on commit `oid` names.
pub open spec fn version_at(tags: Seq<TagRef>, oid: Seq<char>) -> Option<Seq<char>> {
    best_of(versions_of(names_at(tags, oid)))
}

/// The version of the first commit, from `from` on, that carries a tag
/// with a version.
pub open spec fn tagged_version(tags: Seq<TagRef>, commits: Seq<String>, from: int) -> Option<
    Seq<char>,
>
    decreases commits.len() - from,
{
    if from < 0 || from >= commits.len() {
        None
    } else {
        match version_at(tags, commits[from]@) {
            Some(v) => Some(v),
            None => tagged_version(tags, commits, from + 1),
        }
    }
}

/// The tags that the repository reports for the patterns, one pattern
/// after the other.
pub open spec fn pattern_tags(repo: Repo, patterns: Seq<Seq<char>>) -> Seq<TagRef>
    decreases patterns.len(),
{
    if patterns.len() == 0 {
        Seq::empty()
    } else {
        pattern_tags(repo, patterns.drop_last()) + repo.answer_of(patterns.last())
    }
}

/// Whether the repository answered for every pattern.
pub open spec fn all_answered(repo: Repo, patterns: Seq<Seq<char>>) -> bool {
    forall|i: int| 0 <= i < patterns.len() ==> repo.answered(#[trigger] patterns[i])
}

/// The text under key `k`, if the map has the key.
pub open spec fn text_at(m: Map<u32, String>, k: u32) -> Option<Seq<char>> {
    if m.contains_key(k) {
        Some(m[k]@)
    } else {
        None
    }
}

/// The version that the tags give project `proj`, if they give one.
pub open spec fn tag_version_of(repo: Repo, proj: Project) -> Option<Seq<char>> {
    tagged_version(pattern_tags(repo, tag_patterns(proj)), repo.commits_to_head@, 0)
}

/// The last known version of a project: that of the newest commit that
/// carries a tag of the project with a version, or else the version that
/// the last release recorded for it.
pub open spec fn current_version(repo: Repo, proj: Project) -> Option<Seq<char>> {
    match tag_version_of(repo, proj) {
        Some(v) => Some(v),
        None => text_at(repo.prev_versions@, proj.id.id),
    }
}

/// The versions that the projects were last known to have.
#[derive(Clone, Debug)]
pub struct OldTags {
    /// The last known version of each project.
    pub current: HashMap<u32, String>,
    /// The version of each project as of the last release.
    pub prev: HashMap<u32, String>,
}

impl OldTags {
    pub fn new(current: HashMap<u32, String>, prev: HashMap<u32, String>) -> (r: OldTags)
        ensures
            r.current == current,
            r.prev == prev,
    {
        OldTags { current, prev }
    }

    pub fn current(&self) -> (r: &HashMap<u32, String>)
        ensures
            *r == self.current,
    {
        &self.current
    }

    pub fn prev(&self) -> (r: &HashMap<u32, String>)
        ensures
            *r == self.prev,
    {
        &self.prev
    }
}

/// The newest of the versions, as [`best_of`] has it.
pub fn best_version(vs: &Vec<String>) -> (r: Option<String>)
    ensures
        crate::changelog::opt_text(r) == best_of(texts(vs@)),
{
    let ghost all = texts(vs@);
    let mut best: Option<usize> = None;
    let mut i: usize = 0;
    assert(all.take(0) =~= Seq::<Seq<char>>::empty());
    while i < vs.len()
        invariant
            i <= vs.len(),
            all == texts(vs@),
            match best {
                Some(b) => b < i && best_of(all.take(i as int)) == Some(all[b as int]),
                None => best_of(all.take(i as int)) is None,
            },
        decreases vs.len() - i,
    {
        proof {
            let now = all.take(i + 1);
            assert(now.drop_last() =~= all.take(i as int));
            assert(now.last() == vs@[i as int]@);
        }
        match best {
            None => {
                best = Some(i);
            },
            Some(b) => {
                match (parse(vs[b].as_str()), parse(vs[i].as_str())) {
                    (Some(x), Some(y)) => {
                        if x.is_older_than(&y) {
                            best = Some(i);
                        }
                    },
                    _ => {},
                }
            },
        }
        i += 1;
    }
    assert(all.take(vs@.len() as int) =~= all);
    match best {
        Some(b) => Some(vs[b].clone()),
        None => None,
    }
}

/// The names of the tags on a commit come tag list by tag list.
pub proof fn lemma_names_at_concat(a: Seq<TagRef>, b: Seq<TagRef>, oid: Seq<char>)
    ensures
        names_at(a + b, oid) == names_at(a, oid) + names_at(b, oid),
    decreases b.len(),
{
    if b.len() == 0 {
        assert(a + b =~= a);
        assert(names_at(a, oid) + names_at(b, oid) =~= names_at(a, oid));
    } else {
        assert((a + b).drop_last() =~= a + b.drop_last());
        assert((a + b).last() == b.last());
        lemma_names_at_concat(a, b.drop_last(), oid);
        if b.last().oid@ == oid {
            assert(names_at(a, oid) + names_at(b.drop_last(), oid).push(b.last().name@) =~= (names_at(
                a,
                oid,
            ) + names_at(b.drop_last(), oid)).push(b.last().name@));
        }
    }
}

/// Appends to `out` the names of the tags that point to commit `oid`.
fn push_names(tags: &Vec<TagRef>, oid: &str, out: &mut Vec<String>)
    ensures
        texts(final(out)@) == texts(old(out)@) + names_at(tags@, oid@),
{
    let ghost start = texts(out@);
    let mut i: usize = 0;
    assert(tags@.take(0) =~= Seq::<TagRef>::empty());
    assert(texts(out@) =~= start + names_at(tags@.take(0), oid@));
    while i < tags.len()
        invariant
            i <= tags.len(),
            texts(out@) == start + names_at(tags@.take(i as int), oid@),
        decreases tags.len() - i,
    {
        let ghost before = texts(out@);
        proof {
            let now = tags@.take(i + 1);
            assert(now.drop_last() =~= tags@.take(i as int));
            assert(now.last() == tags@[i as int]);
        }
        if same_text(tags[i].oid.as_str(), oid) {
            out.push(tags[i].name.clone());
            assert(texts(out@) =~= before.push(tags@[i as int].name@));
            assert(before.push(tags@[i as int].name@) =~= start + names_at(
                tags@.take(i as int),
                oid@,
            ).push(tags@[i as int].name@));
        }
        i += 1;
    }
    assert(tags@.take(tags@.len() as int) =~= tags@);
}

/// Whether the repository answered for every pattern.
pub fn answered_all(repo: &Repo, patterns: &Vec<String>) -> (r: bool)
    ensures
        r == all_answered(*repo, texts(patterns@)),
{
    let ghost ps = texts(patterns@);
    let mut i: usize = 0;
    while i < patterns.len()
        invariant
            i <= patterns.len(),
            ps == texts(patterns@),
            forall|j: int| 0 <= j < i ==> repo.answered(#[trigger] ps[j]),
        decreases patterns.len() - i,
    {
        assert(ps[i as int] == patterns@[i as int]@);
        if repo.tag_names(patterns[i].as_str()).is_none() {
            assert(!repo.answered(ps[i as int]));
            return false;
        }
        i += 1;
    }
    true
}

/// The newest version that a tag on commit `oid` names, among the tags
/// that the repository reports for the patterns.
pub fn version_at_commit(repo: &Repo, patterns: &Vec<String>, oid: &str) -> (r: Option<String>)
    requires
        all_answered(*repo, texts(patterns@)),
    ensures
        crate::changelog::opt_text(r) == version_at(pattern_tags(*repo, texts(patterns@)), oid@),
{
    let ghost ps = texts(patterns@);
    let mut names: Vec<String> = Vec::new();
    let mut i: usize = 0;
    assert(ps.take(0) =~= Seq::<Seq<char>>::empty());
    assert(texts(names@) =~= names_at(pattern_tags(*repo, ps.take(0)), oid@));
    while i < patterns.len()
        invariant
            i <= patterns.len(),
            ps == texts(patterns@),
            all_answered(*repo, ps),
            texts(names@) == names_at(pattern_tags(*repo, ps.take(i as int)), oid@),
        decreases patterns.len() - i,
    {
        proof {
            let now = ps.take(i + 1);
            assert(now.drop_last() =~= ps.take(i as int));
            assert(now.last() == patterns@[i as int]@);
            assert(repo.answered(ps[i as int]));
            lemma_names_at_concat(
                pattern_tags(*repo, ps.take(i as int)),
                repo.answer_of(patterns@[i as int]@),
                oid@,
            );
        }
        match repo.tag_names(patterns[i].as_str()) {
            Some(found) => {
                push_names(found, oid, &mut names);
            },
            None => {},
        }
        i += 1;
    }
    assert(ps.take(patterns@.len() as int) =~= ps);
    let versions = tags_to_versions(names.as_slice());
    best_version(&versions)
}

/// The version of the newest commit that carries a tag with a version.
pub fn newest_tagged(repo: &Repo, patterns: &Vec<String>, commits: &Vec<String>) -> (r: Option<String>)
    requires
        all_answered(*repo, texts(patterns@)),
    ensures
        crate::changelog::opt_text(r) == tagged_version(
            pattern_tags(*repo, texts(patterns@)),
            commits@,
            0,
        ),
{
    let ghost tags = pattern_tags(*repo, texts(patterns@));
    let mut i: usize = 0;
    while i < commits.len()
        invariant
            i <= commits.len(),
            all_answered(*repo, texts(patterns@)),
            tags == pattern_tags(*repo, texts(patterns@)),
            tagged_version(tags, commits@, 0) == tagged_version(tags, commits@, i as int),
        decreases commits.len() - i,
    {
        match version_at_commit(repo, patterns, commits[i].as_str()) {
            Some(v) => {
                return Some(v);
            },
            None => {},
        }
        i += 1;
    }
    None
}

/// Gives every project of `proj_ids` that `current` has no version for the
/// version that `prev` has for it, if it has one.
pub fn fill_from_prev(
    prev: &HashMap<u32, String>,
    proj_ids: &Vec<ProjectId>,
    current: &mut HashMap<u32, String>,
)
    ensures
        forall|k: u32|
            text_at(final(current)@, k) == if old(current)@.contains_key(k) {
                text_at(old(current)@, k)
            } else if listed(proj_ids@, k) {
                text_at(prev@, k)
            } else {
                None
            },
{
    let mut i: usize = 0;
    while i < proj_ids.len()
        invariant
            i <= proj_ids.len(),
            forall|k: u32|
                text_at(current@, k) == if old(current)@.contains_key(k) {
                    text_at(old(current)@, k)
                } else if listed(proj_ids@.take(i as int), k) {
                    text_at(prev@, k)
                } else {
                    None
                },
        decreases proj_ids.len() - i,
    {
        let id: u32 = proj_ids[i].id;
        let ghost before = current@;
        let ghost ids0 = proj_ids@.take(i as int);
        let ghost ids1 = proj_ids@.take(i + 1);
        if !current.contains_key(&id) {
            match prev.get(&id) {
                Some(tag) => {
                    current.insert(id, tag.clone());
                },
                None => {},
            }
        }
        proof {
            assert(ids1[i as int] == proj_ids@[i as int]);
            assert forall|k: u32| listed(ids1, k) == (listed(ids0, k) || k == id) by {
                if listed(ids0, k) {
                    let j = choose|j: int| 0 <= j < ids0.len() && (#[trigger] ids0[j]).id == k;
                    assert(ids1[j].id == k);
                }
                if listed(ids1, k) && k != id {
                    let j = choose|j: int| 0 <= j < ids1.len() && (#[trigger] ids1[j]).id == k;
                    assert(ids0[j].id == k);
                }
                if k == id {
                    assert(ids1[i as int].id == k);
                }
            }
            assert forall|k: u32|
                text_at(current@, k) == if old(current)@.contains_key(k) {
                    text_at(old(current)@, k)
                } else if listed(ids1, k) {
                    text_at(prev@, k)
                } else {
                    None
                } by {
                assert(listed(ids1, k) == (listed(ids0, k) || k == id));
                assert(text_at(before, k) == if old(current)@.contains_key(k) {
                    text_at(old(current)@, k)
                } else if listed(ids0, k) {
                    text_at(prev@, k)
                } else {
                    None
                });
                if k != id {
                    assert(text_at(current@, k) == text_at(before, k));
                }
            }
        }
        i += 1;
    }
    assert(proj_ids@.take(proj_ids@.len() as int) =~= proj_ids@);
}

/// Whether `k` is the number of one of the identifiers.
pub open spec fn listed(ids: Seq<ProjectId>, k: u32) -> bool {
    exists|j: int| 0 <= j < ids.len() && (#[trigger] ids[j]).id == k
}

/// The mark that opens the signature at the end of a signed annotation.
pub open spec fn signature_mark() -> Seq<char> {
    "\n-----BEGIN PGP SIGNATURE-----"@
}

/// Where the signature of a signed annotation begins: the first place at
/// which the mark occurs.
pub open spec fn signature_start(anno: Seq<char>) -> int {
    choose|at: int|
        occurs_at(anno, signature_mark(), at) && forall|k: int|
            0 <= k < at ==> !occurs_at(anno, signature_mark(), k)
}

/// The annotation without its signature: what stands before the first
/// mark, or all of it where there is no mark.
pub open spec fn clipped(anno: Seq<char>) -> Seq<char> {
    if contains_sub(anno, signature_mark()) {
        anno.take(signature_start(anno))
    } else {
        anno
    }
}

/// Executable form of [`clipped`].
pub fn clip_signature(anno: &str) -> (r: String)
    ensures
        r@ == clipped(anno@),
{
    let hay = chars_of(anno);
    let mark = chars_of("\n-----BEGIN PGP SIGNATURE-----");
    match find_sub(&hay, &mark) {
        Some(at) => {
            proof {
                let c = signature_start(anno@);
                if c < at {
                    assert(!occurs_at(hay@, mark@, c));
                } else if c > at {
                    assert(!occurs_at(anno@, signature_mark(), at as int));
                }
                assert(hay@.subrange(0, at as int) =~= anno@.take(at as int));
            }
            string_of_range(&hay, 0, at)
        },
        None => {
            let r = string_of_range(&hay, 0, hay.len());
            assert(hay@.subrange(0, hay@.len() as int) =~= hay@);
            r
        },
    }
}

/// Whether the repository was not asked about some tag pattern of some
/// project.
pub open spec fn tags_unresolved(file: ConfigFile, repo: Repo) -> bool {
    exists|i: int|
        0 <= i < file.projects@.len() && !all_answered(repo, tag_patterns(#[trigger] file.projects@[i]))
}

/// Whether `old` records the last known versions of the projects of
/// `file`: for every project its current version, for nothing else a
/// version, and as versions of the last release those that its tag records.
pub open spec fn records_tags(file: ConfigFile, repo: Repo, old: OldTags) -> bool {
    &&& old.prev@ == repo.prev_versions@
    &&& forall|i: int|
        0 <= i < file.projects@.len() ==> text_at(old.current@, (#[trigger] file.projects@[i]).id.id)
            == current_version(repo, file.projects@[i])
    &&& forall|k: u32| old.current@.contains_key(k) ==> file.has(ProjectId { id: k })
}

/// Works out the last known version of every project.
///
/// Fails with `TagResolve` exactly when the repository was not asked about
/// one of the patterns of the projects.
pub fn find_old_tags(file: &ConfigFile, repo: &Repo) -> (r: Result<OldTags, Error>)
    requires
        file.wf(),
    ensures
        match r {
            Ok(old) => !tags_unresolved(*file, *repo) && records_tags(*file, *repo, old),
            Err(e) => e == Error::TagResolve && tags_unresolved(*file, *repo),
        },
{
    let n: usize = file.projects.len();
    let mut current: HashMap<u32, String> = HashMap::new();
    let mut ids: Vec<ProjectId> = Vec::new();
    let mut i: usize = 0;
    while i < n
        invariant
            crate::config::distinct_ids(file.projects@),
            n == file.projects@.len(),
            i <= n,
            ids@.len() == i,
            forall|j: int| 0 <= j < i ==> (#[trigger] ids@[j]) == file.projects@[j].id,
            forall|j: int|
                0 <= j < i ==> all_answered(*repo, tag_patterns(#[trigger] file.projects@[j])),
            forall|j: int|
                0 <= j < i ==> text_at(current@, (#[trigger] file.projects@[j]).id.id)
                    == tag_version_of(*repo, file.projects@[j]),
            forall|k: u32| current@.contains_key(k) ==> listed(ids@, k),
        decreases n - i,
    {
        let proj = &file.projects[i];
        let patterns = tag_fnmatches(proj);
        if !answered_all(repo, &patterns) {
            return Err(Error::TagResolve);
        }
        let ghost before = current@;
        let ghost ids0 = ids@;
        match newest_tagged(repo, &patterns, &repo.commits_to_head) {
            Some(v) => {
                current.insert(proj.id.id, v);
            },
            None => {},
        }
        ids.push(proj.id);
        proof {
            assert(!before.contains_key(proj.id.id)) by {
                if before.contains_key(proj.id.id) {
                    assert(listed(ids0, proj.id.id));
                    let j = choose|j: int| 0 <= j < ids0.len() && (#[trigger] ids0[j]).id == proj.id.id;
                    assert(file.projects@[j].id == ids0[j]);
                    assert(file.projects@[j].id != file.projects@[i as int].id);
                }
            }
            assert forall|j: int| 0 <= j < i + 1 implies text_at(
                current@,
                (#[trigger] file.projects@[j]).id.id,
            ) == tag_version_of(*repo, file.projects@[j]) by {
                if j < i {
                    assert(file.projects@[j].id != file.projects@[i as int].id);
                    assert(text_at(before, file.projects@[j].id.id) == tag_version_of(
                        *repo,
                        file.projects@[j],
                    ));
                }
            }
            assert forall|k: u32| current@.contains_key(k) implies listed(ids@, k) by {
                if k == proj.id.id {
                    assert(ids@[i as int].id == k);
                } else {
                    assert(before.contains_key(k));
                    assert(listed(ids0, k));
                    let j = choose|j: int| 0 <= j < ids0.len() && (#[trigger] ids0[j]).id == k;
                    assert(ids@[j] == ids0[j]);
                }
            }
        }
        i += 1;
    }
    let prev = repo.prev_versions.clone();
    let ghost tagged = current@;
    fill_from_prev(&prev, &ids, &mut current);
    proof {
        assert forall|j: int| 0 <= j < n implies text_at(current@, (#[trigger] file.projects@[j]).id.id)
            == current_version(*repo, file.projects@[j]) by {
            let k = file.projects@[j].id.id;
            assert(ids@[j].id == k);
            assert(listed(ids@, k));
            assert(text_at(tagged, k) == tag_version_of(*repo, file.projects@[j]));
        }
        assert forall|k: u32| current@.contains_key(k) implies file.has(ProjectId { id: k }) by {
            assert(text_at(current@, k) is Some);
            if tagged.contains_key(k) {
                assert(listed(ids@, k));
            }
            assert(listed(ids@, k));
            let j = choose|j: int| 0 <= j < ids@.len() && (#[trigger] ids@[j]).id == k;
            assert(file.projects@[j].id == ProjectId { id: k });
        }
    }
    Ok(OldTags::new(current, prev))
}

} // verus!
