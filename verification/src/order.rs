//! Putting a changelog in display order and marking the commits that it
//! holds more than once.

use vstd::prelude::*;
use crate::changelog::{
    commit_views, entry_views, Changelog, ChangelogEntry, CommitView, EntryView, LoggedPr, PrView,
};
use crate::number::decimal_chars;
use crate::project::ProjectId;
use crate::size::Size;
use crate::text::{lemma_lex_asymmetric, lemma_lex_between, lex_before, lex_lt};

verus! {

/// Whether entry `a` has to stand before entry `b`.
///
/// Upstream projects stand before pull requests. Among themselves upstream
/// projects go by their identifiers read as text, in dictionary order, and
/// pull requests by discovery, the latest first.
pub open spec fn precedes(a: EntryView, b: EntryView) -> bool {
    match (a, b) {
        (EntryView::Dep(i, _), EntryView::Dep(j, _)) => lex_lt(i.text(), j.text()),
        (EntryView::Dep(_, _), EntryView::Pr(_, _)) => true,
        (EntryView::Pr(_, _), EntryView::Dep(_, _)) => false,
        (EntryView::Pr(p, _), EntryView::Pr(q, _)) => p.discovery_order > q.discovery_order,
    }
}

pub proof fn lemma_precedes_asymmetric(a: EntryView, b: EntryView)
    requires
        precedes(a, b),
    ensures
        !precedes(b, a),
{
    match (a, b) {
        (EntryView::Dep(i, _), EntryView::Dep(j, _)) => {
            lemma_lex_asymmetric(i.text(), j.text());
        },
        _ => {},
    }
}

pub proof fn lemma_precedes_between(a: EntryView, b: EntryView, c: EntryView)
    requires
        precedes(a, c),
    ensures
        precedes(a, b) || precedes(b, c),
{
    match (a, b, c) {
        (EntryView::Dep(i, _), EntryView::Dep(j, _), EntryView::Dep(k, _)) => {
            lemma_lex_between(i.text(), j.text(), k.text());
        },
        _ => {},
    }
}

/// `q` lists each of the positions `base .. n` exactly once.
pub open spec fn arranges(q: Seq<int>, base: int, n: int) -> bool {
    &&& q.len() == n - base
    &&& forall|k: int| 0 <= k < q.len() ==> base <= #[trigger] q[k] < n
    &&& forall|k: int, l: int| 0 <= k < l < q.len() ==> q[k] != q[l]
    &&& forall|x: int| base <= x < n ==> #[trigger] q.contains(x)
}

/// `r` holds the entries `s[base..]`, entry `k` of `r` being entry `q[k]` of
/// `s`, in display order, with entries that tie kept in the order they have
/// in `s`.
pub open spec fn sorted_by(r: Seq<EntryView>, s: Seq<EntryView>, q: Seq<int>, base: int) -> bool {
    &&& 0 <= base <= s.len()
    &&& r.len() == q.len()
    &&& arranges(q, base, s.len() as int)
    &&& forall|k: int| 0 <= k < r.len() ==> #[trigger] r[k] == s[q[k]]
    &&& forall|k: int, l: int| 0 <= k < l < r.len() ==> !precedes(#[trigger] r[l], #[trigger] r[k])
    &&& forall|k: int, l: int|
        0 <= k < l < r.len() && !precedes(r[k], r[l]) ==> #[trigger] q[k] < #[trigger] q[l]
}

/// `r` is `s` in display order, entries that tie keeping their order.
pub open spec fn is_stable_sort(r: Seq<EntryView>, s: Seq<EntryView>) -> bool {
    exists|q: Seq<int>| sorted_by(r, s, q, 0)
}

proof fn lemma_insert_sorted(
    r: Seq<EntryView>,
    s: Seq<EntryView>,
    q: Seq<int>,
    base: int,
    pos: int,
)
    requires
        sorted_by(r, s, q, base),
        base > 0,
        0 <= pos <= r.len(),
        forall|k: int| 0 <= k < pos ==> precedes(#[trigger] r[k], s[base - 1]),
        pos < r.len() ==> !precedes(r[pos], s[base - 1]),
    ensures
        sorted_by(r.insert(pos, s[base - 1]), s, q.insert(pos, base - 1), base - 1),
{
    let x = s[base - 1];
    let r2 = r.insert(pos, x);
    let q2 = q.insert(pos, base - 1);
    assert forall|k: int| 0 <= k < r2.len() implies #[trigger] r2[k] == s[q2[k]] by {
        if k > pos {
            assert(r2[k] == r[k - 1]);
        }
    }
    assert forall|l: int| pos <= l < r.len() implies !precedes(#[trigger] r[l], x) by {
        if l > pos && precedes(r[l], x) {
            lemma_precedes_between(r[l], r[pos], x);
        }
    }
    assert forall|k: int, l: int| 0 <= k < l < r2.len() implies !precedes(
        #[trigger] r2[l],
        #[trigger] r2[k],
    ) by {
        if l == pos {
            assert(precedes(r[k], x));
            lemma_precedes_asymmetric(r[k], x);
        } else if k == pos {
            assert(r2[l] == r[l - 1]);
        } else if l < pos {
        } else if k < pos {
            assert(r2[l] == r[l - 1]);
        } else {
            assert(r2[l] == r[l - 1]);
            assert(r2[k] == r[k - 1]);
        }
    }
    assert forall|k: int, l: int|
        0 <= k < l < r2.len() && !precedes(r2[k], r2[l]) implies #[trigger] q2[k] < #[trigger] q2[l] by {
        if l == pos {
            assert(precedes(r[k], x));
        } else if k == pos {
            assert(q2[l] == q[l - 1]);
        } else if l < pos {
        } else if k < pos {
            assert(r2[l] == r[l - 1]);
            assert(q2[l] == q[l - 1]);
        } else {
            assert(r2[l] == r[l - 1]);
            assert(r2[k] == r[k - 1]);
            assert(q2[l] == q[l - 1]);
            assert(q2[k] == q[k - 1]);
        }
    }
    assert forall|k: int| 0 <= k < q2.len() implies base - 1 <= #[trigger] q2[k] < s.len() by {
        if k > pos {
            assert(q2[k] == q[k - 1]);
        }
    }
    assert forall|k: int, l: int| 0 <= k < l < q2.len() implies q2[k] != q2[l] by {
        if k > pos {
            assert(q2[k] == q[k - 1]);
        }
        if l > pos {
            assert(q2[l] == q[l - 1]);
        }
    }
    assert forall|x: int| base - 1 <= x < s.len() implies #[trigger] q2.contains(x) by {
        if x == base - 1 {
            assert(q2[pos] == x);
        } else {
            assert(q.contains(x));
            let k = choose|k: int| 0 <= k < q.len() && q[k] == x;
            if k < pos {
                assert(q2[k] == x);
            } else {
                assert(q2[k + 1] == x);
            }
        }
    }
}

/// Whether the identifier `a`, read as text, comes before `b` in dictionary
/// order.
pub fn id_text_before(a: ProjectId, b: ProjectId) -> (r: bool)
    ensures
        r == lex_lt(a.text(), b.text()),
{
    let x = decimal_chars(a.id);
    let y = decimal_chars(b.id);
    lex_before(&x, &y)
}

/// Executable form of [`precedes`].
pub fn stands_before(a: &ChangelogEntry, b: &ChangelogEntry) -> (r: bool)
    ensures
        r == precedes(a@, b@),
{
    match a {
        ChangelogEntry::Dep(i, _) => match b {
            ChangelogEntry::Dep(j, _) => id_text_before(*i, *j),
            ChangelogEntry::Pr(_, _) => true,
        },
        ChangelogEntry::Pr(p, _) => match b {
            ChangelogEntry::Dep(_, _) => false,
            ChangelogEntry::Pr(q, _) => p.discovery_order > q.discovery_order,
        },
    }
}

/// Puts the entries in display order; entries that tie keep their order.
pub fn sort_entries(entries: Vec<ChangelogEntry>) -> (r: Vec<ChangelogEntry>)
    ensures
        is_stable_sort(entry_views(r@), entry_views(entries@)),
{
    let ghost s = entry_views(entries@);
    let mut rest = entries;
    let mut out: Vec<ChangelogEntry> = Vec::new();
    let ghost mut q: Seq<int> = Seq::empty();
    while rest.len() > 0
        invariant
            rest@.len() <= s.len(),
            entry_views(rest@) =~= s.take(rest@.len() as int),
            sorted_by(entry_views(out@), s, q, rest@.len() as int),
        decreases rest.len(),
    {
        let ghost before = rest@;
        let x = rest.pop().unwrap();
        let ghost base = before.len() as int;
        assert(x@ == s[base - 1]) by {
            assert(entry_views(before)[base - 1] == x@);
        }
        let mut pos: usize = 0;
        while pos < out.len() && stands_before(&out[pos], &x)
            invariant
                pos <= out.len(),
                forall|k: int| 0 <= k < pos ==> precedes(#[trigger] entry_views(out@)[k], x@),
            decreases out.len() - pos,
        {
            pos += 1;
        }
        proof {
            lemma_insert_sorted(entry_views(out@), s, q, base, pos as int);
            q = q.insert(pos as int, base - 1);
        }
        let ghost prior = entry_views(out@);
        out.insert(pos, x);
        proof {
            assert(entry_views(out@) =~= prior.insert(pos as int, s[base - 1]));
            assert(entry_views(rest@) =~= s.take(rest@.len() as int)) by {
                assert forall|k: int| 0 <= k < rest@.len() implies entry_views(rest@)[k] == s[k] by {
                    assert(entry_views(before)[k] == s.take(before.len() as int)[k]);
                }
            }
        }
    }
    out
}

/// The commit identifiers among `cs`.
pub open spec fn commit_oids(cs: Seq<CommitView>) -> Set<Seq<char>> {
    Set::new(|o: Seq<char>| exists|j: int| 0 <= j < cs.len() && #[trigger] cs[j].oid == o)
}

/// The commit identifiers that an entry holds.
pub open spec fn entry_oids(e: EntryView) -> Set<Seq<char>> {
    match e {
        EntryView::Pr(pr, _) => commit_oids(pr.commits),
        EntryView::Dep(_, _) => Set::empty(),
    }
}

/// The commit identifiers that the entries before position `k` hold.
pub open spec fn seen_before(es: Seq<EntryView>, k: int) -> Set<Seq<char>> {
    Set::new(
        |o: Seq<char>| exists|i: int| 0 <= i < k && i < es.len() && #[trigger] entry_oids(es[i]).contains(o),
    )
}

/// The commits `cs` with every commit marked as a duplicate whose
/// identifier is in `seen` or belongs to a commit before it in `cs`.
/// A commit that was marked already stays marked.
pub open spec fn marked(cs: Seq<CommitView>, seen: Set<Seq<char>>) -> Seq<CommitView> {
    Seq::new(
        cs.len(),
        |j: int|
            CommitView {
                duplicate: cs[j].duplicate || seen.contains(cs[j].oid) || commit_oids(
                    cs.take(j),
                ).contains(cs[j].oid),
                ..cs[j]
            },
    )
}

/// The strongest size among the commits that are included; `Empty` when
/// none is.
pub open spec fn included_size(cs: Seq<CommitView>) -> Size
    decreases cs.len(),
{
    if cs.len() == 0 {
        Size::Empty
    } else if cs.last().included() {
        included_size(cs.drop_last()).join(cs.last().size)
    } else {
        included_size(cs.drop_last())
    }
}

/// The size that the included commits come to is that of the strongest of
/// them: none of them is stronger, and one of them has that size unless it
/// is `Empty`.
pub proof fn law_included_size_is_strongest(cs: Seq<CommitView>)
    ensures
        forall|j: int|
            0 <= j < cs.len() && (#[trigger] cs[j]).included() ==> cs[j].size.at_most(included_size(cs)),
        included_size(cs) == Size::Empty || exists|j: int|
            0 <= j < cs.len() && (#[trigger] cs[j]).included() && cs[j].size == included_size(cs),
    decreases cs.len(),
{
    if cs.len() > 0 {
        let rest = cs.drop_last();
        law_included_size_is_strongest(rest);
        assert(cs[cs.len() - 1] == cs.last());
        assert forall|j: int| 0 <= j < cs.len() && (#[trigger] cs[j]).included() implies cs[j].size.at_most(
            included_size(cs),
        ) by {
            if j < rest.len() {
                assert(rest[j] == cs[j]);
            }
        }
        if included_size(cs) != Size::Empty {
            if cs.last().included() && included_size(cs) == cs.last().size {
            } else {
                assert(included_size(cs) == included_size(rest));
                let j = choose|j: int|
                    0 <= j < rest.len() && (#[trigger] rest[j]).included() && rest[j].size
                        == included_size(rest);
                assert(cs[j] == rest[j]);
            }
        }
    }
}

/// The entry with its duplicates marked and its size worked out anew.
pub open spec fn dedup_entry(e: EntryView, seen: Set<Seq<char>>) -> EntryView {
    match e {
        EntryView::Pr(pr, _) => {
            let cs = marked(pr.commits, seen);
            EntryView::Pr(PrView { commits: cs, ..pr }, included_size(cs))
        },
        EntryView::Dep(_, _) => e,
    }
}

/// The entries with every commit marked that an earlier place of the
/// changelog holds already, and each pull request resized to the strongest
/// commit it still includes.
pub open spec fn deduped(es: Seq<EntryView>) -> Seq<EntryView> {
    Seq::new(es.len(), |k: int| dedup_entry(es[k], seen_before(es, k)))
}

/// The identifiers in a list of strings.
pub open spec fn oid_set(seen: Seq<String>) -> Set<Seq<char>> {
    Set::new(|o: Seq<char>| exists|j: int| 0 <= j < seen.len() && #[trigger] seen[j]@ == o)
}

fn seen_has(seen: &Vec<String>, oid: &String) -> (r: bool)
    ensures
        r == oid_set(seen@).contains(oid@),
{
    let mut i: usize = 0;
    while i < seen.len()
        invariant
            i <= seen.len(),
            forall|j: int| 0 <= j < i ==> seen@[j]@ != oid@,
        decreases seen.len() - i,
    {
        if seen[i] == *oid {
            return true;
        }
        i += 1;
    }
    false
}

/// Marks the duplicates among the commits of one pull request and returns
/// the size that the pull request then amounts to. `seen` holds the
/// identifiers met so far and takes up those of this pull request.
fn dedup_pr(pr: &mut LoggedPr, seen: &mut Vec<String>) -> (size: Size)
    ensures
        final(pr)@ == (PrView { commits: marked(old(pr)@.commits, oid_set(old(seen)@)), ..old(pr)@ }),
        oid_set(final(seen)@) == oid_set(old(seen)@).union(commit_oids(old(pr)@.commits)),
        size == included_size(final(pr)@.commits),
{
    let ghost start = oid_set(seen@);
    let ghost cs = pr@.commits;
    let mut size = Size::Empty;
    let mut j: usize = 0;
    assert(commit_views(pr.commits@).take(0) =~= Seq::<CommitView>::empty());
    while j < pr.commits.len()
        invariant
            j <= pr.commits@.len(),
            pr.commits@.len() == cs.len(),
            pr.number == old(pr).number,
            pr.title == old(pr).title,
            pr.closed_at == old(pr).closed_at,
            pr.discovery_order == old(pr).discovery_order,
            pr.url == old(pr).url,
            cs == old(pr)@.commits,
            start == oid_set(old(seen)@),
            forall|i: int| 0 <= i < j ==> #[trigger] pr.commits@[i]@ == marked(cs, start)[i],
            forall|i: int| j <= i < cs.len() ==> #[trigger] pr.commits@[i]@ == cs[i],
            oid_set(seen@) =~= start.union(commit_oids(cs.take(j as int))),
            size == included_size(commit_views(pr.commits@).take(j as int)),
        decreases pr.commits@.len() - j,
    {
        let ghost before = commit_views(pr.commits@);
        let ghost seen0 = seen@;
        let ghost c0 = pr.commits@[j as int];
        let ghost all0 = pr.commits@;
        assert(c0@ == cs[j as int]);
        let dup = seen_has(seen, &pr.commits[j].oid);
        if dup {
            pr.commits[j].duplicate = true;
        }
        seen.push(pr.commits[j].oid.clone());
        if pr.commits[j].included() {
            size = size.max(pr.commits[j].size);
        }
        proof {
            let now = commit_views(pr.commits@);
            assert(forall|i: int| 0 <= i < cs.len() && i != j ==> pr.commits@[i] == all0[i]);
            assert(pr.commits@[j as int].oid == c0.oid);
            assert(dup == (start.contains(c0.oid@) || commit_oids(cs.take(j as int)).contains(
                c0.oid@,
            )));
            assert(pr.commits@[j as int]@ == marked(cs, start)[j as int]);
            assert(now.take(j + 1).drop_last() =~= now.take(j as int));
            assert(now.take(j as int) =~= before.take(j as int));
            let t0 = cs.take(j as int);
            let t1 = cs.take(j + 1);
            assert(commit_oids(t1) =~= commit_oids(t0).insert(cs[j as int].oid)) by {
                let a = commit_oids(t1);
                let b = commit_oids(t0).insert(cs[j as int].oid);
                assert forall|o: Seq<char>| a.contains(o) implies b.contains(o) by {
                    let i = choose|i: int| 0 <= i < t1.len() && #[trigger] t1[i].oid == o;
                    if i < j {
                        assert(t0[i].oid == o);
                    }
                }
                assert forall|o: Seq<char>| b.contains(o) implies a.contains(o) by {
                    if o == cs[j as int].oid {
                        assert(t1[j as int].oid == o);
                    } else {
                        let i = choose|i: int| 0 <= i < t0.len() && #[trigger] t0[i].oid == o;
                        assert(t1[i].oid == o);
                    }
                }
            }
            assert(oid_set(seen@) =~= oid_set(seen0).insert(cs[j as int].oid)) by {
                let a = oid_set(seen@);
                let b = oid_set(seen0).insert(cs[j as int].oid);
                assert forall|o: Seq<char>| a.contains(o) implies b.contains(o) by {
                    let i = choose|i: int| 0 <= i < seen@.len() && #[trigger] seen@[i]@ == o;
                    if i < seen0.len() {
                        assert(seen0[i]@ == o);
                    }
                }
                assert forall|o: Seq<char>| b.contains(o) implies a.contains(o) by {
                    if o == cs[j as int].oid {
                        assert(seen@[seen0.len() as int]@ == o);
                    } else {
                        let i = choose|i: int| 0 <= i < seen0.len() && #[trigger] seen0[i]@ == o;
                        assert(seen@[i]@ == o);
                    }
                }
            }
        }
        j += 1;
    }
    proof {
        let now = commit_views(pr.commits@);
        assert(now.take(now.len() as int) =~= now);
        assert(cs.take(cs.len() as int) =~= cs);
        assert(now =~= marked(cs, start));
    }
    size
}

/// Marks, front to back, every commit that an earlier place of the list
/// holds already, and resizes each pull request.
pub fn dedup_entries(entries: &mut Vec<ChangelogEntry>)
    ensures
        entry_views(final(entries)@) == deduped(entry_views(old(entries)@)),
{
    let ghost es = entry_views(entries@);
    let mut seen: Vec<String> = Vec::new();
    let mut k: usize = 0;
    assert(oid_set(seen@) =~= seen_before(es, 0));
    while k < entries.len()
        invariant
            k <= entries@.len(),
            entries@.len() == es.len(),
            es == entry_views(old(entries)@),
            forall|i: int| 0 <= i < k ==> #[trigger] entries@[i]@ == deduped(es)[i],
            forall|i: int| k <= i < es.len() ==> #[trigger] entries@[i]@ == es[i],
            oid_set(seen@) =~= seen_before(es, k as int),
        decreases entries@.len() - k,
    {
        let ghost seen0 = oid_set(seen@);
        let ghost all0 = entries@;
        assert(all0[k as int]@ == es[k as int]);
        match &mut entries[k] {
            ChangelogEntry::Pr(pr, size) => {
                let s = dedup_pr(pr, &mut seen);
                *size = s;
            },
            ChangelogEntry::Dep(_, _) => {},
        }
        proof {
            assert(forall|i: int| 0 <= i < es.len() && i != k ==> entries@[i] == all0[i]);
            assert(entries@[k as int]@ == dedup_entry(es[k as int], seen0));
            assert(oid_set(seen@) =~= seen0.union(entry_oids(es[k as int])));
            assert(seen_before(es, k + 1) =~= seen_before(es, k as int).union(
                entry_oids(es[k as int]),
            )) by {
                let a = seen_before(es, k + 1);
                let b = seen_before(es, k as int).union(entry_oids(es[k as int]));
                assert forall|o: Seq<char>| a.contains(o) implies b.contains(o) by {
                    let i = choose|i: int|
                        0 <= i < k + 1 && i < es.len() && #[trigger] entry_oids(es[i]).contains(o);
                    if i < k {
                        assert(entry_oids(es[i]).contains(o));
                    }
                }
                assert forall|o: Seq<char>| b.contains(o) implies a.contains(o) by {
                    if entry_oids(es[k as int]).contains(o) {
                    } else {
                        let i = choose|i: int|
                            0 <= i < k && i < es.len() && #[trigger] entry_oids(es[i]).contains(o);
                        assert(entry_oids(es[i]).contains(o));
                    }
                }
            }
        }
        k += 1;
    }
    assert(entry_views(entries@) =~= deduped(es));
}

impl Changelog {
    /// Puts the changelog in display order, then marks duplicate commits and
    /// resizes the pull requests.
    pub fn sort_and_dedup(&mut self)
        ensures
            exists|sorted: Seq<EntryView>|
                is_stable_sort(sorted, old(self)@) && final(self)@ == deduped(sorted),
            final(self)@.len() == old(self)@.len(),
    {
        let mut entries: Vec<ChangelogEntry> = Vec::new();
        std::mem::swap(&mut entries, &mut self.entries);
        let mut sorted = sort_entries(entries);
        let ghost mid = entry_views(sorted@);
        dedup_entries(&mut sorted);
        self.entries = sorted;
        assert(is_stable_sort(mid, old(self)@) && self@ == deduped(mid));
        let ghost q = choose|q: Seq<int>| sorted_by(mid, old(self)@, q, 0);
        assert(mid.len() == old(self)@.len());
    }
}

/// The commits of entry `k`; none for an upstream project.
pub open spec fn commits_at(es: Seq<EntryView>, k: int) -> Seq<CommitView> {
    match es[k] {
        EntryView::Pr(pr, _) => pr.commits,
        EntryView::Dep(_, _) => Seq::empty(),
    }
}

/// After deduplication a changelog includes no commit twice: of two
/// different places that hold the same commit identifier at most one is
/// included.
pub proof fn law_included_at_most_once(es: Seq<EntryView>, k1: int, j1: int, k2: int, j2: int)
    requires
        0 <= k1 < es.len(),
        0 <= k2 < es.len(),
        0 <= j1 < commits_at(deduped(es), k1).len(),
        0 <= j2 < commits_at(deduped(es), k2).len(),
        k1 != k2 || j1 != j2,
        commits_at(deduped(es), k1)[j1].oid == commits_at(deduped(es), k2)[j2].oid,
    ensures
        !(commits_at(deduped(es), k1)[j1].included() && commits_at(deduped(es), k2)[j2].included()),
{
    if k1 < k2 || (k1 == k2 && j1 < j2) {
        lemma_later_is_duplicate(es, k1, j1, k2, j2);
    } else {
        lemma_later_is_duplicate(es, k2, j2, k1, j1);
    }
}

proof fn lemma_later_is_duplicate(es: Seq<EntryView>, k1: int, j1: int, k2: int, j2: int)
    requires
        0 <= k1 <= k2 < es.len(),
        0 <= j1 < commits_at(deduped(es), k1).len(),
        0 <= j2 < commits_at(deduped(es), k2).len(),
        k1 < k2 || j1 < j2,
        commits_at(deduped(es), k1)[j1].oid == commits_at(deduped(es), k2)[j2].oid,
    ensures
        commits_at(deduped(es), k2)[j2].duplicate,
{
    let c1 = commits_at(es, k1);
    let c2 = commits_at(es, k2);
    let oid = c2[j2].oid;
    assert(c1[j1].oid == oid);
    if k1 < k2 {
        assert(entry_oids(es[k1]).contains(oid));
        assert(seen_before(es, k2).contains(oid));
    } else {
        assert(c2.take(j2)[j1].oid == oid);
        assert(commit_oids(c2.take(j2)).contains(oid));
    }
}

/// Whether entry `i` of `s` is to stand before entry `j`: by display
/// order, and among entries that tie by their place in `s`.
pub open spec fn goes_first(s: Seq<EntryView>, i: int, j: int) -> bool {
    precedes(s[i], s[j]) || (!precedes(s[j], s[i]) && i < j)
}

/// In the display order of `s`, entry `q[k]` is to stand before entry
/// `q[l]` whenever `k < l`.
proof fn lemma_sorted_goes_first(r: Seq<EntryView>, s: Seq<EntryView>, q: Seq<int>, k: int, l: int)
    requires
        sorted_by(r, s, q, 0),
        0 <= k < l < r.len(),
    ensures
        goes_first(s, q[k], q[l]),
        !goes_first(s, q[l], q[k]),
{
    assert(r[k] == s[q[k]] && r[l] == s[q[l]]);
    assert(!precedes(r[l], r[k]));
    if precedes(r[k], r[l]) {
        lemma_precedes_asymmetric(r[k], r[l]);
    } else {
        assert(q[k] < q[l]);
    }
}

/// Two ways of putting `s` in display order list the entries of `s` in the
/// same sequence.
proof fn lemma_same_arrangement(
    r1: Seq<EntryView>,
    q1: Seq<int>,
    r2: Seq<EntryView>,
    q2: Seq<int>,
    s: Seq<EntryView>,
    k: int,
)
    requires
        sorted_by(r1, s, q1, 0),
        sorted_by(r2, s, q2, 0),
        0 <= k < s.len(),
    ensures
        q1[k] == q2[k],
    decreases k,
{
    assert forall|m: int| 0 <= m < k implies q1[m] == q2[m] by {
        lemma_same_arrangement(r1, q1, r2, q2, s, m);
    }
    let a = q1[k];
    let b = q2[k];
    if a != b {
        assert(q2.contains(a));
        let l = choose|l: int| 0 <= l < q2.len() && q2[l] == a;
        if l < k {
            assert(q1[l] == q2[l]);
            assert(q1[l] != q1[k]);
        }
        assert(q1.contains(b));
        let m = choose|m: int| 0 <= m < q1.len() && q1[m] == b;
        if m < k {
            assert(q1[m] == q2[m]);
            assert(q2[m] != q2[k]);
        }
        lemma_sorted_goes_first(r2, s, q2, k, l);
        lemma_sorted_goes_first(r1, s, q1, k, m);
    }
}

/// The display order is settled by the entries: two ways of putting the
/// same entries in display order, ties keeping their order, give the same
/// changelog.
pub proof fn law_display_order_is_unique(r1: Seq<EntryView>, r2: Seq<EntryView>, s: Seq<EntryView>)
    requires
        is_stable_sort(r1, s),
        is_stable_sort(r2, s),
    ensures
        r1 == r2,
{
    let q1 = choose|q: Seq<int>| sorted_by(r1, s, q, 0);
    let q2 = choose|q: Seq<int>| sorted_by(r2, s, q, 0);
    assert forall|k: int| 0 <= k < r1.len() implies r1[k] == r2[k] by {
        lemma_same_arrangement(r1, q1, r2, q2, s, k);
        assert(r1[k] == s[q1[k]]);
        assert(r2[k] == s[q2[k]]);
    }
    assert(r1 =~= r2);
}

} // verus!
