//! The dependencies between projects as a graph, and an order of the
//! projects that follows it.
//!
//! Projects are named here by their position in the configuration. An edge
//! leads from an upstream project to each project that depends on it.

use vstd::prelude::*;
use crate::config::{has_id, ConfigFile};
use crate::project::SizeMapper;
use crate::size::Size;

verus! {

/// Whether project `d` depends on project `u`.
#[verifier::opaque]
pub open spec fn edge(cfg: ConfigFile, u: int, d: int) -> bool {
    &&& 0 <= u < cfg.projects@.len()
    &&& 0 <= d < cfg.projects@.len()
    &&& cfg.projects@[d].depends_on(cfg.projects@[u].id)
}

/// The mapping on the edge from `u` to `d`.
#[verifier::opaque]
pub open spec fn edge_mapper(cfg: ConfigFile, u: int, d: int) -> SizeMapper {
    cfg.projects@[d].dependency_on(cfg.projects@[u].id)->0.size
}

/// What a size `s` of project `u` amounts to for project `d`.
pub open spec fn carried(cfg: ConfigFile, u: int, d: int, s: Size) -> Size {
    edge_mapper(cfg, u, d).map(s)
}

/// An edge joins two projects of the configuration.
pub proof fn lemma_edge_bounds(cfg: ConfigFile, u: int, d: int)
    requires
        edge(cfg, u, d),
    ensures
        0 <= u < cfg.projects@.len(),
        0 <= d < cfg.projects@.len(),
{
    reveal(edge);
}

/// The dependencies form no cycle: the projects can be numbered so that
/// every project has a greater number than each project it depends on.
pub open spec fn acyclic(cfg: ConfigFile) -> bool {
    exists|rank: Seq<int>| ranks(cfg, rank)
}

/// `rank` numbers the projects so that every edge leads upwards.
pub open spec fn ranks(cfg: ConfigFile, rank: Seq<int>) -> bool {
    &&& rank.len() == cfg.projects@.len()
    &&& forall|u: int, d: int| #[trigger] edge(cfg, u, d) ==> rank[u] < rank[d]
}

/// `order` lists every project once, `pos[x]` being the place of project
/// `x` in it, and every project stands after the projects it depends on.
pub open spec fn topo_with(cfg: ConfigFile, order: Seq<usize>, pos: Seq<int>) -> bool {
    &&& pos.len() == cfg.projects@.len()
    &&& forall|x: int|
        0 <= x < pos.len() ==> 0 <= #[trigger] pos[x] < order.len() && order[pos[x]] == x
    &&& forall|p: int|
        0 <= p < order.len() ==> (#[trigger] order[p]) < pos.len() && pos[order[p] as int] == p
    &&& forall|u: int, d: int| #[trigger] edge(cfg, u, d) ==> pos[u] < pos[d]
}

/// `order` lists every project once, each after the projects it depends
/// on.
pub open spec fn is_topo(cfg: ConfigFile, order: Seq<usize>) -> bool {
    exists|pos: Seq<int>| topo_with(cfg, order, pos)
}

/// A configuration whose projects can be put in dependency order has no
/// cycle.
pub proof fn lemma_topo_acyclic(cfg: ConfigFile, order: Seq<usize>)
    requires
        is_topo(cfg, order),
    ensures
        acyclic(cfg),
{
    assert forall|w: int, x: int| #[trigger] edge(cfg, w, x) implies 0 <= w < cfg.projects@.len() && 0
        <= x < cfg.projects@.len() by {
        lemma_edge_bounds(cfg, w, x);
    }
    let pos = choose|pos: Seq<int>| topo_with(cfg, order, pos);
    assert(ranks(cfg, pos));
}

/// Values below `n` that are all different are at most `n` many.
proof fn lemma_distinct_bounded(s: Seq<usize>, n: int)
    requires
        0 <= n,
        forall|i: int| 0 <= i < s.len() ==> (#[trigger] s[i]) < n,
        forall|i: int, j: int| 0 <= i < j < s.len() ==> s[i] != s[j],
    ensures
        s.len() <= n,
    decreases n,
{
    if n == 0 {
        if s.len() > 0 {
            assert(s[0] < 0);
        }
    } else {
        if exists|k: int| 0 <= k < s.len() && s[k] == n - 1 {
            let k = choose|k: int| 0 <= k < s.len() && s[k] == n - 1;
            let t = s.remove(k);
            assert forall|i: int| 0 <= i < t.len() implies (#[trigger] t[i]) < n - 1 by {
                if i < k {
                    assert(t[i] == s[i]);
                } else {
                    assert(t[i] == s[i + 1]);
                }
            }
            assert forall|i: int, j: int| 0 <= i < j < t.len() implies t[i] != t[j] by {
                let a = if i < k { i } else { i + 1 };
                let b = if j < k { j } else { j + 1 };
                assert(t[i] == s[a] && t[j] == s[b]);
            }
            lemma_distinct_bounded(t, n - 1);
        } else {
            assert forall|i: int| 0 <= i < s.len() implies (#[trigger] s[i]) < n - 1 by {
                assert(s[i] != n - 1);
            }
            lemma_distinct_bounded(s, n - 1);
        }
    }
}

/// Whether some project that `y` depends on is not done.
spec fn blocked(cfg: ConfigFile, done: Seq<bool>, y: int) -> bool {
    exists|w: int| #[trigger] edge(cfg, w, y) && !done[w]
}

/// Where the projects can be numbered along the edges, a set of projects
/// that leaves no project out unless one of its upstream projects is left
/// out too holds every project.
proof fn lemma_ranked_all_done(cfg: ConfigFile, done: Seq<bool>, rank: Seq<int>, x: int)
    requires
        ranks(cfg, rank),
        done.len() == cfg.projects@.len(),
        0 <= x < done.len(),
        forall|y: int| 0 <= y < done.len() && !done[y] ==> #[trigger] blocked(cfg, done, y),
    ensures
        done[x],
    decreases rank[x] - lowest(rank),
{
    if !done[x] {
        assert(blocked(cfg, done, x));
        let w = choose|w: int| #[trigger] edge(cfg, w, x) && !done[w];
        lemma_edge_bounds(cfg, w, x);
        lemma_lowest(rank, w);
        lemma_lowest(rank, x);
        lemma_ranked_all_done(cfg, done, rank, w);
    }
}

/// A number that none of `rank` goes below.
pub open spec fn lowest(rank: Seq<int>) -> int
    decreases rank.len(),
{
    if rank.len() == 0 {
        0
    } else {
        let rest = lowest(rank.drop_last());
        if rank.last() < rest {
            rank.last()
        } else {
            rest
        }
    }
}

pub proof fn lemma_lowest(rank: Seq<int>, i: int)
    requires
        0 <= i < rank.len(),
    ensures
        lowest(rank) <= rank[i],
    decreases rank.len(),
{
    if i < rank.len() - 1 {
        lemma_lowest(rank.drop_last(), i);
    }
}

/// In a valid configuration an edge into `d` is the same as an entry in
/// the dependencies of `d`.
proof fn lemma_edge_entry(cfg: ConfigFile, d: int, k: int)
    requires
        cfg.wf(),
        0 <= d < cfg.projects@.len(),
        0 <= k < cfg.projects@[d].depends@.len(),
    ensures
        cfg.has(cfg.projects@[d].depends@[k].on),
        edge(cfg, cfg.index_of(cfg.projects@[d].depends@[k].on), d),
{
    reveal(edge);
    let p = cfg.projects@[d];
    assert(crate::config::deps_resolve(cfg.projects@, p));
    let id = p.depends@[k].on;
    assert(has_id(cfg.projects@, id));
    let u = cfg.index_of(id);
    assert(p.depends_on(cfg.projects@[u].id));
}

/// The configuration is valid (see [`ConfigFile::wf`]).
#[verifier::opaque]
spec fn sound(cfg: ConfigFile) -> bool {
    cfg.wf()
}

/// Whether every project that `d` depends on is done.
pub open spec fn ready(cfg: ConfigFile, done: Seq<bool>, d: int) -> bool {
    forall|w: int| #[trigger] edge(cfg, w, d) ==> done[w]
}

/// Executable form of [`ready`].
fn upstream_done(cfg: &ConfigFile, done: &Vec<bool>, d: usize) -> (r: bool)
    requires
        sound(*cfg),
        done@.len() == cfg.projects@.len(),
        d < cfg.projects@.len(),
    ensures
        r == ready(*cfg, done@, d as int),
{
    reveal(sound);
    reveal(edge);
    let p = &cfg.projects[d];
    let mut k: usize = 0;
    while k < p.depends.len()
        invariant
            cfg.wf(),
            done@.len() == cfg.projects@.len(),
            d < cfg.projects@.len(),
            *p == cfg.projects@[d as int],
            k <= p.depends@.len(),
            forall|j: int| 0 <= j < k ==> done@[cfg.index_of((#[trigger] p.depends@[j]).on)],
        decreases p.depends@.len() - k,
    {
        proof {
            lemma_edge_entry(*cfg, d as int, k as int);
        }
        match cfg.position(&p.depends[k].on) {
            Some(u) => {
                if !done[u] {
                    assert(edge(*cfg, u as int, d as int));
                    return false;
                }
            },
            None => {
                return false;
            },
        }
        k += 1;
    }
    proof {
        assert forall|w: int| #[trigger] edge(*cfg, w, d as int) implies done@[w] by {
            let id = cfg.projects@[w].id;
            let j = choose|j: int| 0 <= j < p.depends@.len() && (#[trigger] p.depends@[j]).on == id;
            let c = cfg.index_of(p.depends@[j].on);
            lemma_edge_entry(*cfg, d as int, j);
            if c < w {
                assert(cfg.projects@[c].id != cfg.projects@[w].id);
            } else if c > w {
                assert(cfg.projects@[w].id != cfg.projects@[c].id);
            }
        }
    }
    true
}

/// The mapping on the edge from `u` to `d`, if there is such an edge.
pub fn depends_on(cfg: &ConfigFile, u: usize, d: usize) -> (r: Option<SizeMapper>)
    requires
        u < cfg.projects@.len(),
        d < cfg.projects@.len(),
    ensures
        r is Some == edge(*cfg, u as int, d as int),
        r is Some ==> r->0 == edge_mapper(*cfg, u as int, d as int),
{
    reveal(edge);
    reveal(edge_mapper);
    match cfg.projects[d].dependency(&cfg.projects[u].id) {
        Some(dep) => Some(dep.size),
        None => None,
    }
}

/// The state of the walk that puts the projects in dependency order:
/// `queue` holds the projects found so far, the first `head` of them are
/// done, and `pos[x]` is the place of `x` in the queue, or -1. A project is
/// only found once all the projects it depends on are done.
#[verifier::opaque]
spec fn walk_ok(cfg: ConfigFile, queue: Seq<usize>, head: int, done: Seq<bool>, pos: Seq<int>) -> bool {
    let n = cfg.projects@.len();
    &&& 0 <= head <= queue.len()
    &&& done.len() == n
    &&& pos.len() == n
    &&& forall|p: int| 0 <= p < queue.len() ==> (#[trigger] queue[p]) < n && pos[queue[p] as int] == p
    &&& forall|x: int|
        0 <= x < n ==> (#[trigger] pos[x]) == -1 || (0 <= pos[x] < queue.len() && queue[pos[x]] == x)
    &&& forall|x: int| 0 <= x < n ==> (#[trigger] done[x] <==> 0 <= pos[x] < head)
    &&& forall|w: int, x: int| #[trigger] edge(cfg, w, x) && pos[x] >= 0 ==> done[w] && pos[w] < pos[x]
}

/// Every project whose upstream projects are all done has been found,
/// except for those at or after `scan` that depend on `u`.
#[verifier::opaque]
spec fn found_all(cfg: ConfigFile, done: Seq<bool>, pos: Seq<int>, u: int, scan: int) -> bool {
    forall|x: int|
        0 <= x < cfg.projects@.len() && #[trigger] ready(cfg, done, x) ==> pos[x] >= 0 || (x >= scan
            && edge(cfg, u, x))
}

/// No project at or after `scan` that depends on `u` has been found.
#[verifier::opaque]
spec fn fresh_from(cfg: ConfigFile, pos: Seq<int>, u: int, scan: int) -> bool {
    forall|x: int| scan <= x < cfg.projects@.len() && edge(cfg, u, x) ==> (#[trigger] pos[x]) == -1
}

proof fn lemma_walk_bounds(cfg: ConfigFile, queue: Seq<usize>, head: int, done: Seq<bool>, pos: Seq<int>)
    requires
        walk_ok(cfg, queue, head, done, pos),
    ensures
        0 <= head <= queue.len() <= cfg.projects@.len(),
        done.len() == cfg.projects@.len(),
        pos.len() == cfg.projects@.len(),
        forall|p: int| 0 <= p < queue.len() ==> (#[trigger] queue[p]) < cfg.projects@.len(),
{
    reveal(walk_ok);
    assert forall|a: int, b: int| 0 <= a < b < queue.len() implies queue[a] != queue[b] by {
        assert(pos[queue[a] as int] == a && pos[queue[b] as int] == b);
    }
    lemma_distinct_bounded(queue, cfg.projects@.len() as int);
}

proof fn lemma_walk_start(cfg: ConfigFile, queue: Seq<usize>, done: Seq<bool>, pos: Seq<int>)
    requires
        cfg.wf(),
        done.len() == cfg.projects@.len(),
        pos.len() == cfg.projects@.len(),
        forall|x: int| 0 <= x < done.len() ==> !done[x],
        forall|p: int|
            0 <= p < queue.len() ==> (#[trigger] queue[p]) < pos.len() && pos[queue[p] as int] == p,
        forall|x: int|
            0 <= x < pos.len() ==> (#[trigger] pos[x]) == -1 || (0 <= pos[x] < queue.len()
                && queue[pos[x]] == x),
        forall|x: int|
            0 <= x < pos.len() ==> ((#[trigger] pos[x]) >= 0 <==> cfg.projects@[x].depends@.len() == 0),
    ensures
        walk_ok(cfg, queue, 0, done, pos),
        found_all(cfg, done, pos, 0, cfg.projects@.len() as int),
{
    reveal(walk_ok);
    reveal(found_all);
    reveal(edge);
    assert forall|w: int, x: int| #[trigger] edge(cfg, w, x) && pos[x] >= 0 implies done[w] && pos[w]
        < pos[x] by {
        let k = choose|k: int|
            0 <= k < cfg.projects@[x].depends@.len() && (#[trigger] cfg.projects@[x].depends@[k]).on
                == cfg.projects@[w].id;
    }
    assert forall|x: int| 0 <= x < cfg.projects@.len() && #[trigger] ready(cfg, done, x) implies pos[x]
        >= 0 by {
        if cfg.projects@[x].depends@.len() > 0 {
            lemma_edge_entry(cfg, x, 0);
            let w = cfg.index_of(cfg.projects@[x].depends@[0].on);
            assert(edge(cfg, w, x));
            assert(done[w]);
        }
    }
}

proof fn lemma_walk_mark(cfg: ConfigFile, queue: Seq<usize>, head: int, done: Seq<bool>, pos: Seq<int>)
    requires
        walk_ok(cfg, queue, head, done, pos),
        found_all(cfg, done, pos, 0, cfg.projects@.len() as int),
        head < queue.len(),
    ensures
        queue[head] < cfg.projects@.len(),
        walk_ok(cfg, queue, head + 1, done.update(queue[head] as int, true), pos),
        found_all(cfg, done.update(queue[head] as int, true), pos, queue[head] as int, 0),
        fresh_from(cfg, pos, queue[head] as int, 0),
{
    assert forall|w: int, x: int| #[trigger] edge(cfg, w, x) implies 0 <= w < cfg.projects@.len() && 0
        <= x < cfg.projects@.len() by {
        lemma_edge_bounds(cfg, w, x);
    }
    reveal(walk_ok);
    reveal(found_all);
    reveal(fresh_from);
    let n = cfg.projects@.len();
    let u = queue[head] as int;
    let done2 = done.update(u, true);
    assert(queue[head] < n);
    assert forall|x: int| 0 <= x < n implies (#[trigger] done2[x] <==> 0 <= pos[x] < head + 1) by {
        if x != u {
            assert(done2[x] == done[x]);
            if pos[x] == head {
                assert(queue[pos[x]] == x);
            }
        }
    }
    assert forall|w: int, x: int| #[trigger] edge(cfg, w, x) && pos[x] >= 0 implies done2[w] && pos[w]
        < pos[x] by {
        assert(done[w]);
    }
    assert forall|x: int| 0 <= x < n && edge(cfg, u, x) implies (#[trigger] pos[x]) == -1 by {
        if pos[x] >= 0 {
            assert(done[u]);
        }
    }
    assert forall|x: int| 0 <= x < n && #[trigger] ready(cfg, done2, x) implies pos[x] >= 0 || (x >= 0
        && edge(cfg, u, x)) by {
        if !edge(cfg, u, x) {
            assert forall|w: int| #[trigger] edge(cfg, w, x) implies done[w] by {
                assert(done2[w]);
            }
            assert(ready(cfg, done, x));
        }
    }
}

proof fn lemma_walk_push(
    cfg: ConfigFile,
    queue: Seq<usize>,
    head: int,
    done: Seq<bool>,
    pos: Seq<int>,
    u: int,
    d: usize,
)
    requires
        walk_ok(cfg, queue, head, done, pos),
        found_all(cfg, done, pos, u, d as int),
        fresh_from(cfg, pos, u, d as int),
        d < cfg.projects@.len(),
        edge(cfg, u, d as int),
        ready(cfg, done, d as int),
    ensures
        walk_ok(cfg, queue.push(d), head, done, pos.update(d as int, queue.len() as int)),
        found_all(cfg, done, pos.update(d as int, queue.len() as int), u, d + 1),
        fresh_from(cfg, pos.update(d as int, queue.len() as int), u, d + 1),
{
    assert forall|w: int, x: int| #[trigger] edge(cfg, w, x) implies 0 <= w < cfg.projects@.len() && 0
        <= x < cfg.projects@.len() by {
        lemma_edge_bounds(cfg, w, x);
    }
    reveal(walk_ok);
    reveal(found_all);
    reveal(fresh_from);
    let n = cfg.projects@.len();
    let queue2 = queue.push(d);
    let pos2 = pos.update(d as int, queue.len() as int);
    assert(pos[d as int] == -1);
    assert(!done[d as int]);
    assert forall|p: int| 0 <= p < queue2.len() implies (#[trigger] queue2[p]) < n && pos2[queue2[p] as int]
        == p by {
        if p < queue.len() {
            assert(queue2[p] == queue[p]);
            assert(pos[queue[p] as int] == p);
        }
    }
    assert forall|x: int| 0 <= x < n implies (#[trigger] pos2[x]) == -1 || (0 <= pos2[x] < queue2.len()
        && queue2[pos2[x]] == x) by {
        if x != d {
            assert(pos2[x] == pos[x]);
        }
    }
    assert forall|x: int| 0 <= x < n implies (#[trigger] done[x] <==> 0 <= pos2[x] < head) by {
        if x != d {
            assert(pos2[x] == pos[x]);
        }
    }
    assert forall|w: int, x: int| #[trigger] edge(cfg, w, x) && pos2[x] >= 0 implies done[w] && pos2[w]
        < pos2[x] by {
        if x == d {
            assert(done[w]);
            assert(w != d);
            assert(0 <= pos[w] < head);
        } else {
            assert(pos[x] >= 0);
            assert(done[w]);
            assert(w != d);
        }
    }
    assert forall|x: int| 0 <= x < n && #[trigger] ready(cfg, done, x) implies pos2[x] >= 0 || (x >= d
        + 1 && edge(cfg, u, x)) by {
        if x != d {
            assert(pos[x] >= 0 || (x >= d && edge(cfg, u, x)));
        }
    }
    assert forall|x: int| d + 1 <= x < n && edge(cfg, u, x) implies (#[trigger] pos2[x]) == -1 by {
        assert(pos[x] == -1);
    }
}

proof fn lemma_walk_skip(cfg: ConfigFile, done: Seq<bool>, pos: Seq<int>, u: int, d: int)
    requires
        found_all(cfg, done, pos, u, d),
        fresh_from(cfg, pos, u, d),
        !(edge(cfg, u, d) && ready(cfg, done, d)),
    ensures
        found_all(cfg, done, pos, u, d + 1),
        fresh_from(cfg, pos, u, d + 1),
{
    assert forall|w: int, x: int| #[trigger] edge(cfg, w, x) implies 0 <= w < cfg.projects@.len() && 0
        <= x < cfg.projects@.len() by {
        lemma_edge_bounds(cfg, w, x);
    }
    reveal(found_all);
    reveal(fresh_from);
    assert forall|x: int| 0 <= x < cfg.projects@.len() && #[trigger] ready(cfg, done, x) implies pos[x]
        >= 0 || (x >= d + 1 && edge(cfg, u, x)) by {
        assert(pos[x] >= 0 || (x >= d && edge(cfg, u, x)));
    }
    assert forall|x: int| d + 1 <= x < cfg.projects@.len() && edge(cfg, u, x) implies (
    #[trigger] pos[x]) == -1 by {
        assert(pos[x] == -1);
    }
}

proof fn lemma_walk_next(cfg: ConfigFile, done: Seq<bool>, pos: Seq<int>, u: int)
    requires
        found_all(cfg, done, pos, u, cfg.projects@.len() as int),
    ensures
        found_all(cfg, done, pos, 0, cfg.projects@.len() as int),
{
    assert forall|w: int, x: int| #[trigger] edge(cfg, w, x) implies 0 <= w < cfg.projects@.len() && 0
        <= x < cfg.projects@.len() by {
        lemma_edge_bounds(cfg, w, x);
    }
    reveal(found_all);
    assert forall|x: int| 0 <= x < cfg.projects@.len() && #[trigger] ready(cfg, done, x) implies pos[x]
        >= 0 || (x >= cfg.projects@.len() && edge(cfg, 0, x)) by {
        assert(pos[x] >= 0 || (x >= cfg.projects@.len() && edge(cfg, u, x)));
    }
}

proof fn lemma_walk_stuck(cfg: ConfigFile, queue: Seq<usize>, done: Seq<bool>, pos: Seq<int>, x: int)
    requires
        walk_ok(cfg, queue, queue.len() as int, done, pos),
        found_all(cfg, done, pos, 0, cfg.projects@.len() as int),
        0 <= x < cfg.projects@.len(),
        !done[x],
    ensures
        !acyclic(cfg),
{
    assert forall|w: int, x: int| #[trigger] edge(cfg, w, x) implies 0 <= w < cfg.projects@.len() && 0
        <= x < cfg.projects@.len() by {
        lemma_edge_bounds(cfg, w, x);
    }
    reveal(walk_ok);
    reveal(found_all);
    let n = cfg.projects@.len();
    assert forall|y: int| 0 <= y < n && !done[y] implies #[trigger] blocked(cfg, done, y) by {
        if ready(cfg, done, y) {
            assert(pos[y] >= 0 || (y >= n && edge(cfg, 0, y)));
            assert(done[y]);
        }
    }
    assert forall|rank: Seq<int>| !ranks(cfg, rank) by {
        if ranks(cfg, rank) {
            lemma_ranked_all_done(cfg, done, rank, x);
        }
    }
}

proof fn lemma_walk_complete(cfg: ConfigFile, queue: Seq<usize>, done: Seq<bool>, pos: Seq<int>)
    requires
        walk_ok(cfg, queue, queue.len() as int, done, pos),
        forall|x: int| 0 <= x < cfg.projects@.len() ==> done[x],
    ensures
        topo_with(cfg, queue, pos),
{
    assert forall|w: int, x: int| #[trigger] edge(cfg, w, x) implies 0 <= w < cfg.projects@.len() && 0
        <= x < cfg.projects@.len() by {
        lemma_edge_bounds(cfg, w, x);
    }
    reveal(walk_ok);
    assert forall|u: int, d: int| #[trigger] edge(cfg, u, d) implies pos[u] < pos[d] by {
        assert(done[d]);
    }
    assert forall|x: int| 0 <= x < pos.len() implies 0 <= #[trigger] pos[x] < queue.len() && queue[pos[x]]
        == x by {
        assert(done[x]);
    }
}

/// The projects in an order in which each stands after the projects it
/// depends on; `None` exactly when the dependencies form a cycle.
pub fn topo_order(cfg: &ConfigFile) -> (r: Option<Vec<usize>>)
    requires
        cfg.wf(),
    ensures
        match r {
            Some(order) => is_topo(*cfg, order@),
            None => !acyclic(*cfg),
        },
{
    assert(sound(*cfg)) by {
        reveal(sound);
    }
    match topo_walk(cfg) {
        Some(order) => Some(order),
        None => None,
    }
}

fn topo_walk(cfg: &ConfigFile) -> (r: Option<Vec<usize>>)
    requires
        sound(*cfg),
    ensures
        match r {
            Some(order) => is_topo(*cfg, order@),
            None => !acyclic(*cfg),
        },
{
    let n: usize = cfg.projects.len();
    let mut done: Vec<bool> = Vec::new();
    let mut queue: Vec<usize> = Vec::new();
    let ghost mut pos: Seq<int> = Seq::new(n as nat, |x: int| -1int);
    let mut i: usize = 0;
    while i < n
        invariant
            i <= n,
            n == cfg.projects@.len(),
            done@.len() == i,
            forall|x: int| 0 <= x < i ==> !done@[x],
            pos.len() == n,
            forall|p: int|
                0 <= p < queue@.len() ==> (#[trigger] queue@[p]) < i && pos[queue@[p] as int] == p,
            forall|x: int|
                0 <= x < n ==> (#[trigger] pos[x]) == -1 || (0 <= pos[x] < queue@.len()
                    && queue@[pos[x]] == x),
            forall|x: int| 0 <= x < i ==> ((#[trigger] pos[x]) >= 0 <==> cfg.projects@[x].depends@.len() == 0),
            forall|x: int| i <= x < n ==> (#[trigger] pos[x]) == -1,
        decreases n - i,
    {
        done.push(false);
        if cfg.projects[i].depends.len() == 0 {
            proof {
                pos = pos.update(i as int, queue@.len() as int);
            }
            queue.push(i);
        }
        i += 1;
    }
    proof {
        reveal(sound);
        lemma_walk_start(*cfg, queue@, done@, pos);
    }
    let mut head: usize = 0;
    while head < queue.len()
        invariant
            sound(*cfg),
            n == cfg.projects@.len(),
            done@.len() == n,
            head <= queue@.len(),
            walk_ok(*cfg, queue@, head as int, done@, pos),
            found_all(*cfg, done@, pos, 0, n as int),
        decreases n - head,
    {
        proof {
            lemma_walk_bounds(*cfg, queue@, head as int, done@, pos);
            lemma_walk_mark(*cfg, queue@, head as int, done@, pos);
        }
        let u: usize = queue[head];
        done[u] = true;
        head += 1;
        let mut d: usize = 0;
        while d < n
            invariant
                sound(*cfg),
                n == cfg.projects@.len(),
                done@.len() == n,
                d <= n,
                u < n,
                0 < head <= queue@.len(),
                walk_ok(*cfg, queue@, head as int, done@, pos),
                found_all(*cfg, done@, pos, u as int, d as int),
                fresh_from(*cfg, pos, u as int, d as int),
            decreases n - d,
        {
            if depends_on(cfg, u, d).is_some() && upstream_done(cfg, &done, d) {
                proof {
                    lemma_walk_push(*cfg, queue@, head as int, done@, pos, u as int, d);
                    pos = pos.update(d as int, queue@.len() as int);
                }
                queue.push(d);
            } else {
                proof {
                    lemma_walk_skip(*cfg, done@, pos, u as int, d as int);
                }
            }
            d += 1;
        }
        proof {
            lemma_walk_next(*cfg, done@, pos, u as int);
            lemma_walk_bounds(*cfg, queue@, head as int, done@, pos);
        }
    }
    let mut x: usize = 0;
    while x < n
        invariant
            x <= n,
            n == cfg.projects@.len(),
            done@.len() == n,
            head == queue@.len(),
            walk_ok(*cfg, queue@, head as int, done@, pos),
            found_all(*cfg, done@, pos, 0, n as int),
            forall|y: int| 0 <= y < x ==> done@[y],
        decreases n - x,
    {
        if !done[x] {
            proof {
                lemma_walk_stuck(*cfg, queue@, done@, pos, x as int);
            }
            return None;
        }
        x += 1;
    }
    proof {
        lemma_walk_complete(*cfg, queue@, done@, pos);
    }
    Some(queue)
}

} // verus!
