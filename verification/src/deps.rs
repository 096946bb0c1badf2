//! Carrying bumps along the dependencies between projects.

use vstd::prelude::*;
use crate::changelog::EntryView;
use crate::config::ConfigFile;
use crate::graph::{acyclic, carried, edge, is_topo, lemma_edge_bounds, topo_with};
use crate::plan::{unused_slots_empty, SlotView};
use crate::project::ProjectId;
use crate::size::Size;

verus! {

/// The edges that lead from `u` to the projects before `upto`, in the
/// order of the projects, each as the pair of upstream and downstream
/// identifier.
pub open spec fn out_writes(cfg: ConfigFile, u: int, upto: int) -> Seq<(ProjectId, ProjectId)>
    decreases upto,
{
    if upto <= 0 {
        Seq::empty()
    } else if edge(cfg, u, upto - 1) {
        out_writes(cfg, u, upto - 1).push((cfg.projects@[u].id, cfg.projects@[upto - 1].id))
    } else {
        out_writes(cfg, u, upto - 1)
    }
}

/// The edges out of the first `upto` projects of `order`: project by
/// project, and for each project its dependents in the order of the
/// configuration.
pub open spec fn writes(cfg: ConfigFile, order: Seq<usize>, upto: int) -> Seq<(ProjectId, ProjectId)>
    decreases upto,
{
    if upto <= 0 {
        Seq::empty()
    } else {
        writes(cfg, order, upto - 1) + out_writes(
            cfg,
            order[upto - 1] as int,
            cfg.projects@.len() as int,
        )
    }
}

/// The changelog lines that project `x` owes to the first `upto` projects
/// of `order`: one for each of them that `x` depends on and whose size, as
/// carried over the edge, is more than `Empty`.
pub open spec fn dep_lines(cfg: ConfigFile, order: Seq<usize>, sizes: Seq<Size>, x: int, upto: int) -> Seq<
    EntryView,
>
    decreases upto,
{
    if upto <= 0 {
        Seq::empty()
    } else {
        let u = order[upto - 1] as int;
        if edge(cfg, u, x) && carried(cfg, u, x, sizes[u]) != Size::Empty {
            dep_lines(cfg, order, sizes, x, upto - 1).push(
                EntryView::Dep(cfg.projects@[u].id, cfg.projects@[u].name@),
            )
        } else {
            dep_lines(cfg, order, sizes, x, upto - 1)
        }
    }
}

/// The sizes of a run of slots.
pub open spec fn sizes_of(slots: Seq<SlotView>) -> Seq<Size> {
    Seq::new(slots.len(), |i: int| slots[i].size)
}

/// `after` is what the sizes `before` come to once every bump has been
/// carried along every edge: no project is smaller than it was or than what
/// an upstream project carries over to it, and each project has the size it
/// had or one that an upstream project carries over.
pub open spec fn propagated(cfg: ConfigFile, before: Seq<Size>, after: Seq<Size>) -> bool {
    &&& before.len() == cfg.projects@.len()
    &&& after.len() == cfg.projects@.len()
    &&& forall|x: int| 0 <= x < before.len() ==> (#[trigger] before[x]).at_most(after[x])
    &&& forall|u: int, d: int|
        #[trigger] edge(cfg, u, d) ==> carried(cfg, u, d, after[u]).at_most(after[d])
    &&& forall|x: int|
        0 <= x < after.len() ==> after[x] == (#[trigger] before[x]) || exists|u: int|
            #[trigger] edge(cfg, u, x) && after[x] == carried(cfg, u, x, after[u])
}

/// The slots `after` are the slots `before` with the bumps carried along
/// the dependencies, the projects taken in the order `order`.
pub open spec fn deps_applied(
    cfg: ConfigFile,
    order: Seq<usize>,
    before: Seq<SlotView>,
    after: Seq<SlotView>,
) -> bool {
    &&& before.len() == cfg.projects@.len()
    &&& after.len() == cfg.projects@.len()
    &&& propagated(cfg, sizes_of(before), sizes_of(after))
    &&& forall|x: int|
        0 <= x < after.len() ==> {
            let lines = dep_lines(cfg, order, sizes_of(after), x, order.len() as int);
            &&& after[x].changelog == (#[trigger] before[x]).changelog + lines
            &&& after[x].present == (before[x].present || lines.len() > 0)
        }
}

/// Whether the edge from `w` to `x` has been dealt with when the walk has
/// finished the first `p` projects of the order and, of the next one, the
/// dependents before `d`.
pub(crate) closed spec fn handled(cfg: ConfigFile, pos: Seq<int>, w: int, x: int, p: int, d: int) -> bool {
    edge(cfg, w, x) && (pos[w] < p || (pos[w] == p && x < d))
}

/// The state of the walk that carries the bumps: see [`handled`] for `p`
/// and `d`.
#[verifier::opaque]
pub(crate) closed spec fn carry_ok(
    cfg: ConfigFile,
    order: Seq<usize>,
    pos: Seq<int>,
    p: int,
    d: int,
    before: Seq<SlotView>,
    now: Seq<SlotView>,
    chain0: Seq<(ProjectId, ProjectId)>,
    chain: Seq<(ProjectId, ProjectId)>,
) -> bool {
    let n = cfg.projects@.len() as int;
    &&& topo_with(cfg, order, pos)
    &&& 0 <= p <= order.len()
    &&& 0 <= d <= n
    &&& p == order.len() ==> d == 0
    &&& before.len() == n
    &&& now.len() == n
    &&& chain == chain0 + writes(cfg, order, p) + (if p < order.len() {
        out_writes(cfg, order[p] as int, d)
    } else {
        Seq::empty()
    })
    &&& forall|x: int| 0 <= x < n ==> (#[trigger] before[x]).size.at_most(now[x].size)
    &&& forall|w: int, x: int|
        #[trigger] handled(cfg, pos, w, x, p, d) ==> carried(cfg, w, x, now[w].size).at_most(
            now[x].size,
        )
    &&& forall|x: int|
        0 <= x < n ==> now[x].size == (#[trigger] before[x]).size || exists|w: int|
            #[trigger] handled(cfg, pos, w, x, p, d) && now[x].size == carried(
                cfg,
                w,
                x,
                now[w].size,
            )
    &&& forall|x: int|
        0 <= x < n ==> {
            let lines = dep_lines(
                cfg,
                order,
                sizes_of(now),
                x,
                if x < d {
                    p + 1
                } else {
                    p
                },
            );
            &&& now[x].changelog == (#[trigger] before[x]).changelog + lines
            &&& now[x].present == (before[x].present || lines.len() > 0)
        }
    &&& unused_slots_empty(now)
}

/// The lines of a project depend on the sizes of the projects that came
/// before in the order only.
proof fn lemma_dep_lines_frame(
    cfg: ConfigFile,
    order: Seq<usize>,
    s1: Seq<Size>,
    s2: Seq<Size>,
    x: int,
    upto: int,
)
    requires
        0 <= upto <= order.len(),
        forall|q: int| 0 <= q < upto ==> s1[(#[trigger] order[q]) as int] == s2[order[q] as int],
    ensures
        dep_lines(cfg, order, s1, x, upto) == dep_lines(cfg, order, s2, x, upto),
    decreases upto,
{
    if upto > 0 {
        lemma_dep_lines_frame(cfg, order, s1, s2, x, upto - 1);
        assert(s1[order[upto - 1] as int] == s2[order[upto - 1] as int]);
    }
}

pub(crate) proof fn lemma_carry_start(
    cfg: ConfigFile,
    order: Seq<usize>,
    pos: Seq<int>,
    before: Seq<SlotView>,
    chain0: Seq<(ProjectId, ProjectId)>,
)
    requires
        topo_with(cfg, order, pos),
        before.len() == cfg.projects@.len(),
        unused_slots_empty(before),
    ensures
        carry_ok(cfg, order, pos, 0, 0, before, before, chain0, chain0),
{
    assert forall|w: int, x: int| #[trigger] edge(cfg, w, x) implies 0 <= w < cfg.projects@.len() && 0
        <= x < cfg.projects@.len() by {
        lemma_edge_bounds(cfg, w, x);
    }
    reveal(carry_ok);
    assert(chain0 =~= chain0 + writes(cfg, order, 0) + (if 0 < order.len() {
        out_writes(cfg, order[0] as int, 0)
    } else {
        Seq::empty()
    }));
    assert forall|x: int| 0 <= x < before.len() implies {
        let lines = dep_lines(cfg, order, sizes_of(before), x, 0);
        &&& before[x].changelog == (#[trigger] before[x]).changelog + lines
        &&& before[x].present == (before[x].present || lines.len() > 0)
    } by {
        assert(before[x].changelog =~= before[x].changelog + Seq::<EntryView>::empty());
    }
}

/// The walk moves on from dependent `d` of project `order[p]`, which does
/// not depend on that project.
pub(crate) proof fn lemma_carry_skip(
    cfg: ConfigFile,
    order: Seq<usize>,
    pos: Seq<int>,
    p: int,
    d: int,
    before: Seq<SlotView>,
    now: Seq<SlotView>,
    chain0: Seq<(ProjectId, ProjectId)>,
    chain: Seq<(ProjectId, ProjectId)>,
)
    requires
        carry_ok(cfg, order, pos, p, d, before, now, chain0, chain),
        p < order.len(),
        d < cfg.projects@.len(),
        !edge(cfg, order[p] as int, d),
    ensures
        carry_ok(cfg, order, pos, p, d + 1, before, now, chain0, chain),
{
    assert forall|w: int, x: int| #[trigger] edge(cfg, w, x) implies 0 <= w < cfg.projects@.len() && 0
        <= x < cfg.projects@.len() by {
        lemma_edge_bounds(cfg, w, x);
    }
    reveal(carry_ok);
    let n = cfg.projects@.len() as int;
    let u = order[p] as int;
    assert(forall|w: int, x: int|
        #[trigger] handled(cfg, pos, w, x, p, d + 1) ==> handled(cfg, pos, w, x, p, d)) by {
        assert forall|w: int, x: int| #[trigger] handled(cfg, pos, w, x, p, d + 1) implies handled(
            cfg,
            pos,
            w,
            x,
            p,
            d,
        ) by {
            if pos[w] == p && x == d {
                assert(order[pos[w]] == w);
            }
        }
    }
    assert forall|x: int| 0 <= x < n implies now[x].size == (#[trigger] before[x]).size || exists|
        w: int,
    |
        #[trigger] handled(cfg, pos, w, x, p, d + 1) && now[x].size == carried(cfg, w, x, now[w].size) by {
        if now[x].size != before[x].size {
            let w = choose|w: int|
                #[trigger] handled(cfg, pos, w, x, p, d) && now[x].size == carried(
                    cfg,
                    w,
                    x,
                    now[w].size,
                );
            assert(handled(cfg, pos, w, x, p, d + 1));
        }
    }
}

/// The walk deals with the edge from project `order[p]` to its dependent
/// `d`.
pub(crate) proof fn lemma_carry_edge(
    cfg: ConfigFile,
    order: Seq<usize>,
    pos: Seq<int>,
    p: int,
    d: int,
    before: Seq<SlotView>,
    now: Seq<SlotView>,
    chain0: Seq<(ProjectId, ProjectId)>,
    chain: Seq<(ProjectId, ProjectId)>,
    next: Seq<SlotView>,
)
    requires
        carry_ok(cfg, order, pos, p, d, before, now, chain0, chain),
        p < order.len(),
        d < cfg.projects@.len(),
        edge(cfg, order[p] as int, d),
        next.len() == now.len(),
        forall|x: int| 0 <= x < now.len() && x != d ==> next[x] == now[x],
        ({
            let u = order[p] as int;
            let conv = carried(cfg, u, d, now[u].size);
            if conv != Size::Empty {
                next[d] == (SlotView {
                    present: true,
                    size: now[d].size.join(conv),
                    changelog: now[d].changelog.push(
                        EntryView::Dep(cfg.projects@[u].id, cfg.projects@[u].name@),
                    ),
                })
            } else {
                next[d] == now[d]
            }
        }),
    ensures
        order[p] as int != d,
        carry_ok(
            cfg,
            order,
            pos,
            p,
            d + 1,
            before,
            next,
            chain0,
            chain.push((cfg.projects@[order[p] as int].id, cfg.projects@[d].id)),
        ),
{
    assert forall|w: int, x: int| #[trigger] edge(cfg, w, x) implies 0 <= w < cfg.projects@.len() && 0
        <= x < cfg.projects@.len() by {
        lemma_edge_bounds(cfg, w, x);
    }
    reveal(carry_ok);
    let n = cfg.projects@.len() as int;
    let u = order[p] as int;
    let conv = carried(cfg, u, d, now[u].size);
    let chain2 = chain.push((cfg.projects@[u].id, cfg.projects@[d].id));
    assert(pos[u] == p);
    assert(pos[u] < pos[d]);
    assert(u != d);
    assert(next[u] == now[u]);
    assert(chain2 =~= chain0 + writes(cfg, order, p) + out_writes(cfg, u, d + 1));
    // no edge out of `d` has been handled yet
    assert forall|w: int, x: int| #[trigger] handled(cfg, pos, w, x, p, d + 1) implies w != d by {
        if w == d {
            assert(pos[d] > p);
        }
    }
    assert forall|w: int, x: int| #[trigger] handled(cfg, pos, w, x, p, d + 1) implies carried(
        cfg,
        w,
        x,
        next[w].size,
    ).at_most(next[x].size) by {
        assert(w != d);
        assert(next[w] == now[w]);
        if w == u && x == d {
        } else {
            if pos[w] == p {
                assert(order[pos[w]] == w);
            }
            assert(handled(cfg, pos, w, x, p, d));
            assert(carried(cfg, w, x, now[w].size).at_most(now[x].size));
        }
    }
    assert forall|x: int| 0 <= x < n implies next[x].size == (#[trigger] before[x]).size || exists|
        w: int,
    |
        #[trigger] handled(cfg, pos, w, x, p, d + 1) && next[x].size == carried(cfg, w, x, next[w].size) by {
        if x == d && next[d].size != now[d].size {
            assert(handled(cfg, pos, u, d, p, d + 1));
            assert(next[d].size == carried(cfg, u, d, next[u].size));
        } else if next[x].size != before[x].size {
            assert(next[x].size == now[x].size);
            let w = choose|w: int|
                #[trigger] handled(cfg, pos, w, x, p, d) && now[x].size == carried(
                    cfg,
                    w,
                    x,
                    now[w].size,
                );
            assert(handled(cfg, pos, w, x, p, d + 1));
            assert(w != d);
            assert(next[w] == now[w]);
        }
    }
    assert forall|x: int| 0 <= x < n implies (#[trigger] before[x]).size.at_most(next[x].size) by {
        assert(before[x].size.at_most(now[x].size));
    }
    assert forall|x: int| 0 <= x < n implies {
        let lines = dep_lines(
            cfg,
            order,
            sizes_of(next),
            x,
            if x < d + 1 {
                p + 1
            } else {
                p
            },
        );
        &&& next[x].changelog == (#[trigger] before[x]).changelog + lines
        &&& next[x].present == (before[x].present || lines.len() > 0)
    } by {
        let upto = if x < d + 1 {
            p + 1
        } else {
            p
        };
        assert forall|q: int| 0 <= q < upto implies sizes_of(next)[(#[trigger] order[q]) as int]
            == sizes_of(now)[order[q] as int] by {
            if order[q] as int == d {
                assert(pos[order[q] as int] == q);
            }
        }
        lemma_dep_lines_frame(cfg, order, sizes_of(next), sizes_of(now), x, upto);
        if x == d {
            let old_lines = dep_lines(cfg, order, sizes_of(now), d, p);
            assert(now[d].changelog == before[d].changelog + old_lines);
            if conv != Size::Empty {
                assert(next[d].changelog =~= before[d].changelog + old_lines.push(
                    EntryView::Dep(cfg.projects@[u].id, cfg.projects@[u].name@),
                ));
            }
        } else {
            assert(next[x] == now[x]);
        }
    }
    assert forall|i: int| 0 <= i < next.len() && !(#[trigger] next[i]).present implies next[i].size
        == Size::Empty && next[i].changelog.len() == 0 by {
        if i != d || conv == Size::Empty {
            assert(next[i] == now[i]);
        }
    }
}

/// The walk is through with project `order[p]` and turns to the next.
pub(crate) proof fn lemma_carry_next(
    cfg: ConfigFile,
    order: Seq<usize>,
    pos: Seq<int>,
    p: int,
    before: Seq<SlotView>,
    now: Seq<SlotView>,
    chain0: Seq<(ProjectId, ProjectId)>,
    chain: Seq<(ProjectId, ProjectId)>,
)
    requires
        carry_ok(cfg, order, pos, p, cfg.projects@.len() as int, before, now, chain0, chain),
        p < order.len(),
    ensures
        carry_ok(cfg, order, pos, p + 1, 0, before, now, chain0, chain),
{
    assert forall|w: int, x: int| #[trigger] edge(cfg, w, x) implies 0 <= w < cfg.projects@.len() && 0
        <= x < cfg.projects@.len() by {
        lemma_edge_bounds(cfg, w, x);
    }
    reveal(carry_ok);
    let n = cfg.projects@.len() as int;
    assert(chain =~= chain0 + writes(cfg, order, p + 1) + (if p + 1 < order.len() {
        out_writes(cfg, order[p + 1] as int, 0)
    } else {
        Seq::empty()
    }));
    assert forall|w: int, x: int| #[trigger] handled(cfg, pos, w, x, p + 1, 0) implies carried(
        cfg,
        w,
        x,
        now[w].size,
    ).at_most(now[x].size) by {
        assert(handled(cfg, pos, w, x, p, n));
    }
    assert forall|x: int| 0 <= x < n implies now[x].size == (#[trigger] before[x]).size || exists|
        w: int,
    |
        #[trigger] handled(cfg, pos, w, x, p + 1, 0) && now[x].size == carried(cfg, w, x, now[w].size) by {
        if now[x].size != before[x].size {
            let w = choose|w: int|
                #[trigger] handled(cfg, pos, w, x, p, n) && now[x].size == carried(
                    cfg,
                    w,
                    x,
                    now[w].size,
                );
            assert(handled(cfg, pos, w, x, p + 1, 0));
        }
    }
}

/// What the walk has brought about once it is through with every project.
pub(crate) proof fn lemma_carry_done(
    cfg: ConfigFile,
    order: Seq<usize>,
    pos: Seq<int>,
    before: Seq<SlotView>,
    now: Seq<SlotView>,
    chain0: Seq<(ProjectId, ProjectId)>,
    chain: Seq<(ProjectId, ProjectId)>,
)
    requires
        carry_ok(cfg, order, pos, order.len() as int, 0, before, now, chain0, chain),
    ensures
        deps_applied(cfg, order, before, now),
        chain == chain0 + writes(cfg, order, order.len() as int),
        unused_slots_empty(now),
{
    assert forall|w: int, x: int| #[trigger] edge(cfg, w, x) implies 0 <= w < cfg.projects@.len() && 0
        <= x < cfg.projects@.len() by {
        lemma_edge_bounds(cfg, w, x);
    }
    reveal(carry_ok);
    let n = cfg.projects@.len() as int;
    let m = order.len() as int;
    assert(chain =~= chain0 + writes(cfg, order, m));
    let b = sizes_of(before);
    let a = sizes_of(now);
    assert forall|u: int, d: int| #[trigger] edge(cfg, u, d) implies carried(cfg, u, d, a[u]).at_most(
        a[d],
    ) by {
        assert(handled(cfg, pos, u, d, m, 0));
    }
    assert forall|x: int| 0 <= x < a.len() implies a[x] == (#[trigger] b[x]) || exists|u: int|
        #[trigger] edge(cfg, u, x) && a[x] == carried(cfg, u, x, a[u]) by {
        assert(b[x] == before[x].size);
        if now[x].size != before[x].size {
            let w = choose|w: int|
                #[trigger] handled(cfg, pos, w, x, m, 0) && now[x].size == carried(
                    cfg,
                    w,
                    x,
                    now[w].size,
                );
            assert(edge(cfg, w, x) && a[x] == carried(cfg, w, x, a[w]));
        }
    }
    assert forall|x: int| 0 <= x < b.len() implies (#[trigger] b[x]).at_most(a[x]) by {
        assert(before[x].size.at_most(now[x].size));
    }
}

/// What [`carry_ok`] says of the sizes and bounds that the walk reads.
pub(crate) proof fn lemma_carry_bounds(
    cfg: ConfigFile,
    order: Seq<usize>,
    pos: Seq<int>,
    p: int,
    d: int,
    before: Seq<SlotView>,
    now: Seq<SlotView>,
    chain0: Seq<(ProjectId, ProjectId)>,
    chain: Seq<(ProjectId, ProjectId)>,
)
    requires
        carry_ok(cfg, order, pos, p, d, before, now, chain0, chain),
    ensures
        now.len() == cfg.projects@.len(),
        0 <= p <= order.len(),
        p < order.len() ==> order[p] < cfg.projects@.len(),
{
    reveal(carry_ok);
}

proof fn lemma_out_writes_holds(cfg: ConfigFile, u: int, d: int, upto: int)
    requires
        edge(cfg, u, d),
        d < upto,
    ensures
        out_writes(cfg, u, upto).contains((cfg.projects@[u].id, cfg.projects@[d].id)),
    decreases upto,
{
    lemma_edge_bounds(cfg, u, d);
    let e = (cfg.projects@[u].id, cfg.projects@[d].id);
    if d == upto - 1 {
        let w = out_writes(cfg, u, upto);
        assert(w[w.len() - 1] == e);
    } else {
        lemma_out_writes_holds(cfg, u, d, upto - 1);
        let prev = out_writes(cfg, u, upto - 1);
        let i = choose|i: int| 0 <= i < prev.len() && prev[i] == e;
        assert(out_writes(cfg, u, upto)[i] == e);
    }
}

proof fn lemma_writes_holds(cfg: ConfigFile, order: Seq<usize>, q: int, upto: int, e: (
    ProjectId,
    ProjectId,
))
    requires
        0 <= q < upto,
        out_writes(cfg, order[q] as int, cfg.projects@.len() as int).contains(e),
    ensures
        writes(cfg, order, upto).contains(e),
    decreases upto,
{
    let prev = writes(cfg, order, upto - 1);
    let last = out_writes(cfg, order[upto - 1] as int, cfg.projects@.len() as int);
    if q == upto - 1 {
        let i = choose|i: int| 0 <= i < last.len() && last[i] == e;
        assert((prev + last)[prev.len() + i] == e);
    } else {
        lemma_writes_holds(cfg, order, q, upto - 1, e);
        let i = choose|i: int| 0 <= i < prev.len() && prev[i] == e;
        assert((prev + last)[i] == e);
    }
}

/// The chain writes leave out no dependency: whatever the sizes, every
/// edge of the configuration is among them.
pub proof fn law_chain_writes_complete(cfg: ConfigFile, order: Seq<usize>, u: int, d: int)
    requires
        is_topo(cfg, order),
        edge(cfg, u, d),
    ensures
        writes(cfg, order, order.len() as int).contains((cfg.projects@[u].id, cfg.projects@[d].id)),
{
    let pos = choose|pos: Seq<int>| topo_with(cfg, order, pos);
    lemma_edge_bounds(cfg, u, d);
    lemma_out_writes_holds(cfg, u, d, cfg.projects@.len() as int);
    assert(order[pos[u]] == u);
    lemma_writes_holds(
        cfg,
        order,
        pos[u],
        order.len() as int,
        (cfg.projects@[u].id, cfg.projects@[d].id),
    );
}

proof fn lemma_out_writes_edges(cfg: ConfigFile, u: int, upto: int, i: int)
    requires
        0 <= i < out_writes(cfg, u, upto).len(),
    ensures
        exists|d: int|
            #[trigger] edge(cfg, u, d) && out_writes(cfg, u, upto)[i] == (
                cfg.projects@[u].id,
                cfg.projects@[d].id,
            ),
    decreases upto,
{
    if upto > 0 {
        let prev = out_writes(cfg, u, upto - 1);
        if i < prev.len() {
            lemma_out_writes_edges(cfg, u, upto - 1, i);
            let d = choose|d: int|
                #[trigger] edge(cfg, u, d) && prev[i] == (cfg.projects@[u].id, cfg.projects@[d].id);
            assert(edge(cfg, u, d) && out_writes(cfg, u, upto)[i] == (
                cfg.projects@[u].id,
                cfg.projects@[d].id,
            ));
        } else {
            assert(edge(cfg, u, upto - 1));
        }
    }
}

/// The chain writes hold dependencies only: each of them is the pair of
/// an upstream project and a project that depends on it.
pub proof fn law_chain_writes_are_edges(cfg: ConfigFile, order: Seq<usize>, upto: int, i: int)
    requires
        0 <= upto <= order.len(),
        0 <= i < writes(cfg, order, upto).len(),
    ensures
        exists|u: int, d: int|
            #[trigger] edge(cfg, u, d) && writes(cfg, order, upto)[i] == (
                cfg.projects@[u].id,
                cfg.projects@[d].id,
            ),
    decreases upto,
{
    if upto > 0 {
        let prev = writes(cfg, order, upto - 1);
        let u = order[upto - 1] as int;
        let last = out_writes(cfg, u, cfg.projects@.len() as int);
        if i < prev.len() {
            law_chain_writes_are_edges(cfg, order, upto - 1, i);
            let (a, b) = choose|a: int, b: int|
                #[trigger] edge(cfg, a, b) && prev[i] == (cfg.projects@[a].id, cfg.projects@[b].id);
            assert(edge(cfg, a, b) && writes(cfg, order, upto)[i] == (
                cfg.projects@[a].id,
                cfg.projects@[b].id,
            ));
        } else {
            lemma_out_writes_edges(cfg, u, cfg.projects@.len() as int, i - prev.len());
            let d = choose|d: int|
                #[trigger] edge(cfg, u, d) && last[i - prev.len()] == (
                    cfg.projects@[u].id,
                    cfg.projects@[d].id,
                );
            assert(edge(cfg, u, d) && writes(cfg, order, upto)[i] == (
                cfg.projects@[u].id,
                cfg.projects@[d].id,
            ));
        }
    }
}

/// A bump reaches the projects downstream: where project `a` depends on
/// project `b` over an edge that hands every size on unchanged, `a` ends up
/// at least as large as `b` was and as `b` ends up, and the edge is among
/// the chain writes. So a `Minor` bump of `b` makes `a` at least `Minor`.
pub proof fn law_bump_reaches_dependents(
    cfg: ConfigFile,
    order: Seq<usize>,
    before: Seq<Size>,
    after: Seq<Size>,
    a: int,
    b: int,
)
    requires
        is_topo(cfg, order),
        propagated(cfg, before, after),
        edge(cfg, b, a),
        forall|s: Size| carried(cfg, b, a, s) == s,
    ensures
        before[b].at_most(after[a]),
        after[b].at_most(after[a]),
        writes(cfg, order, order.len() as int).contains((cfg.projects@[b].id, cfg.projects@[a].id)),
{
    lemma_edge_bounds(cfg, b, a);
    assert(carried(cfg, b, a, after[b]).at_most(after[a]));
    assert(before[b].at_most(after[b]));
    law_chain_writes_complete(cfg, order, b, a);
}

/// The sizes after propagation are settled by the sizes before it: where
/// the dependencies form no cycle, two outcomes of carrying the same sizes
/// along them agree on every project.
pub proof fn law_propagation_is_unique(
    cfg: ConfigFile,
    before: Seq<Size>,
    one: Seq<Size>,
    other: Seq<Size>,
    x: int,
)
    requires
        acyclic(cfg),
        propagated(cfg, before, one),
        propagated(cfg, before, other),
        0 <= x < cfg.projects@.len(),
    ensures
        one[x] == other[x],
{
    let rank = choose|rank: Seq<int>| crate::graph::ranks(cfg, rank);
    lemma_unique_at(cfg, rank, before, one, other, x);
}

proof fn lemma_unique_at(
    cfg: ConfigFile,
    rank: Seq<int>,
    before: Seq<Size>,
    one: Seq<Size>,
    other: Seq<Size>,
    x: int,
)
    requires
        crate::graph::ranks(cfg, rank),
        propagated(cfg, before, one),
        propagated(cfg, before, other),
        0 <= x < cfg.projects@.len(),
    ensures
        one[x] == other[x],
    decreases rank[x] - crate::graph::lowest(rank),
{
    assert(before[x].at_most(other[x]));
    assert(before[x].at_most(one[x]));
    if one[x] != before[x] {
        let u = choose|u: int| #[trigger] edge(cfg, u, x) && one[x] == carried(cfg, u, x, one[u]);
        lemma_edge_bounds(cfg, u, x);
        crate::graph::lemma_lowest(rank, u);
        lemma_unique_at(cfg, rank, before, one, other, u);
        assert(carried(cfg, u, x, other[u]).at_most(other[x]));
    }
    assert(one[x].at_most(other[x]));
    if other[x] != before[x] {
        let u = choose|u: int| #[trigger] edge(cfg, u, x) && other[x] == carried(cfg, u, x, other[u]);
        lemma_edge_bounds(cfg, u, x);
        crate::graph::lemma_lowest(rank, u);
        lemma_unique_at(cfg, rank, before, one, other, u);
        assert(carried(cfg, u, x, one[u]).at_most(one[x]));
    }
    assert(other[x].at_most(one[x]));
}

} // verus!
