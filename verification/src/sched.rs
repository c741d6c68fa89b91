//! The mathematical model of scheduling: graph views, readiness, the
//! deterministic Kahn order, validity of a topological order, and the
//! lemmas connecting a stuck schedule or a directed cycle to the absence
//! of any valid order.

use vstd::prelude::*;

verus! {

/// Mathematical value of an `Edge`.
#[verifier::ext_equal]
pub ghost struct EdgeView {
    pub from_block: Seq<char>,
    pub from_port: Seq<char>,
    pub to_block: Seq<char>,
    pub to_port: Seq<char>,
}

/// Mathematical value of a `GraphSpec`.
#[verifier::ext_equal]
pub ghost struct GraphView {
    pub blocks: Seq<Seq<char>>,
    pub edges: Seq<EdgeView>,
}

/// Block `b` is ready once every edge into it comes from an
/// already-scheduled block.
pub open spec fn ready(g: GraphView, done: Seq<Seq<char>>, b: Seq<char>) -> bool {
    forall|k: int|
        0 <= k < g.edges.len() && (#[trigger] g.edges[k]).to_block == b ==> done.contains(
            g.edges[k].from_block,
        )
}

/// Block `b` is schedulable next: not yet scheduled, and ready.
pub open spec fn schedulable(g: GraphView, done: Seq<Seq<char>>, b: Seq<char>) -> bool {
    !done.contains(b) && ready(g, done, b)
}

/// The first block at index `i` or later of `g.blocks` that is
/// schedulable after `done`.
pub open spec fn pick_from(g: GraphView, done: Seq<Seq<char>>, i: int) -> Option<Seq<char>>
    decreases g.blocks.len() - i,
{
    if i < 0 || i >= g.blocks.len() {
        None
    } else if schedulable(g, done, g.blocks[i]) {
        Some(g.blocks[i])
    } else {
        pick_from(g, done, i + 1)
    }
}

/// The next block to schedule. The tie-break among simultaneously ready
/// blocks is the original list order of `g.blocks`.
pub open spec fn pick_ready(g: GraphView, done: Seq<Seq<char>>) -> Option<Seq<char>> {
    pick_from(g, done, 0)
}

/// Extend `done` by repeatedly scheduling the next ready block, at most
/// `fuel` more times.
pub open spec fn kahn_from(g: GraphView, done: Seq<Seq<char>>, fuel: nat) -> Seq<Seq<char>>
    decreases fuel,
{
    if fuel == 0 {
        done
    } else {
        match pick_ready(g, done) {
            None => done,
            Some(b) => kahn_from(g, done.push(b), (fuel - 1) as nat),
        }
    }
}

/// The deterministic schedule of `g`. When the graph cannot be fully
/// scheduled this is only a prefix of `g.blocks`'s length.
pub open spec fn kahn_order(g: GraphView) -> Seq<Seq<char>> {
    kahn_from(g, Seq::empty(), g.blocks.len())
}

/// `a` comes strictly before `b` somewhere in `ord`.
pub open spec fn precedes(ord: Seq<Seq<char>>, a: Seq<char>, b: Seq<char>) -> bool {
    exists|i: int, j: int| 0 <= i < j < ord.len() && ord[i] == a && ord[j] == b
}

/// Edge `e` is respected by `ord`: its source is scheduled, and where its
/// target is scheduled too, the source comes earlier.
pub open spec fn edge_respected(ord: Seq<Seq<char>>, e: EdgeView) -> bool {
    ord.contains(e.from_block) && (ord.contains(e.to_block) ==> precedes(
        ord,
        e.from_block,
        e.to_block,
    ))
}

/// `ord` is a valid topological order of `g`: a permutation of
/// `g.blocks` that respects every edge.
pub open spec fn topo_ok(ord: Seq<Seq<char>>, g: GraphView) -> bool {
    &&& ord.no_duplicates()
    &&& ord.len() == g.blocks.len()
    &&& forall|b: Seq<char>| #[trigger] ord.contains(b) ==> g.blocks.contains(b)
    &&& forall|b: Seq<char>| #[trigger] g.blocks.contains(b) ==> ord.contains(b)
    &&& forall|k: int| 0 <= k < g.edges.len() ==> edge_respected(ord, #[trigger] g.edges[k])
}

/// Some valid topological order of `g` exists; equivalently, every
/// edge's source is listed and the graph restricted to `g.blocks` is
/// acyclic.
pub open spec fn sortable(g: GraphView) -> bool {
    exists|ord: Seq<Seq<char>>| topo_ok(ord, g)
}

/// In a valid topological order, each edge's source stands strictly
/// before its target: any position `i` of the source and `j` of the
/// target satisfy `i < j`.
pub proof fn lemma_topo_edge_precedence(ord: Seq<Seq<char>>, g: GraphView, k: int, i: int, j: int)
    requires
        topo_ok(ord, g),
        0 <= k < g.edges.len(),
        0 <= i < ord.len(),
        0 <= j < ord.len(),
        ord[i] == g.edges[k].from_block,
        ord[j] == g.edges[k].to_block,
    ensures
        i < j,
{
    assert(edge_respected(ord, g.edges[k]));
    assert(ord.contains(ord[i]));
    assert(ord.contains(ord[j]));
    assert(precedes(ord, g.edges[k].from_block, g.edges[k].to_block));
    let a = g.edges[k].from_block;
    let b = g.edges[k].to_block;
    let (i2, j2) = choose|i2: int, j2: int|
        0 <= i2 < j2 < ord.len() && ord[i2] == a && ord[j2] == b;
    assert(i2 == i) by {
        if i2 != i {
            assert(ord[i2] == ord[i]);
        }
    }
    assert(j2 == j) by {
        if j2 != j {
            assert(ord[j2] == ord[j]);
        }
    }
}

/// Edge `e` runs from `a` to `b`.
pub open spec fn edge_connects(e: EdgeView, a: Seq<char>, b: Seq<char>) -> bool {
    e.from_block == a && e.to_block == b
}

/// Some edge of `g` runs from `c[i]` to the next element of `c`,
/// wrapping around at the end.
pub open spec fn cycle_step(g: GraphView, c: Seq<Seq<char>>, i: int) -> bool {
    exists|k: int|
        0 <= k < g.edges.len() && edge_connects(
            #[trigger] g.edges[k],
            c[i],
            c[if i + 1 < c.len() {
                i + 1
            } else {
                0
            }],
        )
}

/// `c` names a directed cycle in `g`: a nonempty sequence of listed
/// blocks, each with an edge to the next, wrapping around at the end.
pub open spec fn is_cycle(g: GraphView, c: Seq<Seq<char>>) -> bool {
    &&& c.len() >= 1
    &&& forall|i: int| 0 <= i < c.len() ==> g.blocks.contains(#[trigger] c[i])
    &&& forall|i: int| 0 <= i < c.len() ==> #[trigger] cycle_step(g, c, i)
}

/// What a `Some` or `None` result of `pick_from` means: a found block is
/// schedulable and listed; nothing found means nothing at index `i` or
/// later is schedulable.
pub proof fn lemma_pick_from_props(g: GraphView, done: Seq<Seq<char>>, i: int)
    requires
        0 <= i,
    ensures
        match pick_from(g, done, i) {
            Some(b) => schedulable(g, done, b) && g.blocks.contains(b),
            None => forall|j: int|
                i <= j < g.blocks.len() ==> !schedulable(g, done, #[trigger] g.blocks[j]),
        },
    decreases g.blocks.len() - i,
{
    if i < 0 || i >= g.blocks.len() {
    } else if schedulable(g, done, g.blocks[i]) {
    } else {
        lemma_pick_from_props(g, done, i + 1);
    }
}

/// Some edge of `g` enters `b` from inside `u` or from an unlisted
/// block.
pub open spec fn has_blocking_edge(g: GraphView, u: Set<Seq<char>>, b: Seq<char>) -> bool {
    exists|k: int|
        0 <= k < g.edges.len() && (#[trigger] g.edges[k]).to_block == b && (u.contains(
            g.edges[k].from_block,
        ) || !g.blocks.contains(g.edges[k].from_block))
}

/// `u` is a set of listed blocks each of which some edge enters from
/// inside `u` or from an unlisted block.
pub open spec fn blocked_set(g: GraphView, u: Set<Seq<char>>) -> bool {
    &&& forall|b: Seq<char>| #[trigger] u.contains(b) ==> g.blocks.contains(b)
    &&& forall|b: Seq<char>| u.contains(b) ==> #[trigger] has_blocking_edge(g, u, b)
}

/// In a valid topological order of `g`, no position holds a member of a
/// blocked set: its waited-for source would have to come even earlier.
proof fn lemma_blocked_not_at(g: GraphView, u: Set<Seq<char>>, ord: Seq<Seq<char>>, j: int)
    requires
        blocked_set(g, u),
        topo_ok(ord, g),
        0 <= j < ord.len(),
    ensures
        !u.contains(ord[j]),
    decreases j,
{
    if u.contains(ord[j]) {
        let b = ord[j];
        assert(has_blocking_edge(g, u, b));
        let ke = choose|ke: int|
            0 <= ke < g.edges.len() && (#[trigger] g.edges[ke]).to_block == b && (u.contains(
                g.edges[ke].from_block,
            ) || !g.blocks.contains(g.edges[ke].from_block));
        let e = g.edges[ke];
        assert(edge_respected(ord, e));
        assert(ord.contains(e.from_block));
        assert(g.blocks.contains(e.from_block));
        assert(u.contains(e.from_block));
        assert(ord.contains(e.to_block));
        assert(precedes(ord, e.from_block, e.to_block));
        let (i2, j2) = choose|i2: int, j2: int|
            0 <= i2 < j2 < ord.len() && ord[i2] == e.from_block && ord[j2] == b;
        assert(j2 == j) by {
            if j2 != j {
                assert(ord[j2] == ord[j]);
            }
        }
        lemma_blocked_not_at(g, u, ord, i2);
        assert(false);
    }
}

/// A nonempty set `u` of listed blocks, each of which some edge enters
/// from inside `u` or from an unlisted block, admits no valid
/// topological order: the `u`-member scheduled first would still wait
/// for one of its sources.
pub proof fn lemma_blocked_unsortable(g: GraphView, u: Set<Seq<char>>)
    requires
        exists|b: Seq<char>| u.contains(b),
        blocked_set(g, u),
    ensures
        !sortable(g),
{
    if sortable(g) {
        let ord = choose|ord: Seq<Seq<char>>| topo_ok(ord, g);
        let b0 = choose|b: Seq<char>| u.contains(b);
        assert(g.blocks.contains(b0));
        assert(ord.contains(b0));
        let i0 = choose|i: int| 0 <= i < ord.len() && ord[i] == b0;
        lemma_blocked_not_at(g, u, ord, i0);
        assert(false);
    }
}

/// A graph containing a directed cycle has no valid topological order,
/// so `topological_order` and `run` report `ExecutionError::Cycle` on
/// it.
pub proof fn lemma_cycle_unsortable(g: GraphView, c: Seq<Seq<char>>)
    requires
        is_cycle(g, c),
    ensures
        !sortable(g),
{
    let u = Set::new(|b: Seq<char>| c.contains(b));
    assert(u.contains(c[0]));
    assert forall|b: Seq<char>| #[trigger] u.contains(b) implies g.blocks.contains(b) by {
        let i = choose|i: int| 0 <= i < c.len() && c[i] == b;
        assert(g.blocks.contains(c[i]));
    }
    assert forall|b: Seq<char>| u.contains(b) implies #[trigger] has_blocking_edge(g, u, b) by {
        let i = choose|i: int| 0 <= i < c.len() && c[i] == b;
        let ip = if i == 0 {
            c.len() - 1
        } else {
            i - 1
        };
        let inext = if ip + 1 < c.len() {
            ip + 1
        } else {
            0
        };
        assert(inext == i);
        assert(cycle_step(g, c, ip));
        let k = choose|k: int|
            0 <= k < g.edges.len() && edge_connects(#[trigger] g.edges[k], c[ip], c[inext]);
        assert(u.contains(c[ip]));
        assert(g.edges[k].to_block == b && u.contains(g.edges[k].from_block));
    }
    lemma_blocked_unsortable(g, u);
}

} // verus!
