//! The engine: a registry of block instances, topological scheduling of
//! a graph, and the execution loop that routes artifacts along edges.

use vstd::prelude::*;
use crate::model::{ArtifactMap, ArtifactView, Block, BlockError, BlockErrorView, BlockId, PortId};
use crate::sched::{
    blocked_set, edge_respected, has_blocking_edge, kahn_from, kahn_order, lemma_blocked_unsortable,
    lemma_pick_from_props, pick_from, pick_ready, precedes, ready, schedulable, sortable, topo_ok,
    EdgeView, GraphView,
};
use crate::table::Table;

verus! {

/// A directed dependency: the artifact produced at `from_port` of
/// `from_block` becomes available as input `to_port` on `to_block`.
#[derive(Debug)]
pub struct Edge {
    pub from_block: BlockId,
    pub from_port: PortId,
    pub to_block: BlockId,
    pub to_port: PortId,
}

impl View for Edge {
    type V = EdgeView;

    open spec fn view(&self) -> EdgeView {
        EdgeView {
            from_block: self.from_block@,
            from_port: self.from_port@,
            to_block: self.to_block@,
            to_port: self.to_port@,
        }
    }
}

/// The views of a list of block ids.
pub open spec fn ids_view(s: Seq<String>) -> Seq<Seq<char>> {
    s.map_values(|b: String| b@)
}

/// The views of a list of edges.
pub open spec fn edges_view(s: Seq<Edge>) -> Seq<EdgeView> {
    s.map_values(|e: Edge| e@)
}

/// The static shape of one pipeline run: the participating block ids
/// and the edges between their ports. Only blocks listed here take part
/// in scheduling, even if more blocks are registered.
#[derive(Debug)]
pub struct GraphSpec {
    pub blocks: Vec<BlockId>,
    pub edges: Vec<Edge>,
}

impl View for GraphSpec {
    type V = GraphView;

    open spec fn view(&self) -> GraphView {
        GraphView { blocks: ids_view(self.blocks@), edges: edges_view(self.edges@) }
    }
}

impl GraphSpec {
    /// A well-formed graph lists each participating block id once.
    pub open spec fn wf(&self) -> bool {
        ids_view(self.blocks@).no_duplicates()
    }
}

/// A structural failure of a run, or a block-level failure surfaced
/// under the stop-on-error policy.
#[derive(Debug)]
pub enum ExecutionError {
    /// A scheduled block id has no registered implementation.
    MissingBlock(BlockId),
    /// The graph restricted to its listed blocks cannot be fully
    /// scheduled.
    Cycle,
    /// A block-level failure that aborted the run, carried unchanged.
    Block(BlockError),
}

/// Mathematical value of an `ExecutionError`.
pub ghost enum ExecutionErrorView {
    MissingBlock(Seq<char>),
    Cycle,
    Block(BlockErrorView),
}

impl View for ExecutionError {
    type V = ExecutionErrorView;

    open spec fn view(&self) -> ExecutionErrorView {
        match self {
            ExecutionError::MissingBlock(id) => ExecutionErrorView::MissingBlock(id@),
            ExecutionError::Cycle => ExecutionErrorView::Cycle,
            ExecutionError::Block(e) => ExecutionErrorView::Block(e@),
        }
    }
}

/// Run-wide failure policy.
#[derive(Debug, Clone, Copy)]
pub struct ExecutionOptions {
    /// Abort the run at the first block-level failure instead of
    /// continuing past it.
    pub stop_on_error: bool,
}

impl Default for ExecutionOptions {
    /// The default policy continues past block-level failures.
    fn default() -> (r: Self)
        ensures
            !r.stop_on_error,
    {
        ExecutionOptions { stop_on_error: false }
    }
}

/// The map from block ids to the artifact maps produced by the blocks
/// that executed and returned successfully.
pub type RunOutputs = Table<ArtifactMap>;

/// The registry described by a sequence of id/block entries: a later
/// entry for an id overrides an earlier one.
pub open spec fn registry_map<B>(s: Seq<(String, B)>) -> Map<Seq<char>, B>
    decreases s.len(),
{
    if s.len() == 0 {
        Map::empty()
    } else {
        registry_map(s.drop_last()).insert(s.last().0@, s.last().1)
    }
}

/// The orchestrator: owns a registry of block instances, computes the
/// execution order of a graph, and runs it. Blocks registered but not
/// listed in a graph are inert for that run.
pub struct Engine<B: Block> {
    blocks: Vec<(BlockId, B)>,
}

impl<B: Block> View for Engine<B> {
    type V = Map<Seq<char>, B>;

    closed spec fn view(&self) -> Map<Seq<char>, B> {
        registry_map(self.blocks@)
    }
}

impl<B: Block> Engine<B> {
    /// An engine with an empty registry.
    pub fn new() -> (r: Self)
        ensures
            r@ == Map::<Seq<char>, B>::empty(),
    {
        Engine { blocks: Vec::new() }
    }

    /// Install or replace the block registered under `id`. No
    /// validation against any descriptor is performed.
    pub fn register(&mut self, id: BlockId, block: B)
        ensures
            final(self)@ == old(self)@.insert(id@, block),
    {
        self.blocks.push((id, block));
        proof {
            assert(self.blocks@.drop_last() =~= old(self).blocks@);
        }
    }

    /// Compute the execution order of `g` by Kahn's algorithm, or
    /// report `ExecutionError::Cycle` when no valid order exists. The
    /// tie-break among simultaneously ready blocks is deterministic:
    /// the original list order of `g.blocks`.
    pub fn topological_order(&self, g: &GraphSpec) -> (r: Result<Vec<BlockId>, ExecutionError>)
        requires
            g.wf(),
        ensures
            (r matches Ok(order) ==> ids_view(order@) == kahn_order(g@) && topo_ok(
                ids_view(order@),
                g@,
            )),
            r is Ok <==> sortable(g@),
            (r matches Err(e) ==> e is Cycle),
    {
        let n = g.blocks.len();
        let mut order: Vec<BlockId> = Vec::new();
        proof {
            assert(ids_view(order@) =~= Seq::<Seq<char>>::empty());
        }
        while order.len() < n
            invariant
                n == g.blocks@.len(),
                g.wf(),
                order@.len() <= n,
                ids_view(order@).no_duplicates(),
                forall|i: int|
                    0 <= i < order@.len() ==> g@.blocks.contains(#[trigger] ids_view(order@)[i]),
                forall|i: int|
                    0 <= i < order@.len() ==> ready(
                        g@,
                        ids_view(order@).take(i),
                        #[trigger] ids_view(order@)[i],
                    ),
                kahn_from(g@, ids_view(order@), (n - order@.len()) as nat) == kahn_order(g@),
            decreases n - order@.len(),
        {
            let ghost dv = ids_view(order@);
            match find_ready(g, &order) {
                Some(b) => {
                    proof {
                        lemma_pick_from_props(g@, dv, 0);
                        assert(schedulable(g@, dv, b@) && g@.blocks.contains(b@));
                        assert(kahn_from(g@, dv, (n - order@.len()) as nat) == kahn_from(
                            g@,
                            dv.push(b@),
                            (n - order@.len() - 1) as nat,
                        ));
                    }
                    order.push(b);
                    proof {
                        let s = ids_view(order@);
                        assert(s =~= dv.push(b@));
                        assert(s.no_duplicates()) by {
                            assert forall|i: int, j: int| 0 <= i < j < s.len() implies s[i]
                                != s[j] by {
                                if j == s.len() - 1 {
                                    if dv[i] == b@ {
                                        assert(dv.contains(b@));
                                    }
                                }
                            }
                        }
                        assert forall|i: int| 0 <= i < s.len() implies g@.blocks.contains(
                            #[trigger] s[i],
                        ) by {}
                        assert forall|i: int| 0 <= i < s.len() implies ready(
                            g@,
                            s.take(i),
                            #[trigger] s[i],
                        ) by {
                            if i < s.len() - 1 {
                                assert(s.take(i) =~= dv.take(i));
                                assert(ready(g@, dv.take(i), dv[i]));
                            } else {
                                assert(s.take(i) =~= dv);
                            }
                        }
                    }
                }
                None => {
                    proof {
                        lemma_pick_from_props(g@, dv, 0);
                        let u = Set::new(
                            |x: Seq<char>| g@.blocks.contains(x) && !dv.contains(x),
                        );
                        assert(exists|x: Seq<char>| u.contains(x)) by {
                            broadcast use vstd::seq_lib::seq_to_set_is_finite;

                            if forall|x: Seq<char>|
                                #[trigger] g@.blocks.contains(x) ==> dv.contains(x) {
                                assert(g@.blocks.to_set().subset_of(dv.to_set()));
                                g@.blocks.unique_seq_to_set();
                                dv.unique_seq_to_set();
                                vstd::set_lib::lemma_len_subset(g@.blocks.to_set(), dv.to_set());
                                assert(false);
                            }
                            let x0 = choose|x: Seq<char>|
                                g@.blocks.contains(x) && !dv.contains(x);
                            assert(u.contains(x0));
                        }
                        assert forall|x: Seq<char>| u.contains(x) implies #[trigger]
                        has_blocking_edge(g@, u, x) by {
                            let j = choose|j: int|
                                0 <= j < g@.blocks.len() && g@.blocks[j] == x;
                            assert(!schedulable(g@, dv, g@.blocks[j]));
                            assert(!ready(g@, dv, x));
                            let k = choose|k: int|
                                0 <= k < g@.edges.len() && (#[trigger] g@.edges[k]).to_block == x
                                    && !dv.contains(g@.edges[k].from_block);
                            if g@.blocks.contains(g@.edges[k].from_block) {
                                assert(u.contains(g@.edges[k].from_block));
                            }
                        }
                        assert(blocked_set(g@, u));
                        lemma_blocked_unsortable(g@, u);
                    }
                    return Err(ExecutionError::Cycle);
                }
            }
        }
        let ghost ord = ids_view(order@);
        proof {
            assert(kahn_order(g@) == ord);
        }
        let mut k: usize = 0;
        while k < g.edges.len()
            invariant
                k <= g.edges@.len(),
                forall|k2: int|
                    0 <= k2 < k as int ==> g@.blocks.contains(
                        (#[trigger] g@.edges[k2]).from_block,
                    ),
            decreases g.edges@.len() - k,
        {
            if !contains_id(&g.blocks, &g.edges[k].from_block) {
                proof {
                    if sortable(g@) {
                        let ord2 = choose|o: Seq<Seq<char>>| topo_ok(o, g@);
                        assert(edge_respected(ord2, g@.edges[k as int]));
                        assert(ord2.contains(g@.edges[k as int].from_block));
                    }
                }
                return Err(ExecutionError::Cycle);
            }
            k += 1;
        }
        proof {
            assert forall|x: Seq<char>| #[trigger] ord.contains(x) implies g@.blocks.contains(
                x,
            ) by {
                let i = choose|i: int| 0 <= i < ord.len() && ord[i] == x;
                assert(g@.blocks.contains(ord[i]));
            }
            assert forall|x: Seq<char>| #[trigger] g@.blocks.contains(x) implies ord.contains(
                x,
            ) by {
                broadcast use vstd::seq_lib::seq_to_set_is_finite;

                if !ord.contains(x) {
                    assert(ord.to_set().subset_of(g@.blocks.to_set()));
                    assert(g@.blocks.to_set().contains(x));
                    ord.unique_seq_to_set();
                    g@.blocks.unique_seq_to_set();
                    ord.to_set().lemma_subset_not_in_lt(g@.blocks.to_set(), x);
                    assert(false);
                }
            }
            assert forall|k2: int| 0 <= k2 < g@.edges.len() implies edge_respected(
                ord,
                #[trigger] g@.edges[k2],
            ) by {
                let e = g@.edges[k2];
                assert(g@.blocks.contains(e.from_block));
                assert(ord.contains(e.from_block));
                if ord.contains(e.to_block) {
                    let j = choose|j: int| 0 <= j < ord.len() && ord[j] == e.to_block;
                    assert(ready(g@, ord.take(j), ord[j]));
                    assert(ord.take(j).contains(e.from_block));
                    let i2 = choose|i2: int| 0 <= i2 < j && ord.take(j)[i2] == e.from_block;
                    assert(ord[i2] == e.from_block && ord[j] == e.to_block);
                    assert(precedes(ord, e.from_block, e.to_block));
                }
            }
            assert(topo_ok(ord, g@));
        }
        Ok(order)
    }

    /// Execute `g`: compute the schedule, then run each block in order
    /// on the inputs assembled from its incoming edges, recording the
    /// outputs of the blocks that succeed. An unschedulable graph
    /// reports `Cycle` and a scheduled block without a registration
    /// reports `MissingBlock`, both regardless of policy; a block-level
    /// failure aborts with `Block` only under `stop_on_error`, and is
    /// otherwise only omitted from the result.
    pub fn run(&self, g: &GraphSpec, options: &ExecutionOptions) -> (r: Result<
        RunOutputs,
        ExecutionError,
    >)
        requires
            g.wf(),
        ensures
            (r matches Err(e) && e is Cycle) <==> !sortable(g@),
            sortable(g@) ==> exec_outcome(
                g@,
                self@,
                kahn_order(g@),
                0,
                Map::empty(),
                options.stop_on_error,
                run_result_view(r),
            ),
            !options.stop_on_error ==> !(r matches Err(e) && e is Block),
            (sortable(g@) && !options.stop_on_error && (forall|b: Seq<char>|
                #[trigger] g@.blocks.contains(b) ==> self@.contains_key(b))) ==> r is Ok,
            (r matches Err(ExecutionError::MissingBlock(b)) ==> g@.blocks.contains(b@)
                && !self@.contains_key(b@)),
            (r matches Ok(outs) ==> forall|b: Seq<char>|
                #[trigger] outs@.contains_key(b) ==> g@.blocks.contains(b) && self@.contains_key(
                    b,
                )),
    {
        let order = match self.topological_order(g) {
            Ok(o) => o,
            Err(e) => {
                return Err(e);
            },
        };
        let ghost ord = ids_view(order@);
        let ghost reg = self@;
        let ghost stop = options.stop_on_error;
        let mut outputs: RunOutputs = Table::new();
        let mut i: usize = 0;
        while i < order.len()
            invariant
                i <= order@.len(),
                ord == ids_view(order@),
                reg == self@,
                stop == options.stop_on_error,
                g.wf(),
                ord == kahn_order(g@),
                topo_ok(ord, g@),
                sortable(g@),
                forall|rf: Result<Map<Seq<char>, Map<Seq<char>, ArtifactView>>, ExecutionErrorView>|
                    #[trigger] exec_outcome(g@, reg, ord, i as int, outputs@, stop, rf)
                        ==> exec_outcome(g@, reg, ord, 0, Map::empty(), stop, rf),
                forall|b: Seq<char>|
                    #[trigger] outputs@.contains_key(b) ==> ord.contains(b) && reg.contains_key(b),
            decreases order@.len() - i,
        {
            let ghost outs0 = outputs@;
            let bid = &order[i];
            proof {
                assert(ord[i as int] == bid@);
                assert(ord.contains(ord[i as int]));
            }
            let block = match self.get_block(bid) {
                Some(bl) => bl,
                None => {
                    proof {
                        let rf = Result::<
                            Map<Seq<char>, Map<Seq<char>, ArtifactView>>,
                            ExecutionErrorView,
                        >::Err(ExecutionErrorView::MissingBlock(bid@));
                        assert(exec_outcome(g@, reg, ord, i as int, outs0, stop, rf));
                    }
                    return Err(ExecutionError::MissingBlock(order[i].clone()));
                },
            };
            let ins = gather_inputs(&g.edges, bid, &outputs);
            match block.run(&ins) {
                Ok(res) => {
                    let ghost resv = res@;
                    outputs.insert(order[i].clone(), res);
                    proof {
                        assert(outputs@ == outs0.insert(bid@, resv));
                        assert forall|rf: Result<
                            Map<Seq<char>, Map<Seq<char>, ArtifactView>>,
                            ExecutionErrorView,
                        >|
                            #[trigger] exec_outcome(g@, reg, ord, i as int + 1, outputs@, stop, rf)
                                implies exec_outcome(
                            g@,
                            reg,
                            ord,
                            0,
                            Map::empty(),
                            stop,
                            rf,
                        ) by {
                            assert(reg[bid@].run_ok_spec(
                                inputs_for(g@.edges, ord[i as int], outs0),
                                resv,
                            ));
                            assert(exec_outcome(g@, reg, ord, i as int, outs0, stop, rf));
                        }
                    }
                },
                Err(err) => {
                    if options.stop_on_error {
                        proof {
                            let rf = Result::<
                                Map<Seq<char>, Map<Seq<char>, ArtifactView>>,
                                ExecutionErrorView,
                            >::Err(ExecutionErrorView::Block(err@));
                            assert(reg[bid@].run_err_spec(
                                inputs_for(g@.edges, ord[i as int], outs0),
                                err@,
                            ));
                            assert(exec_outcome(g@, reg, ord, i as int, outs0, stop, rf));
                        }
                        return Err(ExecutionError::Block(err));
                    }
                    proof {
                        assert forall|rf: Result<
                            Map<Seq<char>, Map<Seq<char>, ArtifactView>>,
                            ExecutionErrorView,
                        >|
                            #[trigger] exec_outcome(g@, reg, ord, i as int + 1, outputs@, stop, rf)
                                implies exec_outcome(
                            g@,
                            reg,
                            ord,
                            0,
                            Map::empty(),
                            stop,
                            rf,
                        ) by {
                            assert(reg[bid@].run_err_spec(
                                inputs_for(g@.edges, ord[i as int], outs0),
                                err@,
                            ));
                            assert(exec_outcome(g@, reg, ord, i as int, outs0, stop, rf));
                        }
                    }
                },
            }
            i += 1;
        }
        proof {
            let rf = Result::<
                Map<Seq<char>, Map<Seq<char>, ArtifactView>>,
                ExecutionErrorView,
            >::Ok(outputs@);
            assert(exec_outcome(g@, reg, ord, i as int, outputs@, stop, rf));
        }
        Ok(outputs)
    }

    /// The block registered under `id`, if any.
    pub fn get_block(&self, id: &String) -> (r: Option<&B>)
        ensures
            match r {
                Some(b) => self@.contains_key(id@) && *b == self@[id@],
                None => !self@.contains_key(id@),
            },
    {
        let mut i: usize = self.blocks.len();
        proof {
            assert(self.blocks@.take(i as int) =~= self.blocks@);
        }
        while i > 0
            invariant
                i <= self.blocks@.len(),
                self@.contains_key(id@) == registry_map(self.blocks@.take(i as int)).contains_key(
                    id@,
                ),
                registry_map(self.blocks@.take(i as int)).contains_key(id@) ==> registry_map(
                    self.blocks@.take(i as int),
                )[id@] == self@[id@],
            decreases i,
        {
            let j = i - 1;
            proof {
                assert(self.blocks@.take(i as int).drop_last() =~= self.blocks@.take(j as int));
                assert(self.blocks@.take(i as int).last() == self.blocks@[j as int]);
            }
            if self.blocks[j].0 == *id {
                return Some(&self.blocks[j].1);
            }
            i = j;
        }
        None
    }
}

/// The input map assembled for block `b` from `edges` and the outputs
/// `outs` recorded so far: each edge into `b` whose producer recorded
/// an artifact at the edge's source port delivers that artifact under
/// the edge's target port; a later edge overrides an earlier one on the
/// same target port.
pub open spec fn inputs_for(
    edges: Seq<EdgeView>,
    b: Seq<char>,
    outs: Map<Seq<char>, Map<Seq<char>, ArtifactView>>,
) -> Map<Seq<char>, ArtifactView>
    decreases edges.len(),
{
    if edges.len() == 0 {
        Map::empty()
    } else {
        let m = inputs_for(edges.drop_last(), b, outs);
        let e = edges.last();
        if e.to_block == b && outs.contains_key(e.from_block) && outs[e.from_block].contains_key(
            e.from_port,
        ) {
            m.insert(e.to_port, outs[e.from_block][e.from_port])
        } else {
            m
        }
    }
}

/// Assemble the input map of block `b`: scan all edges targeting `b`
/// and deliver, under each edge's target port, the artifact its
/// producer recorded at the source port. Producers without recorded
/// output contribute nothing; the port is then simply absent.
pub fn gather_inputs(edges: &Vec<Edge>, b: &String, outs: &RunOutputs) -> (r: ArtifactMap)
    ensures
        r@ == inputs_for(edges_view(edges@), b@, outs@),
{
    let mut acc: ArtifactMap = Table::new();
    let mut i: usize = 0;
    proof {
        assert(edges_view(edges@).take(0) =~= Seq::<EdgeView>::empty());
    }
    while i < edges.len()
        invariant
            i <= edges@.len(),
            acc@ == inputs_for(edges_view(edges@).take(i as int), b@, outs@),
        decreases edges@.len() - i,
    {
        proof {
            assert(edges_view(edges@).take(i as int + 1).drop_last() =~= edges_view(
                edges@,
            ).take(i as int));
            assert(edges_view(edges@).take(i as int + 1).last() == edges_view(edges@)[i as int]);
        }
        if edges[i].to_block == *b {
            match outs.get(&edges[i].from_block) {
                Some(prev) => {
                    match prev.get(&edges[i].from_port) {
                        Some(a) => {
                            let ac = a.clone();
                            acc.insert(edges[i].to_port.clone(), ac);
                        },
                        None => {},
                    }
                },
                None => {},
            }
        }
        i += 1;
    }
    proof {
        assert(edges_view(edges@).take(edges@.len() as int) =~= edges_view(edges@));
    }
    acc
}

/// The possible outcomes of executing `ord[i..]` from the outputs
/// `outs` recorded so far, where each block may answer anything its
/// relational contract allows: a missing registration aborts with
/// `MissingBlock`; a successful block records its outputs; a failing
/// block aborts with `Block` under `stop`, and is merely omitted
/// otherwise; when the order is exhausted the recorded outputs are the
/// result.
pub open spec fn exec_outcome<B: Block>(
    g: GraphView,
    reg: Map<Seq<char>, B>,
    ord: Seq<Seq<char>>,
    i: int,
    outs: Map<Seq<char>, Map<Seq<char>, ArtifactView>>,
    stop: bool,
    r: Result<Map<Seq<char>, Map<Seq<char>, ArtifactView>>, ExecutionErrorView>,
) -> bool
    decreases ord.len() - i,
{
    if i < 0 || i >= ord.len() {
        r matches Ok(m) && m == outs
    } else {
        let b = ord[i];
        if !reg.contains_key(b) {
            r matches Err(ev) && ev == ExecutionErrorView::MissingBlock(b)
        } else {
            let ins = inputs_for(g.edges, b, outs);
            ||| exists|o: Map<Seq<char>, ArtifactView>|
                #[trigger] reg[b].run_ok_spec(ins, o) && exec_outcome(
                    g,
                    reg,
                    ord,
                    i + 1,
                    outs.insert(b, o),
                    stop,
                    r,
                )
            ||| exists|e: BlockErrorView|
                #[trigger] reg[b].run_err_spec(ins, e) && if stop {
                    r matches Err(ev) && ev == ExecutionErrorView::Block(e)
                } else {
                    exec_outcome(g, reg, ord, i + 1, outs, stop, r)
                }
        }
    }
}

/// The view of a run result: recorded outputs on success, the error's
/// view on failure.
pub open spec fn run_result_view(r: Result<RunOutputs, ExecutionError>) -> Result<
    Map<Seq<char>, Map<Seq<char>, ArtifactView>>,
    ExecutionErrorView,
> {
    match r {
        Ok(outs) => Ok(outs@),
        Err(e) => Err(e@),
    }
}

/// Whether some element of `v` has the view of `s`.
fn contains_id(v: &Vec<String>, s: &String) -> (b: bool)
    ensures
        b == ids_view(v@).contains(s@),
{
    let mut i: usize = 0;
    while i < v.len()
        invariant
            i <= v@.len(),
            forall|j: int| 0 <= j < i as int ==> ids_view(v@)[j] != s@,
        decreases v@.len() - i,
    {
        if v[i] == *s {
            proof {
                assert(ids_view(v@)[i as int] == s@);
            }
            return true;
        }
        i += 1;
    }
    proof {
        if ids_view(v@).contains(s@) {
            let k = choose|k: int| 0 <= k < ids_view(v@).len() && ids_view(v@)[k] == s@;
            assert(false);
        }
    }
    false
}

/// Whether every edge into `b` comes from an already-scheduled block.
fn edge_sources_done(g: &GraphSpec, done: &Vec<String>, b: &String) -> (r: bool)
    ensures
        r == ready(g@, ids_view(done@), b@),
{
    let mut k: usize = 0;
    while k < g.edges.len()
        invariant
            k <= g.edges@.len(),
            forall|k2: int|
                0 <= k2 < k as int && (#[trigger] edges_view(g.edges@)[k2]).to_block == b@
                    ==> ids_view(done@).contains(edges_view(g.edges@)[k2].from_block),
        decreases g.edges@.len() - k,
    {
        if g.edges[k].to_block == *b {
            if !contains_id(done, &g.edges[k].from_block) {
                proof {
                    assert((edges_view(g.edges@)[k as int]).to_block == b@);
                    assert(!ids_view(done@).contains(edges_view(g.edges@)[k as int].from_block));
                    if ready(g@, ids_view(done@), b@) {
                        assert(ids_view(done@).contains(g@.edges[k as int].from_block));
                    }
                }
                return false;
            }
        }
        k += 1;
    }
    true
}

/// The first listed block, in original list order, that is not yet
/// scheduled and whose edge sources are all scheduled.
fn find_ready(g: &GraphSpec, done: &Vec<String>) -> (r: Option<BlockId>)
    ensures
        match r {
            Some(b) => pick_ready(g@, ids_view(done@)) == Some(b@),
            None => pick_ready(g@, ids_view(done@)) is None,
        },
{
    let ghost dv = ids_view(done@);
    let mut i: usize = 0;
    while i < g.blocks.len()
        invariant
            i <= g.blocks@.len(),
            dv == ids_view(done@),
            pick_from(g@, dv, 0) == pick_from(g@, dv, i as int),
        decreases g.blocks@.len() - i,
    {
        let b = &g.blocks[i];
        proof {
            assert(g@.blocks[i as int] == b@);
        }
        let in_done = contains_id(done, b);
        let is_ready = if in_done {
            false
        } else {
            edge_sources_done(g, done, b)
        };
        if !in_done && is_ready {
            proof {
                assert(schedulable(g@, dv, g@.blocks[i as int]));
                assert(pick_from(g@, dv, i as int) == Some(b@));
            }
            return Some(g.blocks[i].clone());
        }
        proof {
            assert(!schedulable(g@, dv, g@.blocks[i as int]));
            assert(pick_from(g@, dv, i as int) == pick_from(g@, dv, i as int + 1));
        }
        i += 1;
    }
    proof {
        assert(pick_from(g@, dv, g.blocks@.len() as int) is None);
    }
    None
}

} // verus!
