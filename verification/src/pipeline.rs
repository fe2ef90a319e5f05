//! The ingestion pipeline: per incoming log, decode it, decide whether
//! the pool is newly observed, and compute the graph operations to issue,
//! in strict order.
//!
//! The pipeline owns the pair registry and the store's node view; the
//! caller performs the outside work (log delivery, chain reads, store
//! writes) between the steps and reports each outcome back:
//!
//! 1. [`crate::event::decode_sync_event`] turns a raw log into a typed
//!    event, or fails and the event is dropped with no state change.
//! 2. [`IngestionPipeline::on_event`] asks for metadata resolution when
//!    the pool is unseen, else hands back the reserve-update operation.
//! 3. For an unseen pool, once the caller has resolved the metadata,
//!    [`IngestionPipeline::on_metadata`] computes the creation
//!    operations, committing nothing; if resolution failed the caller
//!    simply drops the event, and the pool stays eligible for a later
//!    attempt.
//! 4. Only once the creation operations have all been applied,
//!    [`IngestionPipeline::on_pair_created`] marks the pool known,
//!    records the token nodes as created, and hands back the reserve
//!    update for the event's own values, so that no pool is left at the
//!    placeholder reserves. If any creation write failed, the caller
//!    drops the event instead, and neither the pool nor its token nodes
//!    are recorded: the next event retries the whole creation.

use vstd::prelude::*;
use crate::address::Address;
use crate::event::DecodeError;
use crate::event::SyncEvent;
use crate::event::decode_sync_event;
use crate::event::payload_reserve0;
use crate::event::payload_reserve1;
use crate::event::valid_sync_payload;
use crate::graph_state::GraphState;
use crate::model::GraphModel;
use crate::model::GraphOpModel;
use crate::model::PoolEdgeModel;
use crate::model::apply_op;
use crate::model::apply_ops;
use crate::registry::PairRegistry;
use crate::store::GraphOp;
use crate::store::MetadataModel;
use crate::store::Neo4jStore;
use crate::store::PairMetadata;
use crate::store::creation_ops;
use crate::store::op_views;

verus! {

/// What the pipeline asks of its caller after seeing a decoded event.
pub enum EventAction {
    /// The pool is unseen: resolve its metadata before anything is
    /// written.
    ResolveMetadata,
    /// The pool is known: apply this reserve update.
    WriteReserves(GraphOp),
}

/// The pipeline's in-memory state.
pub struct IngestionPipeline {
    /// Pools whose metadata has been materialized in the graph.
    pub registry: PairRegistry,
    /// The store's upsert logic and node view.
    pub store: Neo4jStore,
}

/// The mathematical content of the pipeline state.
pub struct PipelineModel {
    pub known: Set<Seq<u8>>,
    pub nodes: Set<Seq<u8>>,
}

impl View for IngestionPipeline {
    type V = PipelineModel;

    open spec fn view(&self) -> PipelineModel {
        PipelineModel { known: self.registry@, nodes: self.store.nodes@ }
    }
}

impl IngestionPipeline {
    /// A fresh pipeline: no pool known, no token node created.
    pub fn new() -> (r: IngestionPipeline)
        ensures
            r@.known == Set::<Seq<u8>>::empty(),
            r@.nodes == Set::<Seq<u8>>::empty(),
    {
        IngestionPipeline { registry: PairRegistry::new(), store: Neo4jStore::new_store() }
    }

    /// Decides what to do with a decoded event: resolve metadata first if
    /// the pool is unseen, else update its reserves with this event's own
    /// values.
    pub fn on_event(&self, event: &SyncEvent) -> (act: EventAction)
        ensures
            act is ResolveMetadata <==> !self@.known.contains(event.address@),
            act matches EventAction::WriteReserves(op) ==> op@ == (GraphOpModel::SetReserves {
                pool: event.address@,
                reserve0: event.reserve0 as nat,
                reserve1: event.reserve1 as nat,
            }),
    {
        if self.registry.is_known(&event.address) {
            EventAction::WriteReserves(self.store.update_reserves(event))
        } else {
            EventAction::ResolveMetadata
        }
    }

    /// Computes the creation operations for the unseen pool of `event`
    /// with resolved metadata `meta`. Nothing is marked or recorded yet:
    /// that happens in [`IngestionPipeline::on_pair_created`], only once
    /// the operations have all been applied, so a failed write leaves
    /// the pool and its token nodes eligible for creation on a later
    /// event.
    pub fn on_metadata(&self, event: &SyncEvent, meta: &PairMetadata) -> (ops: Vec<GraphOp>)
        requires
            !self@.known.contains(event.address@),
        ensures
            op_views(ops@) == creation_ops(self@.nodes, event.address@, meta@),
    {
        self.store.update_pair_metadata(&event.address, meta)
    }

    /// Marks the pool of `event` known and records its token nodes as
    /// created, after every creation operation has succeeded, and hands
    /// back the reserve update carrying this event's own values.
    pub fn on_pair_created(&mut self, event: &SyncEvent, meta: &PairMetadata) -> (op: GraphOp)
        ensures
            final(self)@.known == old(self)@.known.insert(event.address@),
            final(self)@.nodes == old(self)@.nodes.insert(meta.token0@).insert(meta.token1@),
            op@ == (GraphOpModel::SetReserves {
                pool: event.address@,
                reserve0: event.reserve0 as nat,
                reserve1: event.reserve1 as nat,
            }),
    {
        self.registry.mark_known(event.address.duplicate());
        self.store.record_pair_created(meta);
        self.store.update_reserves(event)
    }
}

/// One raw chain log: the emitting pool's address and the opaque payload.
pub struct LogModel {
    pub address: Seq<u8>,
    pub payload: Seq<u8>,
}

/// The outside outcome that one event for an unseen pool met: whether
/// the chain reads resolved its metadata, and whether the creation
/// writes then succeeded. For a known pool the outcome is not consulted.
pub enum StepOutcome {
    /// Metadata resolution failed; nothing was written.
    ResolutionFailed,
    /// Metadata resolved, but a creation write failed once `applied` of
    /// the creation operations had been issued; the event was dropped.
    CreationFailed { meta: MetadataModel, applied: int },
    /// Metadata resolved and every write succeeded.
    Completed { meta: MetadataModel },
}

/// The outcome of processing one log against pipeline state `p` and
/// graph `g`. A dropped event commits nothing: in particular a failed
/// creation leaves the pool unknown and the node view unchanged, however
/// many of its statements reached the store.
pub open spec fn step(
    p: PipelineModel,
    g: GraphModel,
    log: LogModel,
    outcome: StepOutcome,
) -> (PipelineModel, GraphModel) {
    if !valid_sync_payload(log.payload) {
        (p, g)
    } else {
        let update = GraphOpModel::SetReserves {
            pool: log.address,
            reserve0: payload_reserve0(log.payload),
            reserve1: payload_reserve1(log.payload),
        };
        if p.known.contains(log.address) {
            (p, apply_op(g, update))
        } else {
            match outcome {
                StepOutcome::ResolutionFailed => (p, g),
                StepOutcome::CreationFailed { meta, applied } => {
                    let cops = creation_ops(p.nodes, log.address, meta);
                    let k = if applied < 0 {
                        0
                    } else if applied > cops.len() {
                        cops.len() as int
                    } else {
                        applied
                    };
                    (p, apply_ops(g, cops.take(k)))
                },
                StepOutcome::Completed { meta } => {
                    let g1 = apply_ops(g, creation_ops(p.nodes, log.address, meta));
                    let marked = PipelineModel {
                        known: p.known.insert(log.address),
                        nodes: p.nodes.insert(meta.token0).insert(meta.token1),
                    };
                    (marked, apply_op(g1, update))
                },
            }
        }
    }
}

/// Whether processing this log creates the pool's pair (token nodes and
/// edges) rather than only updating reserves.
pub open spec fn creates_pair(p: PipelineModel, log: LogModel, outcome: StepOutcome) -> bool {
    valid_sync_payload(log.payload) && !p.known.contains(log.address) && outcome is Completed
}

/// The state after processing a sequence of logs in order, each with its
/// outside outcome.
pub open spec fn run(
    p: PipelineModel,
    g: GraphModel,
    inputs: Seq<(LogModel, StepOutcome)>,
) -> (PipelineModel, GraphModel)
    decreases inputs.len(),
{
    if inputs.len() == 0 {
        (p, g)
    } else {
        let next = step(p, g, inputs[0].0, inputs[0].1);
        run(next.0, next.1, inputs.drop_first())
    }
}

/// Pipeline invariant: both edges of every known pool exist in the graph.
pub open spec fn inv(p: PipelineModel, g: GraphModel) -> bool {
    forall|a: Seq<u8>| #[trigger] p.known.contains(a) ==> g.has_pool(a)
}

/// Applying creation operations makes the pool's edges exist, and leaves
/// every already existing pool in place.
proof fn lemma_creation_ops_make_pool(
    g: GraphModel,
    nodes: Set<Seq<u8>>,
    pool: Seq<u8>,
    m: MetadataModel,
)
    ensures
        apply_ops(g, creation_ops(nodes, pool, m)).has_pool(pool),
        forall|a: Seq<u8>| g.has_pool(a) ==> apply_ops(
            g,
            creation_ops(nodes, pool, m),
        ).has_pool(a),
{
    let ops = creation_ops(nodes, pool, m);
    assert(ops.last() == (GraphOpModel::CreatePoolEdges {
        pool,
        token0: m.token0,
        token1: m.token1,
    }));
    assert forall|a: Seq<u8>| g.has_pool(a) implies apply_ops(g, ops).has_pool(a) by {
        lemma_apply_ops_keep_pool(g, ops, a);
    }
}

/// No operation removes a pool's edges.
proof fn lemma_apply_ops_keep_pool(g: GraphModel, ops: Seq<GraphOpModel>, a: Seq<u8>)
    requires
        g.has_pool(a),
    ensures
        apply_ops(g, ops).has_pool(a),
    decreases ops.len(),
{
    if ops.len() > 0 {
        lemma_apply_ops_keep_pool(g, ops.drop_last(), a);
    }
}

/// Every step preserves the pipeline invariant.
pub proof fn lemma_step_preserves_inv(
    p: PipelineModel,
    g: GraphModel,
    log: LogModel,
    outcome: StepOutcome,
)
    requires
        inv(p, g),
    ensures
        inv(step(p, g, log, outcome).0, step(p, g, log, outcome).1),
{
    if valid_sync_payload(log.payload) && !p.known.contains(log.address) {
        match outcome {
            StepOutcome::ResolutionFailed => {},
            StepOutcome::CreationFailed { meta, applied } => {
                let g2 = step(p, g, log, outcome).1;
                assert forall|a: Seq<u8>| #[trigger] p.known.contains(a) implies g2.has_pool(
                    a,
                ) by {
                    let cops = creation_ops(p.nodes, log.address, meta);
                    let k = if applied < 0 {
                        0
                    } else if applied > cops.len() {
                        cops.len() as int
                    } else {
                        applied
                    };
                    lemma_apply_ops_keep_pool(g, cops.take(k), a);
                }
            },
            StepOutcome::Completed { meta } => {
                lemma_creation_ops_make_pool(g, p.nodes, log.address, meta);
            },
        }
    }
}

/// Reserve-update correctness: after processing a valid event that is
/// not dropped — the pool is known, or its metadata resolves and every
/// write succeeds — the edge tagged side `0` carries the event's first
/// reserve and the edge tagged side `1` its second, including for the
/// very first event of a newly created pool. (A dropped event performs
/// no update at all, by design.)
pub proof fn lemma_reserve_update_correct(
    p: PipelineModel,
    g: GraphModel,
    log: LogModel,
    outcome: StepOutcome,
)
    requires
        inv(p, g),
        valid_sync_payload(log.payload),
        p.known.contains(log.address) || outcome is Completed,
    ensures
        ({
            let g2 = step(p, g, log, outcome).1;
            &&& g2.has_pool(log.address)
            &&& g2.edges[(log.address, 0)].reserve == payload_reserve0(log.payload)
            &&& g2.edges[(log.address, 1)].reserve == payload_reserve1(log.payload)
        }),
{
    if !p.known.contains(log.address) {
        match outcome {
            StepOutcome::Completed { meta } => {
                lemma_creation_ops_make_pool(g, p.nodes, log.address, meta);
            },
            _ => {},
        }
    }
}

/// Malformed payload: a log whose payload is not exactly two 112-bit
/// integers leaves the pipeline state and the graph unchanged.
pub proof fn lemma_malformed_payload_dropped(
    p: PipelineModel,
    g: GraphModel,
    log: LogModel,
    outcome: StepOutcome,
)
    requires
        !valid_sync_payload(log.payload),
    ensures
        step(p, g, log, outcome) == (p, g),
{
}

/// Unresolvable metadata: when resolution fails for an unseen pool, no
/// node or edge is created, nothing is written, and the pool stays
/// unknown — eligible for resolution on a later event.
pub proof fn lemma_unresolved_metadata_dropped(
    p: PipelineModel,
    g: GraphModel,
    log: LogModel,
)
    requires
        !p.known.contains(log.address),
    ensures
        step(p, g, log, StepOutcome::ResolutionFailed) == (p, g),
        !step(p, g, log, StepOutcome::ResolutionFailed).0.known.contains(log.address),
{
}

/// A failed creation write commits nothing: the pool stays unknown and
/// the node view unchanged, however many of the creation statements
/// reached the store, so both the pool and its token nodes stay
/// eligible for creation on a later event.
pub proof fn lemma_failed_creation_dropped(
    p: PipelineModel,
    g: GraphModel,
    log: LogModel,
    meta: MetadataModel,
    applied: int,
)
    requires
        !p.known.contains(log.address),
    ensures
        step(p, g, log, StepOutcome::CreationFailed { meta, applied }).0 == p,
        !step(p, g, log, StepOutcome::CreationFailed { meta, applied }).0.known.contains(
            log.address,
        ),
{
}

/// No operation removes a token node.
proof fn lemma_apply_ops_keep_token(g: GraphModel, ops: Seq<GraphOpModel>, t: Seq<u8>)
    requires
        g.tokens.contains_key(t),
    ensures
        apply_ops(g, ops).tokens.contains_key(t),
    decreases ops.len(),
{
    if ops.len() > 0 {
        lemma_apply_ops_keep_token(g, ops.drop_last(), t);
    }
}

/// Retry after a failed creation heals the pool: since nothing was
/// committed, a later event for the same pool whose resolution and
/// writes succeed leaves both token nodes present, both edges in place,
/// and that event's own reserves on them — whatever partial writes the
/// failure left behind.
pub proof fn lemma_creation_retry_heals(
    p: PipelineModel,
    g: GraphModel,
    first: LogModel,
    meta1: MetadataModel,
    applied: int,
    second: LogModel,
    meta2: MetadataModel,
)
    requires
        inv(p, g),
        p.nodes.subset_of(g.tokens.dom()),
        !p.known.contains(first.address),
        second.address == first.address,
        valid_sync_payload(first.payload),
        valid_sync_payload(second.payload),
    ensures
        ({
            let mid = step(p, g, first, StepOutcome::CreationFailed { meta: meta1, applied });
            let fin = step(mid.0, mid.1, second, StepOutcome::Completed { meta: meta2 });
            &&& mid.0 == p
            &&& fin.0.known.contains(second.address)
            &&& fin.1.has_pool(second.address)
            &&& fin.1.edges[(second.address, 0)].reserve == payload_reserve0(second.payload)
            &&& fin.1.edges[(second.address, 1)].reserve == payload_reserve1(second.payload)
            &&& fin.1.tokens.contains_key(meta2.token0)
            &&& fin.1.tokens.contains_key(meta2.token1)
        }),
{
    let mid = step(p, g, first, StepOutcome::CreationFailed { meta: meta1, applied });
    lemma_step_preserves_inv(p, g, first, StepOutcome::CreationFailed { meta: meta1, applied });
    lemma_reserve_update_correct(p, mid.1, second, StepOutcome::Completed { meta: meta2 });
    let cops1 = creation_ops(p.nodes, first.address, meta1);
    let k = if applied < 0 {
        0
    } else if applied > cops1.len() {
        cops1.len() as int
    } else {
        applied
    };
    assert(mid.1 == apply_ops(g, cops1.take(k)));
    let created = apply_ops(mid.1, creation_ops(p.nodes, second.address, meta2));
    lemma_creation_ops_effect(mid.1, p.nodes, second.address, meta2);
    assert forall|t: Seq<u8>| p.nodes.contains(t) implies mid.1.tokens.contains_key(t) by {
        lemma_apply_ops_keep_token(g, cops1.take(k), t);
    }
    assert(created.tokens.contains_key(meta2.token0));
    assert(created.tokens.contains_key(meta2.token1));
}

/// Every run preserves the pipeline invariant.
pub proof fn lemma_run_preserves_inv(
    p: PipelineModel,
    g: GraphModel,
    inputs: Seq<(LogModel, StepOutcome)>,
)
    requires
        inv(p, g),
    ensures
        inv(run(p, g, inputs).0, run(p, g, inputs).1),
    decreases inputs.len(),
{
    if inputs.len() > 0 {
        let next = step(p, g, inputs[0].0, inputs[0].1);
        lemma_step_preserves_inv(p, g, inputs[0].0, inputs[0].1);
        lemma_run_preserves_inv(next.0, next.1, inputs.drop_first());
    }
}

/// A pool once known stays known through any run.
proof fn lemma_run_keeps_known(
    p: PipelineModel,
    g: GraphModel,
    inputs: Seq<(LogModel, StepOutcome)>,
    a: Seq<u8>,
)
    requires
        p.known.contains(a),
    ensures
        run(p, g, inputs).0.known.contains(a),
    decreases inputs.len(),
{
    if inputs.len() > 0 {
        let next = step(p, g, inputs[0].0, inputs[0].1);
        lemma_run_keeps_known(next.0, next.1, inputs.drop_first(), a);
    }
}

/// Agreement of pipeline state with a graph: the node view lists exactly
/// the token nodes present, and a pool is known exactly when its two
/// edges exist.
pub open spec fn synced(p: PipelineModel, g: GraphModel) -> bool {
    &&& p.nodes == g.tokens.dom()
    &&& forall|a: Seq<u8>|
        #![trigger p.known.contains(a)]
        #![trigger g.edges.contains_key((a, 0))]
        p.known.contains(a) <==> g.edges.contains_key((a, 0))
    &&& forall|a: Seq<u8>|
        #![trigger p.known.contains(a)]
        #![trigger g.edges.contains_key((a, 1))]
        p.known.contains(a) <==> g.edges.contains_key((a, 1))
}

/// Whether `op` may be applied to `g` without duplicating a key.
pub open spec fn op_applicable(g: GraphModel, op: GraphOpModel) -> bool {
    match op {
        GraphOpModel::CreateToken { address, .. } => !g.tokens.contains_key(address),
        GraphOpModel::CreatePoolEdges { pool, .. } => !g.edges.contains_key((pool, 0))
            && !g.edges.contains_key((pool, 1)),
        GraphOpModel::SetReserves { .. } => true,
    }
}

/// In a graph whose token nodes are exactly `nodes` and which lacks the
/// pool's edges, each creation operation is applicable at its turn.
proof fn lemma_creation_ops_applicable(
    g0: GraphModel,
    nodes: Set<Seq<u8>>,
    pool: Seq<u8>,
    m: MetadataModel,
    i: int,
)
    requires
        nodes == g0.tokens.dom(),
        !g0.edges.contains_key((pool, 0)),
        !g0.edges.contains_key((pool, 1)),
        0 <= i < creation_ops(nodes, pool, m).len(),
    ensures
        op_applicable(
            apply_ops(g0, creation_ops(nodes, pool, m).take(i)),
            creation_ops(nodes, pool, m)[i],
        ),
{
    reveal_with_fuel(apply_ops, 5);
    let cops = creation_ops(nodes, pool, m);
    let c0 = !nodes.contains(m.token0);
    let c1 = !nodes.insert(m.token0).contains(m.token1);
    let ct0 = GraphOpModel::CreateToken { address: m.token0, symbol: m.symbol0 };
    let ct1 = GraphOpModel::CreateToken { address: m.token1, symbol: m.symbol1 };
    let cpe = GraphOpModel::CreatePoolEdges { pool, token0: m.token0, token1: m.token1 };
    assert(cops.take(0) =~= Seq::<GraphOpModel>::empty());
    if c0 && c1 {
        assert(cops =~= seq![ct0, ct1, cpe]);
        if i == 1 {
            assert(cops.take(1) =~= seq![ct0]);
            assert(seq![ct0].drop_last() =~= Seq::<GraphOpModel>::empty());
            assert(apply_ops(g0, cops.take(1)) == apply_op(g0, ct0));
        } else if i == 2 {
            assert(cops.take(2) =~= seq![ct0, ct1]);
            assert(seq![ct0, ct1].drop_last() =~= seq![ct0]);
            assert(seq![ct0].drop_last() =~= Seq::<GraphOpModel>::empty());
            assert(apply_ops(g0, cops.take(2)) == apply_op(apply_op(g0, ct0), ct1));
        }
    } else if c0 {
        assert(cops =~= seq![ct0, cpe]);
        if i == 1 {
            assert(cops.take(1) =~= seq![ct0]);
            assert(seq![ct0].drop_last() =~= Seq::<GraphOpModel>::empty());
            assert(apply_ops(g0, cops.take(1)) == apply_op(g0, ct0));
        }
    } else if c1 {
        assert(cops =~= seq![ct1, cpe]);
        assert(!nodes.contains(m.token1));
        if i == 1 {
            assert(cops.take(1) =~= seq![ct1]);
            assert(seq![ct1].drop_last() =~= Seq::<GraphOpModel>::empty());
            assert(apply_ops(g0, cops.take(1)) == apply_op(g0, ct1));
        }
    } else {
        assert(cops =~= seq![cpe]);
    }
}

/// The full effect of the creation operations on a graph: the missing
/// token nodes appear, and the pool's two edges appear at reserve `0`.
proof fn lemma_creation_ops_effect(
    g0: GraphModel,
    nodes: Set<Seq<u8>>,
    pool: Seq<u8>,
    m: MetadataModel,
)
    ensures
        ({
            let g1 = apply_ops(g0, creation_ops(nodes, pool, m));
            let c0 = !nodes.contains(m.token0);
            let c1 = !nodes.insert(m.token0).contains(m.token1);
            let toks = if c0 {
                g0.tokens.insert(m.token0, m.symbol0)
            } else {
                g0.tokens
            };
            &&& g1.tokens == if c1 {
                toks.insert(m.token1, m.symbol1)
            } else {
                toks
            }
            &&& g1.edges == g0.edges.insert(
                (pool, 0),
                PoolEdgeModel { from: m.token0, to: m.token1, reserve: 0 },
            ).insert((pool, 1), PoolEdgeModel { from: m.token1, to: m.token0, reserve: 0 })
        }),
{
    reveal_with_fuel(apply_ops, 5);
    let cops = creation_ops(nodes, pool, m);
    let c0 = !nodes.contains(m.token0);
    let c1 = !nodes.insert(m.token0).contains(m.token1);
    let ct0 = GraphOpModel::CreateToken { address: m.token0, symbol: m.symbol0 };
    let ct1 = GraphOpModel::CreateToken { address: m.token1, symbol: m.symbol1 };
    let cpe = GraphOpModel::CreatePoolEdges { pool, token0: m.token0, token1: m.token1 };
    if c0 && c1 {
        assert(cops =~= seq![ct0, ct1, cpe]);
        assert(seq![ct0, ct1, cpe].drop_last() =~= seq![ct0, ct1]);
        assert(seq![ct0, ct1].drop_last() =~= seq![ct0]);
        assert(seq![ct0].drop_last() =~= Seq::<GraphOpModel>::empty());
        assert(apply_ops(g0, cops) == apply_op(apply_op(apply_op(g0, ct0), ct1), cpe));
    } else if c0 {
        assert(cops =~= seq![ct0, cpe]);
        assert(seq![ct0, cpe].drop_last() =~= seq![ct0]);
        assert(seq![ct0].drop_last() =~= Seq::<GraphOpModel>::empty());
        assert(apply_ops(g0, cops) == apply_op(apply_op(g0, ct0), cpe));
    } else if c1 {
        assert(cops =~= seq![ct1, cpe]);
        assert(seq![ct1, cpe].drop_last() =~= seq![ct1]);
        assert(seq![ct1].drop_last() =~= Seq::<GraphOpModel>::empty());
        assert(apply_ops(g0, cops) == apply_op(apply_op(g0, ct1), cpe));
    } else {
        assert(cops =~= seq![cpe]);
        assert(seq![cpe].drop_last() =~= Seq::<GraphOpModel>::empty());
        assert(apply_ops(g0, cops) == apply_op(g0, cpe));
    }
}

/// The outcome of processing one raw log to completion.
pub enum ProcessOutcome {
    /// The payload was malformed; nothing changed.
    Rejected(DecodeError),
    /// The pool is unseen and no metadata was supplied; nothing changed,
    /// and the pool stays eligible.
    Unresolved,
    /// The event's reserve update was applied, after pair creation where
    /// the pool was unseen.
    Applied,
}

/// The model of a resolution outcome. Against an in-memory graph no
/// write can fail, so resolved metadata always completes.
pub open spec fn outcome_view(meta: Option<&PairMetadata>) -> StepOutcome {
    match meta {
        Option::Some(m) => StepOutcome::Completed { meta: m@ },
        Option::None => StepOutcome::ResolutionFailed,
    }
}

/// Processes one raw log against an in-memory graph, to completion: the
/// result is exactly one `step` of the pipeline's model. `meta` stands
/// for the outcome of metadata resolution, consulted only for an unseen
/// pool.
pub fn process_event(
    pipeline: &mut IngestionPipeline,
    graph: &mut GraphState,
    address: Address,
    payload: &Vec<u8>,
    meta: Option<&PairMetadata>,
) -> (r: ProcessOutcome)
    requires
        address.wf(),
        old(graph).wf(),
        synced(old(pipeline)@, old(graph)@),
    ensures
        final(graph).wf(),
        synced(final(pipeline)@, final(graph)@),
        ({
            let after = step(
                old(pipeline)@,
                old(graph)@,
                LogModel { address: address@, payload: payload@ },
                outcome_view(meta),
            );
            final(pipeline)@ == after.0 && final(graph)@ == after.1
        }),
        r is Rejected <==> !valid_sync_payload(payload@),
        r is Unresolved <==> valid_sync_payload(payload@) && !old(pipeline)@.known.contains(
            address@,
        ) && meta is None,
{
    let ghost p0 = old(pipeline)@;
    let ghost g0 = old(graph)@;
    let event = match decode_sync_event(address, payload) {
        Ok(event) => event,
        Err(e) => {
            return ProcessOutcome::Rejected(e);
        },
    };
    let ghost update = GraphOpModel::SetReserves {
        pool: event.address@,
        reserve0: event.reserve0 as nat,
        reserve1: event.reserve1 as nat,
    };
    match pipeline.on_event(&event) {
        EventAction::WriteReserves(op) => {
            graph.apply(&op);
            proof {
                assert(p0.known.contains(event.address@));
                assert forall|a: Seq<u8>| #[trigger] p0.known.contains(a) implies graph@
                    .edges.contains_key((a, 0)) && graph@.edges.contains_key((a, 1)) by {
                    assert(g0.edges.contains_key((a, 0)));
                    assert(g0.edges.contains_key((a, 1)));
                }
                assert forall|a: Seq<u8>|
                    graph@.edges.contains_key((a, 0)) || graph@.edges.contains_key(
                        (a, 1),
                    ) implies p0.known.contains(a) by {
                    if a != event.address@ {
                        assert(g0.edges.contains_key((a, 0)) || g0.edges.contains_key((a, 1)));
                    }
                }
                assert(synced(pipeline@, graph@));
            }
            ProcessOutcome::Applied
        },
        EventAction::ResolveMetadata => {
            match meta {
                None => ProcessOutcome::Unresolved,
                Some(m) => {
                    let ops = pipeline.on_metadata(&event, m);
                    let ghost cops = creation_ops(p0.nodes, event.address@, m@);
                    let n = ops.len();
                    let mut i: usize = 0;
                    while i < n
                        invariant
                            i <= n,
                            n == ops@.len(),
                            op_views(ops@) == cops,
                            cops == creation_ops(p0.nodes, event.address@, m@),
                            p0.nodes == g0.tokens.dom(),
                            !g0.edges.contains_key((event.address@, 0)),
                            !g0.edges.contains_key((event.address@, 1)),
                            graph.wf(),
                            graph@ == apply_ops(g0, cops.take(i as int)),
                        decreases n - i,
                    {
                        proof {
                            lemma_creation_ops_applicable(
                                g0,
                                p0.nodes,
                                event.address@,
                                m@,
                                i as int,
                            );
                            assert(ops@[i as int]@ == cops[i as int]);
                            assert(cops.take(i + 1).drop_last() =~= cops.take(i as int));
                        }
                        graph.apply(&ops[i]);
                        i = i + 1;
                    }
                    proof {
                        assert(cops.take(n as int) =~= cops);
                    }
                    let update_op = pipeline.on_pair_created(&event, m);
                    graph.apply(&update_op);
                    proof {
                        let created = apply_ops(g0, cops);
                        assert(graph@ == apply_op(created, update));
                        lemma_creation_ops_make_pool(g0, p0.nodes, event.address@, m@);
                        assert(pipeline@ == step(
                            p0,
                            g0,
                            LogModel { address: address@, payload: payload@ },
                            outcome_view(meta),
                        ).0);
                        lemma_synced_after_creation(p0, g0, event.address@, m@, update);
                        assert(synced(pipeline@, graph@));
                    }
                    ProcessOutcome::Applied
                },
            }
        },
    }
}

/// After creating a pool's pair and applying its first reserve update,
/// pipeline state and graph agree again.
proof fn lemma_synced_after_creation(
    p0: PipelineModel,
    g0: GraphModel,
    pool: Seq<u8>,
    m: MetadataModel,
    update: GraphOpModel,
)
    requires
        synced(p0, g0),
        !p0.known.contains(pool),
        update matches GraphOpModel::SetReserves { pool: pp, .. } && pp == pool,
    ensures
        ({
            let marked = PipelineModel {
                known: p0.known.insert(pool),
                nodes: p0.nodes.insert(m.token0).insert(m.token1),
            };
            let g2 = apply_op(apply_ops(g0, creation_ops(p0.nodes, pool, m)), update);
            synced(marked, g2)
        }),
{
    let cops = creation_ops(p0.nodes, pool, m);
    let marked = PipelineModel {
        known: p0.known.insert(pool),
        nodes: p0.nodes.insert(m.token0).insert(m.token1),
    };
    let g1 = apply_ops(g0, cops);
    let g2 = apply_op(g1, update);
    lemma_creation_ops_effect(g0, p0.nodes, pool, m);
    assert(g1.has_pool(pool));
    assert(g2.tokens == g1.tokens);
    assert(marked.nodes =~= g2.tokens.dom());
    assert forall|a: Seq<u8>| #[trigger] marked.known.contains(a) implies g2.edges.contains_key(
        (a, 0),
    ) && g2.edges.contains_key((a, 1)) by {
        if a != pool {
            assert(g0.edges.contains_key((a, 0)));
            assert(g0.edges.contains_key((a, 1)));
        }
    }
    assert forall|a: Seq<u8>|
        g2.edges.contains_key((a, 0)) || g2.edges.contains_key(
            (a, 1),
        ) implies marked.known.contains(a) by {
        if a != pool {
            assert(g1.edges.contains_key((a, 0)) || g1.edges.contains_key((a, 1)));
            assert(g0.edges.contains_key((a, 0)) || g0.edges.contains_key((a, 1)));
        }
    }
}

/// Creation idempotency: over any sequence of decodable logs that all
/// reference the same unseen pool and whose metadata always resolves,
/// the pair is created at the first log and at no later one, however
/// many events arrive.
pub proof fn lemma_creation_idempotent(
    p: PipelineModel,
    g: GraphModel,
    inputs: Seq<(LogModel, StepOutcome)>,
    a: Seq<u8>,
)
    requires
        inv(p, g),
        !p.known.contains(a),
        inputs.len() >= 1,
        forall|i: int| 0 <= i < inputs.len() ==> (#[trigger] inputs[i].0).address == a,
        forall|i: int| 0 <= i < inputs.len() ==> valid_sync_payload((#[trigger] inputs[i].0).payload),
        forall|i: int| 0 <= i < inputs.len() ==> (#[trigger] inputs[i].1) is Completed,
    ensures
        creates_pair(p, inputs[0].0, inputs[0].1),
        forall|i: int|
            1 <= i < inputs.len() ==> !creates_pair(
                run(p, g, #[trigger] inputs.take(i)).0,
                inputs[i].0,
                inputs[i].1,
            ),
        run(p, g, inputs).0.known.contains(a),
        run(p, g, inputs).1.has_pool(a),
{
    let first = step(p, g, inputs[0].0, inputs[0].1);
    assert(first.0.known.contains(a));
    lemma_run_keeps_known(first.0, first.1, inputs.drop_first(), a);
    lemma_run_preserves_inv(p, g, inputs);
    assert forall|i: int| 1 <= i < inputs.len() implies !creates_pair(
        run(p, g, inputs.take(i)).0,
        inputs[i].0,
        inputs[i].1,
    ) by {
        let prefix = inputs.take(i);
        assert(prefix[0] == inputs[0]);
        assert(prefix.len() >= 1);
        assert(run(p, g, prefix) == run(first.0, first.1, prefix.drop_first()));
        lemma_run_keeps_known(first.0, first.1, prefix.drop_first(), a);
    }
}

} // verus!
