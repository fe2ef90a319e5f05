use pool_graph::address::Address;
use pool_graph::event::{decode_sync_event, encode_reserves};
use pool_graph::graph_state::GraphState;
use pool_graph::pipeline::{process_event, EventAction, IngestionPipeline, ProcessOutcome};
use pool_graph::registry::PairRegistry;
use pool_graph::store::{GraphOp, Neo4jStore, PairMetadata};

fn addr(byte: u8) -> Address {
    Address::new(vec![byte; 20])
}

fn metadata() -> PairMetadata {
    PairMetadata {
        token0: addr(0x01),
        token1: addr(0x02),
        symbol0: String::from("USDC"),
        symbol1: String::from("WETH"),
    }
}

#[test]
fn registry_membership() {
    let mut registry = PairRegistry::new();
    let a = addr(0xaa);
    let b = addr(0xbb);
    assert!(!registry.is_known(&a));
    registry.mark_known(a.duplicate());
    assert!(registry.is_known(&a));
    assert!(!registry.is_known(&b));
    registry.mark_known(a.duplicate());
    assert!(registry.is_known(&a));
}

#[test]
fn store_deduplicates_token_nodes() {
    let mut store = Neo4jStore::new_store();
    let ops = store.update_pair_metadata(&addr(0xaa), &metadata());
    assert_eq!(ops.len(), 3);
    assert!(matches!(ops[0], GraphOp::CreateToken { .. }));
    assert!(matches!(ops[1], GraphOp::CreateToken { .. }));
    assert!(matches!(ops[2], GraphOp::CreatePoolEdges { .. }));
    store.record_pair_created(&metadata());

    let second = PairMetadata {
        token0: addr(0x01),
        token1: addr(0x03),
        symbol0: String::from("USDC"),
        symbol1: String::from("DAI"),
    };
    let ops = store.update_pair_metadata(&addr(0xbb), &second);
    assert_eq!(ops.len(), 2);
    match &ops[0] {
        GraphOp::CreateToken { address, symbol } => {
            assert_eq!(address.as_bytes(), &vec![0x03; 20]);
            assert_eq!(symbol.as_str(), "DAI");
        }
        _ => panic!("expected a token creation"),
    }
    assert!(matches!(ops[1], GraphOp::CreatePoolEdges { .. }));
    store.record_pair_created(&second);

    let ops = store.update_pair_metadata(&addr(0xcc), &second);
    assert_eq!(ops.len(), 1);
    assert!(matches!(ops[0], GraphOp::CreatePoolEdges { .. }));
}

#[test]
fn nothing_is_recorded_before_creation_succeeds() {
    let mut pipeline = IngestionPipeline::new();
    let pool = addr(0xaa);
    let payload = encode_reserves(10, 20);
    let event = decode_sync_event(pool.duplicate(), &payload).unwrap();
    let meta = metadata();

    let ops = pipeline.on_metadata(&event, &meta);
    assert_eq!(ops.len(), 3);
    // A creation write failed: the caller drops the event without
    // calling on_pair_created, so neither the pool nor its token nodes
    // are recorded, and the next event retries the whole creation.
    assert!(!pipeline.registry.is_known(&pool));
    let ops = pipeline.on_metadata(&event, &meta);
    assert_eq!(ops.len(), 3);
    assert!(matches!(ops[0], GraphOp::CreateToken { .. }));
    assert!(matches!(ops[1], GraphOp::CreateToken { .. }));

    // This time every write succeeds: the commit happens, and later
    // events only update reserves.
    let update = pipeline.on_pair_created(&event, &meta);
    assert!(matches!(update, GraphOp::SetReserves { .. }));
    assert!(pipeline.registry.is_known(&pool));
    assert!(matches!(
        pipeline.on_event(&event),
        EventAction::WriteReserves(_)
    ));
}

#[test]
fn same_token_on_both_sides_is_created_once() {
    let mut store = Neo4jStore::new_store();
    let degenerate = PairMetadata {
        token0: addr(0x07),
        token1: addr(0x07),
        symbol0: String::from("SAME"),
        symbol1: String::from("SAME"),
    };
    let ops = store.update_pair_metadata(&addr(0xaa), &degenerate);
    assert_eq!(ops.len(), 2);
    assert!(matches!(ops[0], GraphOp::CreateToken { .. }));
    assert!(matches!(ops[1], GraphOp::CreatePoolEdges { .. }));
}

#[test]
fn malformed_payload_leaves_state_unchanged() {
    let mut pipeline = IngestionPipeline::new();
    let pool = addr(0xaa);
    let mut payload = vec![0u8; 64];
    payload[5] = 9;
    assert!(decode_sync_event(pool.duplicate(), &payload).is_err());
    assert!(!pipeline.registry.is_known(&pool));

    let payload = encode_reserves(10, 20);
    let event = decode_sync_event(pool.duplicate(), &payload).unwrap();
    match pipeline.on_event(&event) {
        EventAction::ResolveMetadata => {}
        EventAction::WriteReserves(_) => panic!("unseen pool must resolve first"),
    }
}

#[test]
fn failed_resolution_keeps_pool_eligible() {
    let mut pipeline = IngestionPipeline::new();
    let pool = addr(0xaa);
    let payload = encode_reserves(10, 20);
    let event = decode_sync_event(pool.duplicate(), &payload).unwrap();
    assert!(matches!(
        pipeline.on_event(&event),
        EventAction::ResolveMetadata
    ));
    // Resolution fails: the caller drops the event without reporting
    // metadata back, so the pool stays unknown and a later event for the
    // same address asks for resolution again.
    assert!(!pipeline.registry.is_known(&pool));
    assert!(matches!(
        pipeline.on_event(&event),
        EventAction::ResolveMetadata
    ));
}

#[test]
fn end_to_end_scenario() {
    let mut pipeline = IngestionPipeline::new();
    let mut graph = GraphState::new();
    let pool = addr(0xaa);

    // First Sync log for the pool: reserves 1000 / 2000.
    let payload = encode_reserves(1000, 2000);
    let event = decode_sync_event(pool.duplicate(), &payload).unwrap();
    match pipeline.on_event(&event) {
        EventAction::ResolveMetadata => {}
        EventAction::WriteReserves(_) => panic!("unseen pool must resolve first"),
    }
    let meta = metadata();
    let ops = pipeline.on_metadata(&event, &meta);
    for op in &ops {
        graph.apply(op);
    }
    let update = pipeline.on_pair_created(&event, &meta);
    graph.apply(&update);

    assert!(graph.has_token(&addr(0x01)));
    assert!(graph.has_token(&addr(0x02)));
    assert_eq!(graph.token_symbol(&addr(0x01)).unwrap().as_str(), "USDC");
    assert_eq!(graph.token_symbol(&addr(0x02)).unwrap().as_str(), "WETH");
    assert_eq!(graph.token_count(), 2);
    assert_eq!(graph.edge_count(), 2);
    // The first event's own values are applied, not the placeholder 0/0.
    assert_eq!(graph.reserve_of(&pool, 0), Some(1000));
    assert_eq!(graph.reserve_of(&pool, 1), Some(2000));

    // Second Sync log for the same pool: only reserve0 changes.
    let payload = encode_reserves(1100, 2000);
    let event = decode_sync_event(pool.duplicate(), &payload).unwrap();
    let update = match pipeline.on_event(&event) {
        EventAction::WriteReserves(op) => op,
        EventAction::ResolveMetadata => panic!("known pool must not resolve again"),
    };
    graph.apply(&update);

    assert_eq!(graph.reserve_of(&pool, 0), Some(1100));
    assert_eq!(graph.reserve_of(&pool, 1), Some(2000));
    // No new nodes or edges were created.
    assert_eq!(graph.token_count(), 2);
    assert_eq!(graph.edge_count(), 2);
}

#[test]
fn process_event_drives_full_steps() {
    let mut pipeline = IngestionPipeline::new();
    let mut graph = GraphState::new();
    let pool = addr(0xaa);
    let payload = encode_reserves(1000, 2000);
    let meta = metadata();

    // Unseen pool, resolution failed: dropped, still eligible.
    let r = process_event(&mut pipeline, &mut graph, pool.duplicate(), &payload, None);
    assert!(matches!(r, ProcessOutcome::Unresolved));
    assert_eq!(graph.edge_count(), 0);
    assert!(!pipeline.registry.is_known(&pool));

    // Unseen pool, resolution succeeded: created and updated.
    let r = process_event(&mut pipeline, &mut graph, pool.duplicate(), &payload, Some(&meta));
    assert!(matches!(r, ProcessOutcome::Applied));
    assert_eq!(graph.reserve_of(&pool, 0), Some(1000));
    assert_eq!(graph.reserve_of(&pool, 1), Some(2000));
    assert_eq!(graph.token_count(), 2);

    // Malformed payload: rejected, nothing changed.
    let r = process_event(&mut pipeline, &mut graph, pool.duplicate(), &vec![1u8; 64], None);
    assert!(matches!(r, ProcessOutcome::Rejected(_)));
    assert_eq!(graph.token_count(), 2);
    assert_eq!(graph.reserve_of(&pool, 0), Some(1000));

    // Known pool: update only, no new nodes or edges.
    let payload = encode_reserves(1100, 2000);
    let r = process_event(&mut pipeline, &mut graph, pool.duplicate(), &payload, None);
    assert!(matches!(r, ProcessOutcome::Applied));
    assert_eq!(graph.reserve_of(&pool, 0), Some(1100));
    assert_eq!(graph.reserve_of(&pool, 1), Some(2000));
    assert_eq!(graph.token_count(), 2);
    assert_eq!(graph.edge_count(), 2);
}

#[test]
fn update_before_creation_is_a_no_op_on_the_graph() {
    let mut graph = GraphState::new();
    let op = GraphOp::SetReserves {
        pool: addr(0xaa),
        reserve0: 5,
        reserve1: 6,
    };
    graph.apply(&op);
    assert_eq!(graph.edge_count(), 0);
    assert_eq!(graph.reserve_of(&addr(0xaa), 0), None);
}
