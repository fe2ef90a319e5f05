//! Mathematical model of the graph store's state and of the effect of
//! each upsert operation on it.
//!
//! A token node is keyed by its address and carries a symbol; a pool is a
//! pair of directed edges between its two token nodes, keyed by the pool
//! address and a side tag, each carrying the current reserve.

use vstd::prelude::*;

verus! {

/// One directed pool edge: from one token node to the other, carrying the
/// reserve of the token on the `from` side.
pub struct PoolEdgeModel {
    pub from: Seq<u8>,
    pub to: Seq<u8>,
    pub reserve: nat,
}

/// The graph store's state: token nodes keyed by address, pool edges
/// keyed by pool address and side tag (`0` or `1`).
pub struct GraphModel {
    pub tokens: Map<Seq<u8>, Seq<char>>,
    pub edges: Map<(Seq<u8>, int), PoolEdgeModel>,
}

impl GraphModel {
    pub open spec fn empty() -> GraphModel {
        GraphModel { tokens: Map::empty(), edges: Map::empty() }
    }

    /// Whether both edges of the pool at `pool` exist.
    pub open spec fn has_pool(self, pool: Seq<u8>) -> bool {
        self.edges.contains_key((pool, 0)) && self.edges.contains_key((pool, 1))
    }
}

/// One idempotent upsert operation against the graph store.
pub enum GraphOpModel {
    /// Create the token node at `address` carrying `symbol`.
    CreateToken { address: Seq<u8>, symbol: Seq<char> },
    /// Create the two directed edges of the pool at `pool`, one in each
    /// direction between its token nodes, both with reserve `0`.
    CreatePoolEdges { pool: Seq<u8>, token0: Seq<u8>, token1: Seq<u8> },
    /// Set the reserves of the pool at `pool`: side `0` receives
    /// `reserve0`, side `1` receives `reserve1`. A no-op on a pool whose
    /// edges do not exist.
    SetReserves { pool: Seq<u8>, reserve0: nat, reserve1: nat },
}

/// The effect of one operation on the graph.
pub open spec fn apply_op(g: GraphModel, op: GraphOpModel) -> GraphModel {
    match op {
        GraphOpModel::CreateToken { address, symbol } => GraphModel {
            tokens: g.tokens.insert(address, symbol),
            ..g
        },
        GraphOpModel::CreatePoolEdges { pool, token0, token1 } => GraphModel {
            edges: g.edges.insert(
                (pool, 0),
                PoolEdgeModel { from: token0, to: token1, reserve: 0 },
            ).insert((pool, 1), PoolEdgeModel { from: token1, to: token0, reserve: 0 }),
            ..g
        },
        GraphOpModel::SetReserves { pool, reserve0, reserve1 } => {
            if g.has_pool(pool) {
                let e0 = g.edges[(pool, 0)];
                let e1 = g.edges[(pool, 1)];
                GraphModel {
                    edges: g.edges.insert(
                        (pool, 0),
                        PoolEdgeModel { reserve: reserve0, ..e0 },
                    ).insert((pool, 1), PoolEdgeModel { reserve: reserve1, ..e1 }),
                    ..g
                }
            } else {
                g
            }
        },
    }
}

/// The effect of a sequence of operations, applied left to right.
pub open spec fn apply_ops(g: GraphModel, ops: Seq<GraphOpModel>) -> GraphModel
    decreases ops.len(),
{
    if ops.len() == 0 {
        g
    } else {
        apply_op(apply_ops(g, ops.drop_last()), ops.last())
    }
}

} // verus!
