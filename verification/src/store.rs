//! Graph-store upsert logic: which idempotent operations to issue for a
//! newly observed pool and for a reserve update, and the parameterized
//! statements that carry them to the store.
//!
//! Nothing here talks to the store itself; operations and statements are
//! plain values for the caller to execute over its own connection.

use vstd::prelude::*;
use vstd::string::StringExecFns;
use crate::address::Address;
use crate::event::SyncEvent;
use crate::model::GraphOpModel;
use crate::registry::PairRegistry;
use crate::text::addr_hex;
use crate::text::dec_of;
use crate::text::decimal_string_of;
use crate::text::hex_string_of_bytes;

verus! {

/// Token identity metadata of a pool, resolved once per pool through
/// read-only chain calls.
pub struct PairMetadata {
    pub token0: Address,
    pub token1: Address,
    pub symbol0: String,
    pub symbol1: String,
}

/// The mathematical content of a `PairMetadata`.
pub struct MetadataModel {
    pub token0: Seq<u8>,
    pub token1: Seq<u8>,
    pub symbol0: Seq<char>,
    pub symbol1: Seq<char>,
}

impl View for PairMetadata {
    type V = MetadataModel;

    open spec fn view(&self) -> MetadataModel {
        MetadataModel {
            token0: self.token0@,
            token1: self.token1@,
            symbol0: self.symbol0@,
            symbol1: self.symbol1@,
        }
    }
}

impl PairMetadata {
    pub open spec fn wf(self) -> bool {
        self.token0.wf() && self.token1.wf()
    }
}

/// One graph upsert operation, as an executable value.
pub enum GraphOp {
    CreateToken { address: Address, symbol: String },
    CreatePoolEdges { pool: Address, token0: Address, token1: Address },
    SetReserves { pool: Address, reserve0: u128, reserve1: u128 },
}

impl View for GraphOp {
    type V = GraphOpModel;

    open spec fn view(&self) -> GraphOpModel {
        match self {
            GraphOp::CreateToken { address, symbol } => GraphOpModel::CreateToken {
                address: address@,
                symbol: symbol@,
            },
            GraphOp::CreatePoolEdges { pool, token0, token1 } => GraphOpModel::CreatePoolEdges {
                pool: pool@,
                token0: token0@,
                token1: token1@,
            },
            GraphOp::SetReserves { pool, reserve0, reserve1 } => GraphOpModel::SetReserves {
                pool: pool@,
                reserve0: *reserve0 as nat,
                reserve1: *reserve1 as nat,
            },
        }
    }
}

/// The models of a sequence of operations.
pub open spec fn op_views(ops: Seq<GraphOp>) -> Seq<GraphOpModel> {
    ops.map_values(|op: GraphOp| op@)
}

/// A parameterized graph-store statement: constant query text, with every
/// chain-derived value bound as a named parameter, never concatenated
/// into the text.
pub struct Statement {
    pub text: String,
    pub params: Vec<(String, String)>,
}

/// Query text that creates one token node.
pub open spec fn create_token_text() -> Seq<char> {
    "CREATE (t:Token {address: $address, name: $name})"@
}

/// Query text that creates the two directed edges of a pool.
pub open spec fn create_pool_edges_text() -> Seq<char> {
    "MATCH (n:Token {address: $token0}), (m:Token {address: $token1}) CREATE (n)-[:UNISWAPV2_POOL {cost: $cost0, token: '0', pool_address: $pool}]->(m) CREATE (m)-[:UNISWAPV2_POOL {cost: $cost1, token: '1', pool_address: $pool}]->(n)"@
}

/// Query text that updates both reserves of a pool's edges.
pub open spec fn set_reserves_text() -> Seq<char> {
    "MATCH ()-[r:UNISWAPV2_POOL]->() WHERE r.pool_address = $pool SET r.cost = CASE r.token WHEN '0' THEN $cost0 ELSE $cost1 END RETURN r"@
}

impl GraphOp {
    /// The parameterized statement that carries this operation: addresses
    /// are bound in canonical lower-case hex, reserves as decimal text.
    pub fn to_statement(&self) -> (r: Statement)
        ensures
            match self@ {
                GraphOpModel::CreateToken { address, symbol } => {
                    &&& r.text@ == create_token_text()
                    &&& r.params@.len() == 2
                    &&& r.params@[0].0@ == "address"@ && r.params@[0].1@ == addr_hex(address)
                    &&& r.params@[1].0@ == "name"@ && r.params@[1].1@ == symbol
                },
                GraphOpModel::CreatePoolEdges { pool, token0, token1 } => {
                    &&& r.text@ == create_pool_edges_text()
                    &&& r.params@.len() == 5
                    &&& r.params@[0].0@ == "token0"@ && r.params@[0].1@ == addr_hex(token0)
                    &&& r.params@[1].0@ == "token1"@ && r.params@[1].1@ == addr_hex(token1)
                    &&& r.params@[2].0@ == "pool"@ && r.params@[2].1@ == addr_hex(pool)
                    &&& r.params@[3].0@ == "cost0"@ && r.params@[3].1@ == dec_of(0)
                    &&& r.params@[4].0@ == "cost1"@ && r.params@[4].1@ == dec_of(0)
                },
                GraphOpModel::SetReserves { pool, reserve0, reserve1 } => {
                    &&& r.text@ == set_reserves_text()
                    &&& r.params@.len() == 3
                    &&& r.params@[0].0@ == "pool"@ && r.params@[0].1@ == addr_hex(pool)
                    &&& r.params@[1].0@ == "cost0"@ && r.params@[1].1@ == dec_of(reserve0)
                    &&& r.params@[2].0@ == "cost1"@ && r.params@[2].1@ == dec_of(reserve1)
                },
            },
    {
        match self {
            GraphOp::CreateToken { address, symbol } => {
                let mut params: Vec<(String, String)> = Vec::new();
                params.push(
                    (String::from_str("address"), hex_string_of_bytes(address.as_bytes())),
                );
                params.push((String::from_str("name"), symbol.clone()));
                Statement {
                    text: String::from_str(
                        "CREATE (t:Token {address: $address, name: $name})",
                    ),
                    params,
                }
            },
            GraphOp::CreatePoolEdges { pool, token0, token1 } => {
                proof {
                    reveal_strlit("0");
                    assert("0"@ =~= dec_of(0));
                }
                let mut params: Vec<(String, String)> = Vec::new();
                params.push((String::from_str("token0"), hex_string_of_bytes(token0.as_bytes())));
                params.push((String::from_str("token1"), hex_string_of_bytes(token1.as_bytes())));
                params.push((String::from_str("pool"), hex_string_of_bytes(pool.as_bytes())));
                params.push((String::from_str("cost0"), String::from_str("0")));
                params.push((String::from_str("cost1"), String::from_str("0")));
                Statement {
                    text: String::from_str(
                        "MATCH (n:Token {address: $token0}), (m:Token {address: $token1}) CREATE (n)-[:UNISWAPV2_POOL {cost: $cost0, token: '0', pool_address: $pool}]->(m) CREATE (m)-[:UNISWAPV2_POOL {cost: $cost1, token: '1', pool_address: $pool}]->(n)",
                    ),
                    params,
                }
            },
            GraphOp::SetReserves { pool, reserve0, reserve1 } => {
                let mut params: Vec<(String, String)> = Vec::new();
                params.push((String::from_str("pool"), hex_string_of_bytes(pool.as_bytes())));
                params.push((String::from_str("cost0"), decimal_string_of(*reserve0)));
                params.push((String::from_str("cost1"), decimal_string_of(*reserve1)));
                Statement {
                    text: String::from_str(
                        "MATCH ()-[r:UNISWAPV2_POOL]->() WHERE r.pool_address = $pool SET r.cost = CASE r.token WHEN '0' THEN $cost0 ELSE $cost1 END RETURN r",
                    ),
                    params,
                }
            },
        }
    }
}

/// The operations that materialize a newly observed pool, given the set
/// of token addresses whose nodes this process has already created: a
/// token node for each address not yet present, then the pool's two
/// edges, initially at reserve `0`.
pub open spec fn creation_ops(nodes: Set<Seq<u8>>, pool: Seq<u8>, m: MetadataModel) -> Seq<
    GraphOpModel,
> {
    let first = if !nodes.contains(m.token0) {
        seq![GraphOpModel::CreateToken { address: m.token0, symbol: m.symbol0 }]
    } else {
        Seq::empty()
    };
    let second = if !nodes.insert(m.token0).contains(m.token1) {
        seq![GraphOpModel::CreateToken { address: m.token1, symbol: m.symbol1 }]
    } else {
        Seq::empty()
    };
    first + second + seq![
        GraphOpModel::CreatePoolEdges { pool, token0: m.token0, token1: m.token1 },
    ]
}

/// Upsert logic of the graph store: tracks which token nodes this process
/// has created, and computes the operations to issue.
pub struct Neo4jStore {
    /// Token addresses whose node creation has been carried out. An
    /// address joins this view only once the caller has reported the
    /// creation statements applied, so membership never outruns the
    /// store.
    pub nodes: PairRegistry,
}

impl Neo4jStore {
    /// A store view with no token node created yet.
    pub fn new_store() -> (r: Neo4jStore)
        ensures
            r.nodes@ == Set::<Seq<u8>>::empty(),
    {
        Neo4jStore { nodes: PairRegistry::new() }
    }

    /// The reserve-update operation for one decoded event.
    pub fn update_reserves(&self, event: &SyncEvent) -> (op: GraphOp)
        ensures
            op@ == (GraphOpModel::SetReserves {
                pool: event.address@,
                reserve0: event.reserve0 as nat,
                reserve1: event.reserve1 as nat,
            }),
    {
        GraphOp::SetReserves {
            pool: event.address.duplicate(),
            reserve0: event.reserve0,
            reserve1: event.reserve1,
        }
    }

    /// The operations that materialize the pool at `pool` with metadata
    /// `meta`, computed against the current node view. Nothing is
    /// committed here: the caller reports back through
    /// [`Neo4jStore::record_pair_created`] once the statements have been
    /// applied, so a failed write leaves every node eligible for
    /// creation on a later event.
    pub fn update_pair_metadata(&self, pool: &Address, meta: &PairMetadata) -> (ops: Vec<GraphOp>)
        ensures
            op_views(ops@) == creation_ops(self.nodes@, pool@, meta@),
    {
        let mut ops: Vec<GraphOp> = Vec::new();
        if !self.nodes.is_known(&meta.token0) {
            ops.push(
                GraphOp::CreateToken {
                    address: meta.token0.duplicate(),
                    symbol: meta.symbol0.clone(),
                },
            );
        }
        if !(self.nodes.is_known(&meta.token1) || meta.token1.same_as(&meta.token0)) {
            ops.push(
                GraphOp::CreateToken {
                    address: meta.token1.duplicate(),
                    symbol: meta.symbol1.clone(),
                },
            );
        }
        ops.push(
            GraphOp::CreatePoolEdges {
                pool: pool.duplicate(),
                token0: meta.token0.duplicate(),
                token1: meta.token1.duplicate(),
            },
        );
        proof {
            assert(op_views(ops@) =~= creation_ops(self.nodes@, pool@, meta@));
        }
        ops
    }

    /// Records both token addresses of a created pair in the node view,
    /// to be called only once their creation statements have succeeded.
    pub fn record_pair_created(&mut self, meta: &PairMetadata)
        ensures
            final(self).nodes@ == old(self).nodes@.insert(meta.token0@).insert(meta.token1@),
    {
        self.nodes.mark_known(meta.token0.duplicate());
        self.nodes.mark_known(meta.token1.duplicate());
    }
}

} // verus!
