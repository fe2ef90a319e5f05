//! An in-memory graph store: the executable counterpart of
//! [`crate::model::GraphModel`].
//!
//! It applies the same operations the pipeline computes for the remote
//! store, so tests and tools can observe the graph state that a sequence
//! of events produces.

use vstd::prelude::*;
use vstd::pervasive::VecAdditionalExecFns;
use crate::address::Address;
use crate::model::GraphModel;
use crate::model::GraphOpModel;
use crate::model::PoolEdgeModel;
use crate::model::apply_op;
use crate::store::GraphOp;

verus! {

/// One directed pool edge, as stored.
pub struct PoolEdge {
    pub pool: Address,
    pub side: u8,
    pub from: Address,
    pub to: Address,
    pub reserve: u128,
}

pub open spec fn edge_key(e: PoolEdge) -> (Seq<u8>, int) {
    (e.pool@, e.side as int)
}

pub open spec fn edge_val(e: PoolEdge) -> PoolEdgeModel {
    PoolEdgeModel { from: e.from@, to: e.to@, reserve: e.reserve as nat }
}

/// The token map a stored sequence of nodes denotes; a later entry for
/// the same address wins.
pub open spec fn tokens_map(s: Seq<(Address, String)>) -> Map<Seq<u8>, Seq<char>>
    decreases s.len(),
{
    if s.len() == 0 {
        Map::empty()
    } else {
        tokens_map(s.drop_last()).insert(s.last().0@, s.last().1@)
    }
}

/// The edge map a stored sequence of edges denotes.
pub open spec fn edges_map(s: Seq<PoolEdge>) -> Map<(Seq<u8>, int), PoolEdgeModel>
    decreases s.len(),
{
    if s.len() == 0 {
        Map::empty()
    } else {
        edges_map(s.drop_last()).insert(edge_key(s.last()), edge_val(s.last()))
    }
}

pub proof fn lemma_tokens_map_domain(s: Seq<(Address, String)>, k: Seq<u8>)
    ensures
        tokens_map(s).contains_key(k) <==> exists|i: int| 0 <= i < s.len() && s[i].0@ == k,
    decreases s.len(),
{
    if s.len() > 0 {
        lemma_tokens_map_domain(s.drop_last(), k);
        if tokens_map(s).contains_key(k) && s.last().0@ != k {
            let i = choose|i: int| 0 <= i < s.drop_last().len() && s.drop_last()[i].0@ == k;
            assert(s[i].0@ == k);
        }
        if exists|i: int| 0 <= i < s.len() && s[i].0@ == k {
            let i = choose|i: int| 0 <= i < s.len() && s[i].0@ == k;
            if i < s.len() - 1 {
                assert(s.drop_last()[i].0@ == k);
            }
        }
    }
}

pub proof fn lemma_edges_map_domain(s: Seq<PoolEdge>, k: (Seq<u8>, int))
    ensures
        edges_map(s).contains_key(k) <==> exists|i: int| 0 <= i < s.len() && edge_key(s[i]) == k,
    decreases s.len(),
{
    if s.len() > 0 {
        lemma_edges_map_domain(s.drop_last(), k);
        if edges_map(s).contains_key(k) && edge_key(s.last()) != k {
            let i = choose|i: int|
                0 <= i < s.drop_last().len() && edge_key(s.drop_last()[i]) == k;
            assert(edge_key(s[i]) == k);
        }
        if exists|i: int| 0 <= i < s.len() && edge_key(s[i]) == k {
            let i = choose|i: int| 0 <= i < s.len() && edge_key(s[i]) == k;
            if i < s.len() - 1 {
                assert(edge_key(s.drop_last()[i]) == k);
            }
        }
    }
}

/// Whether no two stored edges share a key.
pub open spec fn edges_distinct(s: Seq<PoolEdge>) -> bool {
    forall|i: int, j: int|
        0 <= i < j < s.len() ==> edge_key(s[i]) != edge_key(s[j])
}

/// Whether no two stored tokens share an address.
pub open spec fn tokens_distinct(s: Seq<(Address, String)>) -> bool {
    forall|i: int, j: int| 0 <= i < j < s.len() ==> s[i].0@ != s[j].0@
}

pub proof fn lemma_edges_map_value(s: Seq<PoolEdge>, i: int)
    requires
        edges_distinct(s),
        0 <= i < s.len(),
    ensures
        edges_map(s)[edge_key(s[i])] == edge_val(s[i]),
    decreases s.len(),
{
    if i < s.len() - 1 {
        assert(edge_key(s.drop_last()[i]) == edge_key(s[i]));
        lemma_edges_map_value(s.drop_last(), i);
    }
}

pub proof fn lemma_tokens_map_value(s: Seq<(Address, String)>, i: int)
    requires
        tokens_distinct(s),
        0 <= i < s.len(),
    ensures
        tokens_map(s)[s[i].0@] == s[i].1@,
    decreases s.len(),
{
    if i < s.len() - 1 {
        assert(s.drop_last()[i].0@ == s[i].0@);
        lemma_tokens_map_value(s.drop_last(), i);
    }
}

/// Replacing the edge at `i` by one with the same key updates exactly
/// that key's value.
pub proof fn lemma_edges_map_update(s: Seq<PoolEdge>, i: int, e: PoolEdge)
    requires
        edges_distinct(s),
        0 <= i < s.len(),
        edge_key(e) == edge_key(s[i]),
    ensures
        edges_map(s.update(i, e)) == edges_map(s).insert(edge_key(e), edge_val(e)),
        edges_distinct(s.update(i, e)),
    decreases s.len(),
{
    let t = s.update(i, e);
    if i == s.len() - 1 {
        assert(t.drop_last() =~= s.drop_last());
        assert(t.last() == e);
        assert(edges_map(t) =~= edges_map(s).insert(edge_key(e), edge_val(e)));
    } else {
        assert(t.drop_last() =~= s.drop_last().update(i, e));
        assert(edge_key(s.drop_last()[i]) == edge_key(s[i]));
        lemma_edges_map_update(s.drop_last(), i, e);
        assert(t.last() == s.last());
        assert(edge_key(s.last()) != edge_key(e));
        assert(edges_map(t) == edges_map(s.drop_last()).insert(edge_key(e), edge_val(e)).insert(
            edge_key(s.last()),
            edge_val(s.last()),
        ));
        assert(edges_map(t) =~= edges_map(s).insert(edge_key(e), edge_val(e)));
    }
}

/// The executable graph store state.
pub struct GraphState {
    pub tokens: Vec<(Address, String)>,
    pub edges: Vec<PoolEdge>,
}

impl View for GraphState {
    type V = GraphModel;

    open spec fn view(&self) -> GraphModel {
        GraphModel { tokens: tokens_map(self.tokens@), edges: edges_map(self.edges@) }
    }
}

impl GraphState {
    /// No node or edge stored twice under one key.
    pub open spec fn wf(self) -> bool {
        tokens_distinct(self.tokens@) && edges_distinct(self.edges@)
    }

    /// An empty graph.
    pub fn new() -> (r: GraphState)
        ensures
            r@ == GraphModel::empty(),
            r.wf(),
    {
        let r = GraphState { tokens: Vec::new(), edges: Vec::new() };
        r
    }

    /// How many token nodes exist.
    pub fn token_count(&self) -> (r: usize)
        ensures
            r == self.tokens@.len(),
    {
        self.tokens.len()
    }

    /// How many directed pool edges exist.
    pub fn edge_count(&self) -> (r: usize)
        ensures
            r == self.edges@.len(),
    {
        self.edges.len()
    }

    /// Whether a token node exists at `addr`.
    pub fn has_token(&self, addr: &Address) -> (r: bool)
        ensures
            r == self@.tokens.contains_key(addr@),
    {
        let n = self.tokens.len();
        let mut i: usize = 0;
        while i < n
            invariant
                i <= n,
                n == self.tokens@.len(),
                forall|j: int| 0 <= j < i ==> self.tokens@[j].0@ != addr@,
            decreases n - i,
        {
            if self.tokens[i].0.same_as(addr) {
                proof {
                    lemma_tokens_map_domain(self.tokens@, addr@);
                }
                return true;
            }
            i = i + 1;
        }
        proof {
            lemma_tokens_map_domain(self.tokens@, addr@);
        }
        false
    }

    /// The symbol of the token node at `addr`, if one exists.
    pub fn token_symbol(&self, addr: &Address) -> (r: Option<&String>)
        requires
            self.wf(),
        ensures
            r is Some <==> self@.tokens.contains_key(addr@),
            r matches Some(s) ==> s@ == self@.tokens[addr@],
    {
        let n = self.tokens.len();
        let mut i: usize = 0;
        while i < n
            invariant
                i <= n,
                n == self.tokens@.len(),
                tokens_distinct(self.tokens@),
                forall|j: int| 0 <= j < i ==> self.tokens@[j].0@ != addr@,
            decreases n - i,
        {
            if self.tokens[i].0.same_as(addr) {
                proof {
                    lemma_tokens_map_domain(self.tokens@, addr@);
                    lemma_tokens_map_value(self.tokens@, i as int);
                }
                return Some(&self.tokens[i].1);
            }
            i = i + 1;
        }
        proof {
            lemma_tokens_map_domain(self.tokens@, addr@);
        }
        None
    }

    /// The index of the edge keyed by `pool` and `side`, if one exists.
    fn find_edge(&self, pool: &Address, side: u8) -> (r: Option<usize>)
        ensures
            r matches Some(i) ==> i < self.edges@.len() && edge_key(self.edges@[i as int]) == (
                pool@,
                side as int,
            ),
            r is None ==> !self@.edges.contains_key((pool@, side as int)),
    {
        let n = self.edges.len();
        let mut i: usize = 0;
        while i < n
            invariant
                i <= n,
                n == self.edges@.len(),
                forall|j: int| 0 <= j < i ==> edge_key(self.edges@[j]) != (pool@, side as int),
            decreases n - i,
        {
            if self.edges[i].pool.same_as(pool) && self.edges[i].side == side {
                return Some(i);
            }
            i = i + 1;
        }
        proof {
            lemma_edges_map_domain(self.edges@, (pool@, side as int));
        }
        None
    }

    /// The reserve on the edge keyed by `pool` and `side`, if the edge
    /// exists.
    pub fn reserve_of(&self, pool: &Address, side: u8) -> (r: Option<u128>)
        requires
            self.wf(),
        ensures
            r is Some <==> self@.edges.contains_key((pool@, side as int)),
            r matches Some(v) ==> v as nat == self@.edges[(pool@, side as int)].reserve,
    {
        match self.find_edge(pool, side) {
            Some(i) => {
                proof {
                    lemma_edges_map_domain(self.edges@, (pool@, side as int));
                    lemma_edges_map_value(self.edges@, i as int);
                }
                Some(self.edges[i].reserve)
            },
            None => None,
        }
    }

    /// Applies one upsert operation; the new state is exactly what the
    /// model's `apply_op` says. Creation operations must not repeat a
    /// key, which the pipeline's registry and node view guarantee.
    pub fn apply(&mut self, op: &GraphOp)
        requires
            old(self).wf(),
            op@ matches GraphOpModel::CreateToken { address, .. } ==> !old(
                self,
            )@.tokens.contains_key(address),
            op@ matches GraphOpModel::CreatePoolEdges { pool, .. } ==> !old(
                self,
            )@.edges.contains_key((pool, 0)) && !old(self)@.edges.contains_key((pool, 1)),
        ensures
            final(self)@ == apply_op(old(self)@, op@),
            final(self).wf(),
    {
        match op {
            GraphOp::CreateToken { address, symbol } => {
                proof {
                    lemma_tokens_map_domain(self.tokens@, address@);
                }
                self.tokens.push((address.duplicate(), symbol.clone()));
                proof {
                    assert(self.tokens@.drop_last() =~= old(self).tokens@);
                    assert(self@.tokens =~= apply_op(old(self)@, op@).tokens);
                    assert(self@.edges =~= apply_op(old(self)@, op@).edges);
                    assert(self@ == apply_op(old(self)@, op@));
                }
            },
            GraphOp::CreatePoolEdges { pool, token0, token1 } => {
                proof {
                    lemma_edges_map_domain(self.edges@, (pool@, 0));
                    lemma_edges_map_domain(self.edges@, (pool@, 1));
                }
                let e0 = PoolEdge {
                    pool: pool.duplicate(),
                    side: 0,
                    from: token0.duplicate(),
                    to: token1.duplicate(),
                    reserve: 0,
                };
                let e1 = PoolEdge {
                    pool: pool.duplicate(),
                    side: 1,
                    from: token1.duplicate(),
                    to: token0.duplicate(),
                    reserve: 0,
                };
                let ghost mid = self.edges@.push(e0);
                self.edges.push(e0);
                self.edges.push(e1);
                proof {
                    assert(self.edges@.drop_last() =~= mid);
                    assert(mid.drop_last() =~= old(self).edges@);
                    assert(op@ == (GraphOpModel::CreatePoolEdges {
                        pool: pool@,
                        token0: token0@,
                        token1: token1@,
                    }));
                    assert(edge_key(e0) == (pool@, 0int));
                    assert(edge_key(e1) == (pool@, 1int));
                    assert(edge_val(e0) == (PoolEdgeModel {
                        from: token0@,
                        to: token1@,
                        reserve: 0,
                    }));
                    assert(edge_val(e1) == (PoolEdgeModel {
                        from: token1@,
                        to: token0@,
                        reserve: 0,
                    }));
                    assert(edges_map(mid) == edges_map(old(self).edges@).insert(
                        edge_key(e0),
                        edge_val(e0),
                    ));
                    assert(edges_map(self.edges@) == edges_map(mid).insert(
                        edge_key(e1),
                        edge_val(e1),
                    ));
                    assert(self@.edges =~= apply_op(old(self)@, op@).edges);
                    assert(self@.tokens =~= apply_op(old(self)@, op@).tokens);
                    assert(self@ == apply_op(old(self)@, op@));
                }
            },
            GraphOp::SetReserves { pool, reserve0, reserve1 } => {
                let i0 = self.find_edge(pool, 0);
                let i1 = self.find_edge(pool, 1);
                proof {
                    lemma_edges_map_domain(self.edges@, (pool@, 0));
                    lemma_edges_map_domain(self.edges@, (pool@, 1));
                }
                match (i0, i1) {
                    (Some(i0), Some(i1)) => {
                        let ghost before = self.edges@;
                        let new0 = PoolEdge {
                            pool: self.edges[i0].pool.duplicate(),
                            side: self.edges[i0].side,
                            from: self.edges[i0].from.duplicate(),
                            to: self.edges[i0].to.duplicate(),
                            reserve: *reserve0,
                        };
                        self.edges.set(i0, new0);
                        let ghost mid = self.edges@;
                        let new1 = PoolEdge {
                            pool: self.edges[i1].pool.duplicate(),
                            side: self.edges[i1].side,
                            from: self.edges[i1].from.duplicate(),
                            to: self.edges[i1].to.duplicate(),
                            reserve: *reserve1,
                        };
                        self.edges.set(i1, new1);
                        proof {
                            assert(edge_key(before[i0 as int]) == (pool@, 0int));
                            assert(edge_key(before[i1 as int]) == (pool@, 1int));
                            assert(i0 != i1);
                            assert(mid == before.update(i0 as int, new0));
                            assert(self.edges@ == mid.update(i1 as int, new1));
                            lemma_edges_map_value(before, i0 as int);
                            lemma_edges_map_value(before, i1 as int);
                            lemma_edges_map_update(before, i0 as int, new0);
                            assert(edges_map(mid) == edges_map(before).insert(
                                (pool@, 0int),
                                edge_val(new0),
                            ));
                            lemma_edges_map_value(mid, i1 as int);
                            lemma_edges_map_update(mid, i1 as int, new1);
                            assert(edges_map(self.edges@) == edges_map(mid).insert(
                                (pool@, 1int),
                                edge_val(new1),
                            ));
                            let g = old(self)@;
                            assert(g.has_pool(pool@));
                            assert(g.edges[(pool@, 0int)] == edge_val(before[i0 as int]));
                            assert(g.edges[(pool@, 1int)] == edge_val(before[i1 as int]));
                            assert(edge_val(new0) == (PoolEdgeModel {
                                reserve: *reserve0 as nat,
                                ..g.edges[(pool@, 0int)]
                            }));
                            assert(edge_val(new1) == (PoolEdgeModel {
                                reserve: *reserve1 as nat,
                                ..g.edges[(pool@, 1int)]
                            }));
                            assert(self@.edges =~= apply_op(old(self)@, op@).edges);
                            assert(self@.tokens =~= apply_op(old(self)@, op@).tokens);
                            assert(self@ == apply_op(old(self)@, op@));
                        }
                    },
                    _ => {
                        proof {
                            assert(!old(self)@.has_pool(pool@));
                            assert(self@ == apply_op(old(self)@, op@));
                        }
                    },
                }
            },
        }
    }
}

} // verus!
