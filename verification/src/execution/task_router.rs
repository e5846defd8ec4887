//! Multi-agent task routing: which nodes of a cluster may take a FAO
//! operation.
//!
//! Edge nodes handle lightweight perception tasks while core nodes handle
//! heavy symbolic joins. The routing decision here picks the eligible nodes
//! by role, accelerators and memory; among them the least loaded one takes
//! the operation.

use vstd::prelude::*;

use crate::kernel::error::{AnamError, Result};
use crate::text::{chars_of, decimal, decimal_chars, push_all, push_str, string_of};

verus! {

/// The role of a node in the cluster.
#[derive(Debug, Clone, Copy, PartialEq, Eq, Hash, Structural)]
pub enum NodeRole {
    /// High-memory, high-compute core node: handles symbolic joins.
    Core,
    /// Lightweight edge node: handles perception.
    Edge,
    /// Hybrid node: can handle both, prefers perception tasks.
    Hybrid,
}

impl NodeRole {
    /// The displayed name.
    pub open spec fn label(self) -> Seq<char> {
        match self {
            NodeRole::Core => "Core"@,
            NodeRole::Edge => "Edge"@,
            NodeRole::Hybrid => "Hybrid"@,
        }
    }

    /// The displayed name.
    pub fn to_string(&self) -> (r: String)
        ensures
            r@ == self.label(),
    {
        let s = match self {
            NodeRole::Core => "Core",
            NodeRole::Edge => "Edge",
            NodeRole::Hybrid => "Hybrid",
        };
        string_of(&chars_of(s))
    }
}

/// The category of a FAO operation (for routing decisions).
#[derive(Debug, Clone, Copy, PartialEq, Eq, Structural)]
pub enum FaoCategory {
    /// Neural perception: classification, OCR and the like.
    Perception,
    /// Symbolic reasoning: Datalog joins, rule evaluation.
    SymbolicJoin,
    /// Both neural inference and symbolic reasoning.
    Mixed,
}

impl FaoCategory {
    /// The displayed name.
    pub open spec fn label(self) -> Seq<char> {
        match self {
            FaoCategory::Perception => "Perception"@,
            FaoCategory::SymbolicJoin => "SymbolicJoin"@,
            FaoCategory::Mixed => "Mixed"@,
        }
    }

    /// The displayed name.
    pub fn to_string(&self) -> (r: String)
        ensures
            r@ == self.label(),
    {
        let s = match self {
            FaoCategory::Perception => "Perception",
            FaoCategory::SymbolicJoin => "SymbolicJoin",
            FaoCategory::Mixed => "Mixed",
        };
        string_of(&chars_of(s))
    }
}

/// What routing reads of a node: its id, role, memory and accelerators.
#[derive(Debug, Clone)]
pub struct NodeCapacity {
    /// Unique node identifier.
    pub node_id: String,
    /// Node role.
    pub role: NodeRole,
    /// Available memory in MB.
    pub memory_mb: u64,
    /// Number of hardware accelerators.
    pub accelerators: u32,
}

/// Whether the routing took the preferred nodes or fell back.
#[derive(Debug, Clone, Copy, PartialEq, Eq, Structural)]
pub enum RouteTier {
    /// The nodes preferred for the category.
    Preferred,
    /// Perception only: any node with accelerators.
    Fallback,
}

/// The nodes that may take an operation, by their position in the node
/// list, in order, and which tier they come from.
#[derive(Debug, Clone)]
pub struct RouteChoice {
    pub tier: RouteTier,
    pub candidates: Vec<usize>,
}

/// A node is preferred for a category: perception wants a non-core node
/// with accelerators; a symbolic join a non-edge node with the memory;
/// mixed work a hybrid node, or a core node with accelerators, with the
/// memory.
pub open spec fn preferred(n: NodeCapacity, category: FaoCategory, min_memory_mb: u64) -> bool {
    match category {
        FaoCategory::Perception => n.role != NodeRole::Core && n.accelerators > 0,
        FaoCategory::SymbolicJoin => n.role != NodeRole::Edge && n.memory_mb >= min_memory_mb,
        FaoCategory::Mixed => (n.role == NodeRole::Hybrid || (n.role == NodeRole::Core
            && n.accelerators > 0)) && n.memory_mb >= min_memory_mb,
    }
}

/// A node may take the operation in the given tier.
pub open spec fn eligible(
    n: NodeCapacity,
    category: FaoCategory,
    min_memory_mb: u64,
    tier: RouteTier,
) -> bool {
    match tier {
        RouteTier::Preferred => preferred(n, category, min_memory_mb),
        RouteTier::Fallback => n.accelerators > 0,
    }
}

/// The positions of the nodes eligible in a tier, in order.
pub open spec fn eligible_upto(
    nodes: Seq<NodeCapacity>,
    category: FaoCategory,
    min_memory_mb: u64,
    tier: RouteTier,
    n: int,
) -> Seq<usize>
    decreases n,
{
    if n <= 0 {
        Seq::empty()
    } else if eligible(nodes[n - 1], category, min_memory_mb, tier) {
        eligible_upto(nodes, category, min_memory_mb, tier, n - 1).push((n - 1) as usize)
    } else {
        eligible_upto(nodes, category, min_memory_mb, tier, n - 1)
    }
}

/// The positions of all nodes eligible in a tier.
pub open spec fn eligible_nodes(
    nodes: Seq<NodeCapacity>,
    category: FaoCategory,
    min_memory_mb: u64,
    tier: RouteTier,
) -> Seq<usize> {
    eligible_upto(nodes, category, min_memory_mb, tier, nodes.len() as int)
}

/// The error message when a category finds no node.
pub open spec fn no_node_message(category: FaoCategory, min_memory_mb: u64) -> Seq<char> {
    match category {
        FaoCategory::Perception => "no nodes with accelerators available for perception"@,
        FaoCategory::SymbolicJoin => "no core nodes with >= "@ + decimal(min_memory_mb as nat)
            + "MB available for symbolic join"@,
        FaoCategory::Mixed => "no hybrid/core nodes available for mixed workload"@,
    }
}

/// The tier that routing takes: the preferred nodes, or for perception,
/// when there is none, the fallback.
pub open spec fn route_tier(
    nodes: Seq<NodeCapacity>,
    category: FaoCategory,
    min_memory_mb: u64,
) -> RouteTier {
    if category == FaoCategory::Perception && eligible_nodes(
        nodes,
        category,
        min_memory_mb,
        RouteTier::Preferred,
    ).len() == 0 {
        RouteTier::Fallback
    } else {
        RouteTier::Preferred
    }
}

fn is_eligible(n: &NodeCapacity, category: FaoCategory, min_memory_mb: u64, tier: RouteTier) -> (b:
    bool)
    ensures
        b == eligible(*n, category, min_memory_mb, tier),
{
    match tier {
        RouteTier::Preferred => match category {
            FaoCategory::Perception => n.role != NodeRole::Core && n.accelerators > 0,
            FaoCategory::SymbolicJoin => n.role != NodeRole::Edge && n.memory_mb >= min_memory_mb,
            FaoCategory::Mixed => (n.role == NodeRole::Hybrid || (n.role == NodeRole::Core
                && n.accelerators > 0)) && n.memory_mb >= min_memory_mb,
        },
        RouteTier::Fallback => n.accelerators > 0,
    }
}

fn collect_eligible(
    nodes: &Vec<NodeCapacity>,
    category: FaoCategory,
    min_memory_mb: u64,
    tier: RouteTier,
) -> (r: Vec<usize>)
    ensures
        r@ == eligible_nodes(nodes@, category, min_memory_mb, tier),
{
    let mut r: Vec<usize> = Vec::new();
    let mut i: usize = 0;
    while i < nodes.len()
        invariant
            i <= nodes.len(),
            r@ == eligible_upto(nodes@, category, min_memory_mb, tier, i as int),
        decreases nodes.len() - i,
    {
        if is_eligible(&nodes[i], category, min_memory_mb, tier) {
            r.push(i);
        }
        i += 1;
    }
    r
}

/// Pick the nodes that may take a FAO operation of `category` that needs
/// `min_memory_mb`: the preferred ones, or for perception, when there is
/// none, any node with accelerators. Fails when the cluster is empty or
/// no node fits.
pub fn route_candidates(nodes: &Vec<NodeCapacity>, category: FaoCategory, min_memory_mb: u64) -> (r:
    Result<RouteChoice>)
    ensures
        nodes@.len() == 0 ==> (r matches Err(AnamError::Logic(m)) && m@
            == "no agent nodes registered in the cluster"@),
        nodes@.len() > 0 ==> {
            let tier = route_tier(nodes@, category, min_memory_mb);
            let found = eligible_nodes(nodes@, category, min_memory_mb, tier);
            if found.len() == 0 {
                (r matches Err(AnamError::Logic(m)) && m@ == no_node_message(category, min_memory_mb))
            } else {
                (r matches Ok(c) && c.tier == tier && c.candidates@ == found)
            }
        },
{
    if nodes.len() == 0 {
        return Err(AnamError::Logic(string_of(&chars_of("no agent nodes registered in the cluster"))));
    }
    let mut tier = RouteTier::Preferred;
    let mut found = collect_eligible(nodes, category, min_memory_mb, tier);
    if found.len() == 0 && category == FaoCategory::Perception {
        tier = RouteTier::Fallback;
        found = collect_eligible(nodes, category, min_memory_mb, tier);
    }
    if found.len() == 0 {
        let message = match category {
            FaoCategory::Perception => chars_of("no nodes with accelerators available for perception"),
            FaoCategory::SymbolicJoin => {
                let mut m = chars_of("no core nodes with >= ");
                push_all(&mut m, &decimal_chars(min_memory_mb));
                push_str(&mut m, "MB available for symbolic join");
                m
            },
            FaoCategory::Mixed => chars_of("no hybrid/core nodes available for mixed workload"),
        };
        return Err(AnamError::Logic(string_of(&message)));
    }
    Ok(RouteChoice { tier, candidates: found })
}

/// The positions eligible among the first `n` nodes are exactly those
/// below `n` whose node is eligible.
proof fn lemma_eligible_upto_members(
    nodes: Seq<NodeCapacity>,
    category: FaoCategory,
    min_memory_mb: u64,
    tier: RouteTier,
    n: int,
    p: int,
)
    requires
        0 <= n <= nodes.len() <= usize::MAX,
        0 <= p < nodes.len(),
    ensures
        eligible_upto(nodes, category, min_memory_mb, tier, n).contains(p as usize) <==> (0 <= p < n
            && eligible(nodes[p], category, min_memory_mb, tier)),
        forall|k: int|
            0 <= k < eligible_upto(nodes, category, min_memory_mb, tier, n).len() ==> #[trigger] eligible_upto(
                nodes,
                category,
                min_memory_mb,
                tier,
                n,
            )[k] < n,
    decreases n,
{
    if n > 0 {
        lemma_eligible_upto_members(nodes, category, min_memory_mb, tier, n - 1, p);
        let prev = eligible_upto(nodes, category, min_memory_mb, tier, n - 1);
        if eligible(nodes[n - 1], category, min_memory_mb, tier) {
            let cur = prev.push((n - 1) as usize);
            assert forall|k: int| 0 <= k < cur.len() implies #[trigger] cur[k] < n by {
                if k < prev.len() {
                    assert(cur[k] == prev[k]);
                }
            }
            if cur.contains(p as usize) && !prev.contains(p as usize) {
                let k = choose|k: int| 0 <= k < cur.len() && cur[k] == p as usize;
                if k < prev.len() {
                    assert(prev[k] == cur[k]);
                }
            }
            if prev.contains(p as usize) {
                let k = choose|k: int| 0 <= k < prev.len() && prev[k] == p as usize;
                assert(cur[k] == prev[k]);
            }
            if p == n - 1 {
                assert(cur[prev.len() as int] == (n - 1) as usize);
            }
        }
    }
}

/// Mixed work is routed to the preferred tier, and its candidates are
/// exactly the nodes with at least `min_memory_mb` that are hybrid, or core
/// with at least one accelerator: a core node with accelerators and the
/// memory takes mixed work, an edge node never does.
pub proof fn lemma_mixed_routing(nodes: Seq<NodeCapacity>, min_memory_mb: u64, p: int)
    requires
        0 <= p < nodes.len() <= usize::MAX,
    ensures
        route_tier(nodes, FaoCategory::Mixed, min_memory_mb) == RouteTier::Preferred,
        eligible_nodes(nodes, FaoCategory::Mixed, min_memory_mb, RouteTier::Preferred).contains(
            p as usize,
        ) <==> (nodes[p].memory_mb >= min_memory_mb && (nodes[p].role == NodeRole::Hybrid || (
        nodes[p].role == NodeRole::Core && nodes[p].accelerators >= 1))),
        nodes[p].role == NodeRole::Core && nodes[p].accelerators >= 1 && nodes[p].memory_mb
            >= min_memory_mb ==> eligible_nodes(
            nodes,
            FaoCategory::Mixed,
            min_memory_mb,
            RouteTier::Preferred,
        ).contains(p as usize),
        nodes[p].role == NodeRole::Edge ==> !eligible_nodes(
            nodes,
            FaoCategory::Mixed,
            min_memory_mb,
            RouteTier::Preferred,
        ).contains(p as usize),
{
    lemma_eligible_upto_members(
        nodes,
        FaoCategory::Mixed,
        min_memory_mb,
        RouteTier::Preferred,
        nodes.len() as int,
        p,
    );
}

/// A symbolic join is routed to the preferred tier, and its candidates are
/// exactly the nodes that are not edge nodes and have at least
/// `min_memory_mb`.
pub proof fn lemma_symbolic_join_routing(nodes: Seq<NodeCapacity>, min_memory_mb: u64, p: int)
    requires
        0 <= p < nodes.len() <= usize::MAX,
    ensures
        route_tier(nodes, FaoCategory::SymbolicJoin, min_memory_mb) == RouteTier::Preferred,
        eligible_nodes(nodes, FaoCategory::SymbolicJoin, min_memory_mb, RouteTier::Preferred).contains(
            p as usize,
        ) <==> (nodes[p].role != NodeRole::Edge && nodes[p].memory_mb >= min_memory_mb),
{
    lemma_eligible_upto_members(
        nodes,
        FaoCategory::SymbolicJoin,
        min_memory_mb,
        RouteTier::Preferred,
        nodes.len() as int,
        p,
    );
}

/// Perception prefers the nodes that are not core nodes and have at least
/// one accelerator; when there is such a node the candidates are exactly
/// those, and otherwise routing falls back to every node with an
/// accelerator, whatever its role.
pub proof fn lemma_perception_routing(nodes: Seq<NodeCapacity>, min_memory_mb: u64, p: int)
    requires
        0 <= p < nodes.len() <= usize::MAX,
    ensures
        (exists|q: int|
            0 <= q < nodes.len() && nodes[q].role != NodeRole::Core && #[trigger] nodes[q].accelerators
                >= 1) ==> route_tier(nodes, FaoCategory::Perception, min_memory_mb)
            == RouteTier::Preferred,
        (forall|q: int|
            0 <= q < nodes.len() && nodes[q].role != NodeRole::Core ==> #[trigger] nodes[q].accelerators
                == 0) ==> route_tier(nodes, FaoCategory::Perception, min_memory_mb)
            == RouteTier::Fallback,
        eligible_nodes(nodes, FaoCategory::Perception, min_memory_mb, RouteTier::Preferred).contains(
            p as usize,
        ) <==> (nodes[p].role != NodeRole::Core && nodes[p].accelerators >= 1),
        eligible_nodes(nodes, FaoCategory::Perception, min_memory_mb, RouteTier::Fallback).contains(
            p as usize,
        ) <==> nodes[p].accelerators >= 1,
{
    let n = nodes.len() as int;
    let pref = eligible_nodes(nodes, FaoCategory::Perception, min_memory_mb, RouteTier::Preferred);
    lemma_eligible_upto_members(nodes, FaoCategory::Perception, min_memory_mb, RouteTier::Preferred, n, p);
    lemma_eligible_upto_members(nodes, FaoCategory::Perception, min_memory_mb, RouteTier::Fallback, n, p);
    if exists|q: int|
        0 <= q < nodes.len() && nodes[q].role != NodeRole::Core && #[trigger] nodes[q].accelerators >= 1 {
        let q = choose|q: int|
            0 <= q < nodes.len() && nodes[q].role != NodeRole::Core && #[trigger] nodes[q].accelerators
                >= 1;
        lemma_eligible_upto_members(nodes, FaoCategory::Perception, min_memory_mb, RouteTier::Preferred, n, q);
        assert(pref.len() > 0);
    }
    if forall|q: int|
        0 <= q < nodes.len() && nodes[q].role != NodeRole::Core ==> #[trigger] nodes[q].accelerators == 0 {
        if pref.len() > 0 {
            let x = pref[0];
            assert(pref.contains(x));
            assert(x < n);
            lemma_eligible_upto_members(
                nodes,
                FaoCategory::Perception,
                min_memory_mb,
                RouteTier::Preferred,
                n,
                x as int,
            );
        }
    }
}

} // verus!
