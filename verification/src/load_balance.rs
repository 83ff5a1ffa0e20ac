//! Client-side load balancing over a discovered instance set.
//!
//! Two policies: weighted random, which draws a uniform number below the
//! total weight and walks the cumulative weights, and consistent hashing,
//! which spreads virtual nodes for every endpoint over a 64-bit ring and
//! routes a request hash to the nearest node clockwise.

use vstd::prelude::*;
use crate::hashing::{murmur3_x64_128_low, murmur3_x64_128_low_of};
use crate::random::random_below;
use crate::svc_discover::{eps_view, EndpointModel, ServiceEndpoint};
use vstd::utf8::encode_utf8;

verus! {

/// Which load-balancing policy a service uses.
#[derive(Clone, Copy, PartialEq, Eq, Structural, Debug)]
pub enum BalancePolicy {
    WeightedRandom,
    ConsistentHash,
}

/// The sum of the first `i` endpoint weights.
pub open spec fn spec_cum_weight(es: Seq<EndpointModel>, i: int) -> int
    decreases i,
{
    if i <= 0 {
        0
    } else {
        spec_cum_weight(es, i - 1) + es[i - 1].weight
    }
}

/// The index the pick `p` lands on: the first endpoint whose cumulative
/// weight range contains `p`.
pub open spec fn spec_weighted_pick(es: Seq<EndpointModel>, p: int) -> int
    decreases es.len(),
{
    if es.len() == 0 {
        0
    } else if p < es[0].weight {
        0
    } else {
        1 + spec_weighted_pick(es.drop_first(), p - es[0].weight)
    }
}

/// Cumulative weights shift by the first endpoint's weight when it is
/// dropped.
proof fn lemma_cum_weight_shift(es: Seq<EndpointModel>, i: int)
    requires
        es.len() > 0,
        1 <= i <= es.len(),
    ensures
        spec_cum_weight(es, i) == es[0].weight + spec_cum_weight(es.drop_first(), i - 1),
    decreases i,
{
    if i == 1 {
        assert(spec_cum_weight(es, 1) == spec_cum_weight(es, 0) + es[0].weight);
        assert(spec_cum_weight(es.drop_first(), 0) == 0);
    } else {
        lemma_cum_weight_shift(es, i - 1);
        assert(es.drop_first()[i - 2] == es[i - 1]);
    }
}

/// A pick index is never negative.
proof fn lemma_weighted_pick_nonneg(es: Seq<EndpointModel>, p: int)
    ensures
        spec_weighted_pick(es, p) >= 0,
    decreases es.len(),
{
    if es.len() > 0 && p >= es[0].weight {
        lemma_weighted_pick_nonneg(es.drop_first(), p - es[0].weight);
    }
}

/// Which endpoint a pick lands on: exactly the endpoints whose cumulative
/// weight interval `[spec_cum_weight(es, i), spec_cum_weight(es, i + 1))`
/// contains the pick. A uniform pick below the total weight therefore
/// selects endpoint `i` with probability `weight_i / total`, which is the
/// convergence target of weighted-random balancing.
pub proof fn lemma_weighted_pick_characterization(es: Seq<EndpointModel>, p: int, i: int)
    requires
        0 <= p,
        0 <= i < es.len(),
    ensures
        (spec_weighted_pick(es, p) == i) <==> (spec_cum_weight(es, i) <= p < spec_cum_weight(
            es,
            i + 1,
        )),
    decreases es.len(),
{
    if es.len() > 0 {
        if p < es[0].weight {
            if i > 0 {
                lemma_cum_weight_shift(es, i);
                lemma_cum_weight_shift(es, i + 1);
                lemma_cum_weight_nonneg(es.drop_first(), i - 1);
            }
        } else {
            lemma_weighted_pick_nonneg(es.drop_first(), p - es[0].weight);
            if i == 0 {
                assert(spec_cum_weight(es, 1) == spec_cum_weight(es, 0) + es[0].weight);
            } else {
                lemma_weighted_pick_characterization(es.drop_first(), p - es[0].weight, i - 1);
                lemma_cum_weight_shift(es, i);
                lemma_cum_weight_shift(es, i + 1);
            }
        }
    }
}

/// Cumulative weights are never negative.
proof fn lemma_cum_weight_nonneg(es: Seq<EndpointModel>, i: int)
    ensures
        spec_cum_weight(es, i) >= 0,
    decreases i,
{
    if i > 0 {
        lemma_cum_weight_nonneg(es, i - 1);
    }
}

/// Cumulative weights are bounded by the number of summands.
proof fn lemma_cum_weight_bound(es: Seq<EndpointModel>, i: int)
    requires
        0 <= i <= es.len(),
    ensures
        0 <= spec_cum_weight(es, i) <= i * 0xFFFF_FFFF,
    decreases i,
{
    if i > 0 {
        lemma_cum_weight_bound(es, i - 1);
        assert((i - 1) * 0xFFFF_FFFF + 0xFFFF_FFFF == i * 0xFFFF_FFFF) by (nonlinear_arith);
    }
}

/// The total weight of an instance set.
pub fn total_weight(eps: &Vec<ServiceEndpoint>) -> (t: u64)
    requires
        eps@.len() <= 0xFFFF_FFFF,
    ensures
        t == spec_cum_weight(eps_view(eps@), eps@.len() as int),
{
    let ghost v = eps_view(eps@);
    let len = eps.len();
    let mut t: u64 = 0;
    let mut i: usize = 0;
    while i < len
        invariant
            len == eps@.len(),
            len <= 0xFFFF_FFFF,
            i <= len,
            v == eps_view(eps@),
            t == spec_cum_weight(v, i as int),
        decreases len - i,
    {
        proof {
            lemma_cum_weight_bound(v, i as int);
            assert((i as int) * 0xFFFF_FFFF <= 0xFFFF_FFFF * 0xFFFF_FFFF) by (nonlinear_arith)
                requires
                    0 <= i as int <= 0xFFFF_FFFF,
            ;
        }
        t = t + (eps[i].weight as u64);
        i = i + 1;
    }
    t
}

/// The endpoint the pick `p` lands on.
pub fn weighted_pick_index(eps: &Vec<ServiceEndpoint>, p: u64) -> (i: usize)
    requires
        eps@.len() <= 0xFFFF_FFFF,
        p < spec_cum_weight(eps_view(eps@), eps@.len() as int),
    ensures
        i < eps@.len(),
        i == spec_weighted_pick(eps_view(eps@), p as int),
{
    let ghost v = eps_view(eps@);
    let len = eps.len();
    let mut acc: u64 = 0;
    let mut i: usize = 0;
    while i < len
        invariant
            len == eps@.len(),
            len <= 0xFFFF_FFFF,
            i <= len,
            v == eps_view(eps@),
            acc == spec_cum_weight(v, i as int),
            p < spec_cum_weight(v, len as int),
            acc <= p,
        decreases len - i,
    {
        proof {
            lemma_cum_weight_bound(v, i as int);
            assert((i as int) * 0xFFFF_FFFF <= 0xFFFF_FFFF * 0xFFFF_FFFF) by (nonlinear_arith)
                requires
                    0 <= i as int <= 0xFFFF_FFFF,
            ;
        }
        let next = acc + (eps[i].weight as u64);
        if p < next {
            proof {
                lemma_weighted_pick_characterization(v, p as int, i as int);
            }
            return i;
        }
        acc = next;
        i = i + 1;
    }
    proof {
        assert(false);
    }
    0
}

/// Pick an endpoint at random, each with probability proportional to its
/// weight; an empty or zero-weight set yields nothing.
pub fn weighted_random_pick(eps: &Vec<ServiceEndpoint>) -> (r: Option<usize>)
    requires
        eps@.len() <= 0xFFFF_FFFF,
    ensures
        spec_cum_weight(eps_view(eps@), eps@.len() as int) == 0 ==> r is None,
        spec_cum_weight(eps_view(eps@), eps@.len() as int) > 0 ==> r is Some && r->0 < eps@.len()
            && exists|p: int|
            0 <= p < spec_cum_weight(eps_view(eps@), eps@.len() as int) && r->0
                == spec_weighted_pick(eps_view(eps@), p),
{
    let total = total_weight(eps);
    if total == 0 {
        None
    } else {
        let p = random_below(total);
        let i = weighted_pick_index(eps, p);
        proof {
            assert(i == spec_weighted_pick(eps_view(eps@), p as int));
        }
        Some(i)
    }
}

/// The seed a virtual node is hashed under: the replica index in the high
/// half, the endpoint's port in the low half.
pub open spec fn spec_ring_seed(e: EndpointModel, k: u32) -> u32
    recommends
        k <= 0xFFFF,
{
    (k * 0x1_0000 + e.port) as u32
}

/// The ring position of virtual node `k` of endpoint `e`.
pub open spec fn spec_ring_pos(e: EndpointModel, k: u32) -> u64 {
    murmur3_x64_128_low_of(encode_utf8(e.host), spec_ring_seed(e, k))
}

/// The virtual nodes of one endpoint: one per replica, in replica order.
pub open spec fn spec_ring_nodes_of(e: EndpointModel, idx: int, replicas: u32) -> Seq<(u64, int)> {
    Seq::new(replicas as nat, |k: int| (spec_ring_pos(e, k as u32), idx))
}

/// The virtual nodes of a whole instance set, endpoint by endpoint.
pub open spec fn spec_ring_nodes(es: Seq<EndpointModel>, replicas: u32) -> Seq<(u64, int)>
    decreases es.len(),
{
    if es.len() == 0 {
        Seq::empty()
    } else {
        spec_ring_nodes(es.drop_last(), replicas) + spec_ring_nodes_of(
            es.last(),
            es.len() - 1,
            replicas,
        )
    }
}

/// How far clockwise the ring must travel from `h` to reach `pos`.
pub open spec fn ring_dist(pos: u64, h: u64) -> int {
    if pos >= h {
        pos - h
    } else {
        pos + 0x1_0000_0000_0000_0000 - h
    }
}

/// The index of the node owning `h` among the nodes from `i` on, given the
/// best candidate `best` seen so far: the node at the smallest clockwise
/// distance, earliest first on ties.
pub open spec fn spec_owner_from(ns: Seq<(u64, int)>, h: u64, i: int, best: int) -> int
    decreases ns.len() - i,
{
    if i < 0 || i >= ns.len() {
        best
    } else if 0 <= best < ns.len() && ring_dist(ns[i].0, h) < ring_dist(ns[best].0, h) {
        spec_owner_from(ns, h, i + 1, i)
    } else {
        spec_owner_from(ns, h, i + 1, best)
    }
}

/// The index of the node owning `h`, or `-1` on an empty ring.
pub open spec fn spec_owner_index(ns: Seq<(u64, int)>, h: u64) -> int {
    if ns.len() == 0 {
        -1
    } else {
        spec_owner_from(ns, h, 1, 0)
    }
}

/// The spec-level pairs of a node vector.
pub open spec fn nodes_view(ns: Seq<(u64, usize)>) -> Seq<(u64, int)> {
    ns.map_values(|n: (u64, usize)| (n.0, n.1 as int))
}

/// A consistent-hash ring over an instance set: `replicas` virtual nodes
/// per endpoint, each carrying its endpoint's index.
pub struct ConsistentHashRing {
    pub nodes: Vec<(u64, usize)>,
    pub ep_count: usize,
}

/// The default number of virtual nodes per endpoint.
pub const DEFAULT_VIRTUAL_NODES: u32 = 160;

impl ConsistentHashRing {
    /// A well-formed ring only points at real endpoints.
    pub open spec fn wf(&self) -> bool {
        forall|i: int| 0 <= i < self.nodes@.len() ==> (#[trigger] self.nodes@[i]).1 < self.ep_count
    }

    /// Build the ring for an instance set, `replicas` virtual nodes per
    /// endpoint.
    pub fn build(eps: &Vec<ServiceEndpoint>, replicas: u32) -> (r: Self)
        requires
            replicas <= 0xFFFF,
            eps@.len() * replicas <= usize::MAX,
        ensures
            nodes_view(r.nodes@) == spec_ring_nodes(eps_view(eps@), replicas),
            r.ep_count == eps@.len(),
            r.wf(),
    {
        let ghost v = eps_view(eps@);
        let mut nodes: Vec<(u64, usize)> = Vec::new();
        proof {
            assert(nodes_view(nodes@) =~= spec_ring_nodes(eps_view(eps@.take(0)), replicas));
        }
        let len = eps.len();
        let mut i: usize = 0;
        while i < len
            invariant
                len == eps@.len(),
                i <= len,
                v == eps_view(eps@),
                eps@.len() * replicas <= usize::MAX,
                replicas <= 0xFFFF,
                nodes_view(nodes@) == spec_ring_nodes(eps_view(eps@.take(i as int)), replicas),
                nodes@.len() == i * replicas,
                forall|n: int| 0 <= n < nodes@.len() ==> (#[trigger] nodes@[n]).1 < i,
            decreases len - i,
        {
            let mut k: u32 = 0;
            proof {
                assert(spec_ring_nodes_of(v[i as int], i as int, replicas).take(0)
                    =~= Seq::<(u64, int)>::empty());
                assert((i as int) * replicas + replicas <= (len as int) * replicas) by (nonlinear_arith)
                    requires
                        i < len,
                        replicas >= 0,
                ;
            }
            while k < replicas
                invariant
                    len == eps@.len(),
                    i < len,
                    v == eps_view(eps@),
                    eps@.len() * replicas <= usize::MAX,
                    replicas <= 0xFFFF,
                    k <= replicas,
                    (i as int) * replicas + replicas <= (len as int) * replicas,
                    nodes_view(nodes@) == spec_ring_nodes(eps_view(eps@.take(i as int)), replicas)
                        + spec_ring_nodes_of(v[i as int], i as int, replicas).take(k as int),
                    nodes@.len() == i * replicas + k,
                    forall|n: int| 0 <= n < nodes@.len() ==> (#[trigger] nodes@[n]).1 <= i,
                decreases replicas - k,
            {
                let seed = k * 0x1_0000 + (eps[i].port as u32);
                let pos = murmur3_x64_128_low(eps[i].host.as_str().as_bytes(), seed);
                proof {
                    assert((len as int) * replicas <= usize::MAX);
                }
                let ghost old_nodes = nodes@;
                nodes.push((pos, i));
                proof {
                    assert(nodes_view(nodes@) =~= nodes_view(old_nodes).push((pos, i as int)));
                    assert((pos, i as int) == spec_ring_nodes_of(v[i as int], i as int, replicas)[k as int]);
                    assert(spec_ring_nodes_of(v[i as int], i as int, replicas).take(k as int + 1)
                        =~= spec_ring_nodes_of(v[i as int], i as int, replicas).take(k as int).push(
                        (pos, i as int),
                    ));
                    assert(spec_ring_nodes(eps_view(eps@.take(i as int)), replicas)
                        + spec_ring_nodes_of(v[i as int], i as int, replicas).take(k as int + 1)
                        =~= (spec_ring_nodes(eps_view(eps@.take(i as int)), replicas)
                        + spec_ring_nodes_of(v[i as int], i as int, replicas).take(k as int)).push(
                        (pos, i as int),
                    ));
                    assert(nodes_view(nodes@) =~= spec_ring_nodes(
                        eps_view(eps@.take(i as int)),
                        replicas,
                    ) + spec_ring_nodes_of(v[i as int], i as int, replicas).take(k as int + 1));
                }
                k = k + 1;
            }
            proof {
                assert(((i as int) + 1) * replicas == (i as int) * replicas + replicas)
                    by (nonlinear_arith);
                assert(spec_ring_nodes_of(v[i as int], i as int, replicas).take(replicas as int)
                    =~= spec_ring_nodes_of(v[i as int], i as int, replicas));
                assert(eps_view(eps@.take(i as int + 1)).drop_last() =~= eps_view(
                    eps@.take(i as int),
                ));
                assert(eps_view(eps@.take(i as int + 1)).last() == v[i as int]);
                assert(eps_view(eps@.take(i as int + 1)).len() - 1 == i as int);
                assert(nodes_view(nodes@) =~= spec_ring_nodes(
                    eps_view(eps@.take(i as int + 1)),
                    replicas,
                ));
            }
            i = i + 1;
        }
        proof {
            assert(eps@.take(len as int) =~= eps@);
            assert(eps_view(eps@.take(len as int)) =~= v);
        }
        ConsistentHashRing { nodes, ep_count: len }
    }

    /// The endpoint index owning the request hash `h`: the endpoint of the
    /// virtual node at the smallest clockwise distance from `h`, or
    /// nothing on an empty ring.
    pub fn pick(&self, h: u64) -> (r: Option<usize>)
        requires
            self.wf(),
        ensures
            self.nodes@.len() == 0 ==> r is None,
            self.nodes@.len() > 0 ==> r is Some && r->0 < self.ep_count && r->0 as int
                == nodes_view(self.nodes@)[spec_owner_index(nodes_view(self.nodes@), h)].1,
    {
        let ghost ns = nodes_view(self.nodes@);
        let len = self.nodes.len();
        if len == 0 {
            return None;
        }
        let mut best: usize = 0;
        let mut best_dist = Self::dist(self.nodes[0].0, h);
        let mut i: usize = 1;
        while i < len
            invariant
                len == self.nodes@.len(),
                ns == nodes_view(self.nodes@),
                1 <= i <= len,
                best < len,
                best_dist == ring_dist(ns[best as int].0, h),
                spec_owner_from(ns, h, 1, 0) == spec_owner_from(ns, h, i as int, best as int),
            decreases len - i,
        {
            let d = Self::dist(self.nodes[i].0, h);
            if d < best_dist {
                best = i;
                best_dist = d;
            }
            i = i + 1;
        }
        Some(self.nodes[best].1)
    }

    /// The clockwise distance from `h` to `pos` on the 64-bit ring.
    fn dist(pos: u64, h: u64) -> (d: u64)
        ensures
            d == ring_dist(pos, h),
    {
        if pos >= h {
            pos - h
        } else {
            // wrap: the way up to the top plus the way from zero to pos
            (u64::MAX - h) + 1 + pos
        }
    }
}

} // verus!
