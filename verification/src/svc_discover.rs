//! Service discovery: parsing registry instances into endpoints, diffing
//! instance sets, and a cached per-service view.
//!
//! A registry instance arrives as a host string, a signed port, and a
//! weight. It is well formed when the host is an IPv4 address in dotted
//! decimal (four octets, each `0..=255`, no leading zeros) and the port
//! fits `0..=65535`; malformed instances are skipped. Each delivered event
//! replaces the cached set for its service and is published as a
//! [`ChangeEvent`] carrying the full new set and its diff against the
//! previous one, where endpoints are identified by `(host, port)`.

use vstd::prelude::*;
use crate::keyed::{
    find_key_index, keyed_view, keys_distinct, lemma_upsert_props, spec_lookup_key, spec_upsert,
};
use crate::text::{all_digits, digits_val, lemma_digits_val_bounds};

verus! {

/// One instance as the registry hands it over: plain values, not yet
/// validated.
#[derive(Debug)]
pub struct RawInstance {
    pub ip: String,
    pub port: i32,
    pub weight: u32,
}

/// One resolved endpoint of a service.
#[derive(Debug)]
pub struct ServiceEndpoint {
    pub host: String,
    pub port: u16,
    pub weight: u32,
}

/// The mathematical value of a [`ServiceEndpoint`].
#[verifier::ext_equal]
pub struct EndpointModel {
    pub host: Seq<char>,
    pub port: u16,
    pub weight: u32,
}

impl View for ServiceEndpoint {
    type V = EndpointModel;

    open spec fn view(&self) -> EndpointModel {
        EndpointModel { host: self.host@, port: self.port, weight: self.weight }
    }
}

impl ServiceEndpoint {
    /// A copy of this endpoint.
    pub fn duplicate(&self) -> (r: Self)
        ensures
            r@ == self@,
    {
        ServiceEndpoint { host: self.host.clone(), port: self.port, weight: self.weight }
    }
}

/// Whether `s` is one octet of a dotted-decimal IPv4 address: one to three
/// digits, value at most 255, no leading zero.
pub open spec fn is_octet(s: Seq<char>) -> bool {
    &&& 1 <= s.len() <= 3
    &&& all_digits(s)
    &&& digits_val(s) <= 255
    &&& s.len() > 1 ==> s[0] != '0'
}

/// The positions of the `'.'` characters of `s`, in order.
pub open spec fn dot_positions(s: Seq<char>) -> Seq<int>
    decreases s.len(),
{
    if s.len() == 0 {
        Seq::empty()
    } else {
        dot_positions(s.drop_last()) + if s.last() == '.' {
            seq![s.len() - 1]
        } else {
            Seq::empty()
        }
    }
}

/// Whether `s` is an IPv4 address in dotted decimal: exactly three dots,
/// and an octet between and around them.
pub open spec fn is_ipv4(s: Seq<char>) -> bool {
    let d = dot_positions(s);
    &&& d.len() == 3
    &&& is_octet(s.subrange(0, d[0]))
    &&& is_octet(s.subrange(d[0] + 1, d[1]))
    &&& is_octet(s.subrange(d[1] + 1, d[2]))
    &&& is_octet(s.subrange(d[2] + 1, s.len() as int))
}

/// Every dot position is an index of `s`, they increase strictly, and they
/// are exactly the positions holding `'.'`.
pub proof fn lemma_dot_positions_props(s: Seq<char>)
    ensures
        forall|n: int|
            0 <= n < dot_positions(s).len() ==> 0 <= #[trigger] dot_positions(s)[n] < s.len()
                && s[dot_positions(s)[n]] == '.',
        forall|n: int, m: int|
            0 <= n < m < dot_positions(s).len() ==> dot_positions(s)[n] < dot_positions(s)[m],
    decreases s.len(),
{
    if s.len() > 0 {
        let dl = s.drop_last();
        lemma_dot_positions_props(dl);
        assert(forall|i: int| 0 <= i < s.len() - 1 ==> (#[trigger] dl[i]) == s[i]);
        let dp = dot_positions(s);
        let dpl = dot_positions(dl);
        assert(forall|n: int| 0 <= n < dpl.len() ==> (#[trigger] dp[n]) == dpl[n]);
        if s.last() == '.' {
            assert(dp[dp.len() - 1] == s.len() - 1);
        }
    }
}

/// Whether the `to - from` characters of `s` starting at `from` form an
/// octet.
fn check_octet(s: &str, from: usize, to: usize) -> (r: bool)
    requires
        from <= to <= s@.len(),
    ensures
        r == is_octet(s@.subrange(from as int, to as int)),
{
    let ghost sub = s@.subrange(from as int, to as int);
    let n = to - from;
    if n < 1 || n > 3 {
        return false;
    }
    let mut val: u32 = 0;
    let mut i: usize = 0;
    while i < n
        invariant
            from <= to <= s@.len(),
            n == to - from,
            n <= 3,
            i <= n,
            sub == s@.subrange(from as int, to as int),
            all_digits(sub.subrange(0, i as int)),
            val == digits_val(sub.subrange(0, i as int)),
            val <= 999,
        decreases n - i,
    {
        let c = s.get_char(from + i);
        if c < '0' || c > '9' {
            proof {
                assert(sub[i as int] == c);
            }
            return false;
        }
        proof {
            lemma_digits_val_bounds(sub.subrange(0, i as int));
            assert(sub.subrange(0, i as int).len() <= 2);
            assert(val <= 99);
        }
        val = val * 10 + (c as u32 - '0' as u32);
        proof {
            assert(sub.subrange(0, i as int + 1).drop_last() =~= sub.subrange(0, i as int));
            assert(sub.subrange(0, i as int + 1).last() == sub[i as int]);
            lemma_digits_val_bounds(sub.subrange(0, i as int + 1));
        }
        i = i + 1;
    }
    proof {
        assert(sub.subrange(0, n as int) =~= sub);
    }
    if val > 255 {
        return false;
    }
    if n > 1 && s.get_char(from) == '0' {
        proof {
            assert(sub[0] == '0');
        }
        return false;
    }
    true
}

/// Whether `s` is an IPv4 address in dotted decimal.
pub fn is_valid_ipv4(s: &str) -> (r: bool)
    ensures
        r == is_ipv4(s@),
{
    proof {
        lemma_dot_positions_props(s@);
    }
    let len = s.unicode_len();
    let mut dots: Vec<usize> = Vec::new();
    let mut i: usize = 0;
    proof {
        assert(dots@.map_values(|u: usize| u as int) =~= dot_positions(s@.subrange(0, 0)));
    }
    while i < len
        invariant
            len == s@.len(),
            i <= len,
            dots@.map_values(|u: usize| u as int) == dot_positions(s@.subrange(0, i as int)),
            forall|n: int| 0 <= n < dots@.len() ==> (#[trigger] dots@[n]) < i,
        decreases len - i,
    {
        let ghost d0 = dots@;
        let c = s.get_char(i);
        if c == '.' {
            dots.push(i);
        }
        proof {
            assert(s@.subrange(0, i as int + 1).drop_last() =~= s@.subrange(0, i as int));
            assert(s@.subrange(0, i as int + 1).last() == s@[i as int]);
            if c == '.' {
                assert(dots@.map_values(|u: usize| u as int) =~= dot_positions(
                    s@.subrange(0, i as int),
                ) + seq![i as int]);
            }
            assert(dots@.map_values(|u: usize| u as int) =~= dot_positions(
                s@.subrange(0, i as int + 1),
            ));
        }
        i = i + 1;
    }
    proof {
        assert(s@.subrange(0, len as int) =~= s@);
    }
    if dots.len() != 3 {
        return false;
    }
    let d0 = dots[0];
    let d1 = dots[1];
    let d2 = dots[2];
    proof {
        assert(dot_positions(s@)[0] == d0 as int);
        assert(dot_positions(s@)[1] == d1 as int);
        assert(dot_positions(s@)[2] == d2 as int);
        assert(d0 < d1 < d2 < s@.len());
    }
    let r = check_octet(s, 0, d0) && check_octet(s, d0 + 1, d1) && check_octet(s, d1 + 1, d2)
        && check_octet(s, d2 + 1, len);
    r
}

/// The endpoint a raw instance resolves to, or nothing when it is
/// malformed.
pub open spec fn spec_endpoint_of(r: RawInstance) -> Option<EndpointModel> {
    if is_ipv4(r.ip@) && 0 <= r.port <= 65535 {
        Some(EndpointModel { host: r.ip@, port: r.port as u16, weight: r.weight })
    } else {
        None
    }
}

/// Resolve one raw instance, rejecting a malformed host or port.
pub fn endpoint_of(raw: &RawInstance) -> (r: Option<ServiceEndpoint>)
    ensures
        match r {
            Some(e) => spec_endpoint_of(*raw) == Some(e@),
            None => spec_endpoint_of(*raw) is None,
        },
{
    if raw.port < 0 || raw.port > 65535 {
        return None;
    }
    if !is_valid_ipv4(raw.ip.as_str()) {
        return None;
    }
    Some(ServiceEndpoint { host: raw.ip.clone(), port: raw.port as u16, weight: raw.weight })
}

/// The endpoints a raw instance list resolves to, malformed ones skipped,
/// in arrival order.
pub open spec fn spec_parse_instances(rs: Seq<RawInstance>) -> Seq<EndpointModel>
    decreases rs.len(),
{
    if rs.len() == 0 {
        Seq::empty()
    } else {
        spec_parse_instances(rs.drop_last()) + match spec_endpoint_of(rs.last()) {
            Some(e) => seq![e],
            None => Seq::empty(),
        }
    }
}

/// Resolve a raw instance list, skipping malformed instances.
pub fn parse_instances(raws: &Vec<RawInstance>) -> (r: Vec<ServiceEndpoint>)
    ensures
        r@.map_values(|e: ServiceEndpoint| e@) == spec_parse_instances(raws@),
{
    let mut out: Vec<ServiceEndpoint> = Vec::new();
    proof {
        assert(out@.map_values(|e: ServiceEndpoint| e@) =~= spec_parse_instances(raws@.take(0)));
    }
    let len = raws.len();
    let mut i: usize = 0;
    while i < len
        invariant
            len == raws@.len(),
            i <= len,
            out@.map_values(|e: ServiceEndpoint| e@) == spec_parse_instances(raws@.take(i as int)),
        decreases len - i,
    {
        proof {
            assert(raws@.take(i as int + 1).drop_last() =~= raws@.take(i as int));
            assert(raws@.take(i as int + 1).last() == raws@[i as int]);
        }
        match endpoint_of(&raws[i]) {
            Some(e) => {
                out.push(e);
            },
            None => {},
        }
        proof {
            assert(out@.map_values(|e: ServiceEndpoint| e@) =~= spec_parse_instances(
                raws@.take(i as int + 1),
            ));
        }
        i = i + 1;
    }
    proof {
        assert(raws@.take(len as int) =~= raws@);
    }
    out
}

/// The models of a vector of endpoints.
pub open spec fn eps_view(es: Seq<ServiceEndpoint>) -> Seq<EndpointModel> {
    es.map_values(|e: ServiceEndpoint| e@)
}

/// Whether some endpoint in `es` has the address `(host, port)`.
pub open spec fn addr_in(es: Seq<EndpointModel>, host: Seq<char>, port: u16) -> bool {
    exists|i: int| 0 <= i < es.len() && (#[trigger] es[i]).host == host && es[i].port == port
}

/// The index of the first endpoint with address `(host, port)`, or `-1`.
pub open spec fn spec_find_addr(es: Seq<EndpointModel>, host: Seq<char>, port: u16) -> int
    decreases es.len(),
{
    if es.len() == 0 {
        -1
    } else if es[0].host == host && es[0].port == port {
        0
    } else {
        let r = spec_find_addr(es.drop_first(), host, port);
        if r < 0 {
            -1
        } else {
            r + 1
        }
    }
}

pub proof fn lemma_find_addr_props(es: Seq<EndpointModel>, host: Seq<char>, port: u16)
    ensures
        -1 <= spec_find_addr(es, host, port) < es.len(),
        spec_find_addr(es, host, port) >= 0 ==> es[spec_find_addr(es, host, port)].host == host
            && es[spec_find_addr(es, host, port)].port == port,
        spec_find_addr(es, host, port) >= 0 ==> addr_in(es, host, port),
        spec_find_addr(es, host, port) < 0 ==> !addr_in(es, host, port),
        forall|i: int|
            0 <= i < es.len() && (spec_find_addr(es, host, port) < 0 || i < spec_find_addr(
                es,
                host,
                port,
            )) ==> !((#[trigger] es[i]).host == host && es[i].port == port),
    decreases es.len(),
{
    if es.len() > 0 && !(es[0].host == host && es[0].port == port) {
        lemma_find_addr_props(es.drop_first(), host, port);
        assert(forall|i: int| 1 <= i < es.len() ==> (#[trigger] es[i]) == es.drop_first()[i - 1]);
        if spec_find_addr(es, host, port) < 0 {
            assert forall|i: int| 0 <= i < es.len() implies !((#[trigger] es[i]).host == host
                && es[i].port == port) by {
                if i >= 1 {
                    assert(es.drop_first()[i - 1] == es[i]);
                }
            }
        }
    }
}

/// The endpoints of `new` whose address is not in `old`, in order.
pub open spec fn spec_added(old: Seq<EndpointModel>, new: Seq<EndpointModel>) -> Seq<EndpointModel>
    decreases new.len(),
{
    if new.len() == 0 {
        new
    } else {
        spec_added(old, new.drop_last()) + if !addr_in(old, new.last().host, new.last().port) {
            seq![new.last()]
        } else {
            Seq::empty()
        }
    }
}

/// The endpoints of `old` whose address is not in `new`, in order.
pub open spec fn spec_removed(old: Seq<EndpointModel>, new: Seq<EndpointModel>) -> Seq<EndpointModel>
    decreases old.len(),
{
    if old.len() == 0 {
        old
    } else {
        spec_removed(old.drop_last(), new) + if !addr_in(new, old.last().host, old.last().port) {
            seq![old.last()]
        } else {
            Seq::empty()
        }
    }
}

/// The endpoints of `new` whose address is in `old` but which differ from
/// the first old endpoint at that address, in order.
pub open spec fn spec_updated(old: Seq<EndpointModel>, new: Seq<EndpointModel>) -> Seq<EndpointModel>
    decreases new.len(),
{
    if new.len() == 0 {
        new
    } else {
        let e = new.last();
        let i = spec_find_addr(old, e.host, e.port);
        spec_updated(old, new.drop_last()) + if i >= 0 && old[i] != e {
            seq![e]
        } else {
            Seq::empty()
        }
    }
}

/// A full instance-set snapshot together with its diff against the
/// previous snapshot, published to load balancers on every naming event.
#[derive(Debug)]
pub struct ChangeEvent {
    pub service: String,
    pub all: Vec<ServiceEndpoint>,
    pub added: Vec<ServiceEndpoint>,
    pub updated: Vec<ServiceEndpoint>,
    pub removed: Vec<ServiceEndpoint>,
}

impl ChangeEvent {
    /// Whether the event carries any difference at all.
    pub fn is_change(&self) -> (r: bool)
        ensures
            r == (self.added@.len() > 0 || self.updated@.len() > 0 || self.removed@.len() > 0),
    {
        self.added.len() > 0 || self.updated.len() > 0 || self.removed.len() > 0
    }
}

/// A copy of a vector of endpoints.
fn duplicate_eps(eps: &Vec<ServiceEndpoint>) -> (r: Vec<ServiceEndpoint>)
    ensures
        eps_view(r@) == eps_view(eps@),
        r@.len() == eps@.len(),
{
    let mut out: Vec<ServiceEndpoint> = Vec::new();
    let len = eps.len();
    let mut i: usize = 0;
    while i < len
        invariant
            len == eps@.len(),
            i <= len,
            out@.len() == i,
            forall|j: int| 0 <= j < i ==> (#[trigger] out@[j])@ == eps@[j]@,
        decreases len - i,
    {
        out.push(eps[i].duplicate());
        i = i + 1;
    }
    proof {
        assert(eps_view(out@) =~= eps_view(eps@));
    }
    out
}

/// Whether some endpoint of `eps` has the address `(host, port)`.
fn addr_in_exec(eps: &Vec<ServiceEndpoint>, host: &String, port: u16) -> (r: bool)
    ensures
        r == addr_in(eps_view(eps@), host@, port),
{
    let len = eps.len();
    let mut i: usize = 0;
    while i < len
        invariant
            len == eps@.len(),
            i <= len,
            forall|j: int|
                0 <= j < i ==> !((#[trigger] eps_view(eps@)[j]).host == host@
                && eps_view(eps@)[j].port == port),
        decreases len - i,
    {
        if eps[i].host == *host && eps[i].port == port {
            proof {
                assert(eps_view(eps@)[i as int].host == host@ && eps_view(eps@)[i as int].port
                    == port);
            }
            return true;
        }
        i = i + 1;
    }
    false
}

/// The first endpoint of `eps` with the address `(host, port)`, if any.
fn find_addr_exec(eps: &Vec<ServiceEndpoint>, host: &String, port: u16) -> (r: Option<usize>)
    ensures
        match r {
            Some(i) => i < eps@.len() && spec_find_addr(eps_view(eps@), host@, port) == i,
            None => spec_find_addr(eps_view(eps@), host@, port) == -1,
        },
{
    proof {
        lemma_find_addr_props(eps_view(eps@), host@, port);
    }
    let len = eps.len();
    let mut i: usize = 0;
    while i < len
        invariant
            len == eps@.len(),
            i <= len,
            forall|j: int|
                0 <= j < i ==> !((#[trigger] eps_view(eps@)[j]).host == host@
                && eps_view(eps@)[j].port == port),
        decreases len - i,
    {
        if eps[i].host == *host && eps[i].port == port {
            proof {
                lemma_find_addr_props(eps_view(eps@), host@, port);
                assert(eps_view(eps@)[i as int].host == host@ && eps_view(eps@)[i as int].port
                    == port);
            }
            return Some(i);
        }
        i = i + 1;
    }
    proof {
        lemma_find_addr_props(eps_view(eps@), host@, port);
    }
    None
}

/// Diff `new` against `old` by address equality; see [`spec_added`],
/// [`spec_removed`] and [`spec_updated`].
pub fn diff_instance_sets(old: &Vec<ServiceEndpoint>, new: &Vec<ServiceEndpoint>, service: &String) -> (ev: ChangeEvent)
    ensures
        ev.service@ == service@,
        eps_view(ev.all@) == eps_view(new@),
        eps_view(ev.added@) == spec_added(eps_view(old@), eps_view(new@)),
        eps_view(ev.removed@) == spec_removed(eps_view(old@), eps_view(new@)),
        eps_view(ev.updated@) == spec_updated(eps_view(old@), eps_view(new@)),
{
    let ghost vo = eps_view(old@);
    let ghost vn = eps_view(new@);
    let mut added: Vec<ServiceEndpoint> = Vec::new();
    let mut updated: Vec<ServiceEndpoint> = Vec::new();
    let mut removed: Vec<ServiceEndpoint> = Vec::new();
    proof {
        assert(eps_view(new@.take(0)) =~= Seq::<EndpointModel>::empty());
        assert(spec_added(vo, eps_view(new@.take(0))) =~= Seq::<EndpointModel>::empty());
        assert(eps_view(added@) =~= Seq::<EndpointModel>::empty());
        assert(spec_updated(vo, eps_view(new@.take(0))) =~= Seq::<EndpointModel>::empty());
        assert(eps_view(updated@) =~= Seq::<EndpointModel>::empty());
    }
    let nlen = new.len();
    let mut i: usize = 0;
    while i < nlen
        invariant
            nlen == new@.len(),
            i <= nlen,
            vo == eps_view(old@),
            vn == eps_view(new@),
            eps_view(added@) == spec_added(vo, eps_view(new@.take(i as int))),
            eps_view(updated@) == spec_updated(vo, eps_view(new@.take(i as int))),
        decreases nlen - i,
    {
        let ghost added0 = added@;
        let ghost updated0 = updated@;
        proof {
            assert(new@.take(i as int + 1).drop_last() =~= new@.take(i as int));
            assert(new@.take(i as int + 1).last() == new@[i as int]);
            assert(eps_view(new@.take(i as int + 1)).drop_last() =~= eps_view(new@.take(i as int)));
            assert(eps_view(new@.take(i as int + 1)).last() == new@[i as int]@);
        }
        match find_addr_exec(old, &new[i].host, new[i].port) {
            Some(at) => {
                proof {
                    lemma_find_addr_props(vo, new@[i as int]@.host, new@[i as int]@.port);
                }
                if old[at].weight != new[i].weight {
                    updated.push(new[i].duplicate());
                } else {
                    proof {
                        assert(vo[at as int] == new@[i as int]@);
                    }
                }
            },
            None => {
                proof {
                    lemma_find_addr_props(vo, new@[i as int]@.host, new@[i as int]@.port);
                }
                added.push(new[i].duplicate());
            },
        }
        proof {
            assert(eps_view(added@) =~= spec_added(vo, eps_view(new@.take(i as int + 1))));
            assert(eps_view(updated@) =~= spec_updated(vo, eps_view(new@.take(i as int + 1))));
        }
        i = i + 1;
    }
    proof {
        assert(new@.take(nlen as int) =~= new@);
        assert(eps_view(new@.take(nlen as int)) =~= vn);
    }
    let olen = old.len();
    let mut k: usize = 0;
    proof {
        assert(eps_view(old@.take(0)) =~= Seq::<EndpointModel>::empty());
        assert(spec_removed(eps_view(old@.take(0)), vn) =~= Seq::<EndpointModel>::empty());
        assert(eps_view(removed@) =~= Seq::<EndpointModel>::empty());
    }
    while k < olen
        invariant
            olen == old@.len(),
            k <= olen,
            vo == eps_view(old@),
            vn == eps_view(new@),
            eps_view(removed@) == spec_removed(eps_view(old@.take(k as int)), vn),
        decreases olen - k,
    {
        proof {
            assert(old@.take(k as int + 1).drop_last() =~= old@.take(k as int));
            assert(old@.take(k as int + 1).last() == old@[k as int]);
            assert(eps_view(old@.take(k as int + 1)).drop_last() =~= eps_view(old@.take(k as int)));
            assert(eps_view(old@.take(k as int + 1)).last() == old@[k as int]@);
        }
        if !addr_in_exec(new, &old[k].host, old[k].port) {
            removed.push(old[k].duplicate());
        }
        proof {
            assert(eps_view(removed@) =~= spec_removed(eps_view(old@.take(k as int + 1)), vn));
        }
        k = k + 1;
    }
    proof {
        assert(old@.take(olen as int) =~= old@);
        assert(eps_view(old@.take(olen as int)) =~= vo);
    }
    let all = duplicate_eps(new);
    ChangeEvent { service: service.clone(), all, added, updated, removed }
}

/// Why a synchronous lookup can fail.
#[derive(Clone, Copy, PartialEq, Eq, Structural, Debug)]
pub enum DiscoverError {
    /// The service has never been seen in a naming event.
    NoInstances,
}

/// The cached per-service instance sets, fed by naming events and read by
/// load balancers and handlers.
pub struct DiscoveryView {
    pub services: Vec<(String, Vec<ServiceEndpoint>)>,
}

impl View for DiscoveryView {
    type V = Seq<(Seq<char>, Vec<ServiceEndpoint>)>;

    open spec fn view(&self) -> Seq<(Seq<char>, Vec<ServiceEndpoint>)> {
        keyed_view(self.services@)
    }
}

/// Whether the cache stores, under `name`, exactly the endpoints `eps`.
pub open spec fn cache_serves(
    sv: Seq<(Seq<char>, Vec<ServiceEndpoint>)>,
    name: Seq<char>,
    eps: Seq<EndpointModel>,
) -> bool {
    match spec_lookup_key(sv, name) {
        Some(v) => eps_view(v@) == eps,
        None => false,
    }
}

/// The cached endpoint models of `name`, or the empty set when `name` was
/// never cached.
pub open spec fn spec_cached(sv: Seq<(Seq<char>, Vec<ServiceEndpoint>)>, name: Seq<char>) -> Seq<
    EndpointModel,
> {
    match spec_lookup_key(sv, name) {
        Some(v) => eps_view(v@),
        None => Seq::empty(),
    }
}

impl DiscoveryView {
    /// A well-formed view caches at most one set per service.
    pub open spec fn wf(&self) -> bool {
        keys_distinct(self@)
    }

    /// An empty view: every lookup misses.
    pub fn new() -> (r: Self)
        ensures
            r@.len() == 0,
            r.wf(),
    {
        let r = DiscoveryView { services: Vec::new() };
        proof {
            assert(r@ =~= Seq::<(Seq<char>, Vec<ServiceEndpoint>)>::empty());
        }
        r
    }

    /// The cached instance set of `service`, if a naming event populated
    /// one.
    pub fn lookup(&self, service: &String) -> (r: Option<&Vec<ServiceEndpoint>>)
        ensures
            match r {
                Some(v) => spec_lookup_key(self@, service@) == Some(*v),
                None => spec_lookup_key(self@, service@) is None,
            },
    {
        match find_key_index(&self.services, service) {
            Some(at) => Some(&self.services[at].1),
            None => None,
        }
    }

    /// Absorb one naming event: parse the delivered instances (skipping
    /// malformed ones), diff them against the cached set, replace the cache
    /// entry when anything changed, and return the event to broadcast.
    /// After an event that changed anything, the cache serves exactly the
    /// endpoints derivable from the event, in arrival order.
    pub fn apply_event(&mut self, service: &String, instances: &Vec<RawInstance>) -> (ev: ChangeEvent)
        requires
            old(self).wf(),
        ensures
            ev.service@ == service@,
            eps_view(ev.all@) == spec_parse_instances(instances@),
            eps_view(ev.added@) == spec_added(
                spec_cached(old(self)@, service@),
                spec_parse_instances(instances@),
            ),
            eps_view(ev.removed@) == spec_removed(
                spec_cached(old(self)@, service@),
                spec_parse_instances(instances@),
            ),
            eps_view(ev.updated@) == spec_updated(
                spec_cached(old(self)@, service@),
                spec_parse_instances(instances@),
            ),
            (ev.added@.len() > 0 || ev.updated@.len() > 0 || ev.removed@.len() > 0)
                ==> cache_serves(final(self)@, service@, spec_parse_instances(instances@)),
            !(ev.added@.len() > 0 || ev.updated@.len() > 0 || ev.removed@.len() > 0)
                ==> final(self)@ == old(self)@,
            final(self).wf(),
    {
        let ghost pre = self@;
        let parsed = parse_instances(instances);
        let idx = find_key_index(&self.services, service);
        let ev = match idx {
            Some(at) => diff_instance_sets(&self.services[at].1, &parsed, service),
            None => {
                let no_prev: Vec<ServiceEndpoint> = Vec::new();
                proof {
                    assert(eps_view(no_prev@) =~= spec_cached(pre, service@));
                }
                diff_instance_sets(&no_prev, &parsed, service)
            },
        };
        let changed = ev.is_change();
        if changed {
            let ghost pv = parsed;
            match idx {
                Some(at) => {
                    self.services.set(at, (service.clone(), parsed));
                },
                None => {
                    self.services.push((service.clone(), parsed));
                },
            }
            proof {
                assert(self@ =~= spec_upsert(pre, service@, pv));
                lemma_upsert_props(pre, service@, pv);
            }
        }
        ev
    }

    /// Resolve `service` from the raw subscribed-instance table, cache the
    /// parsed set, and return it; a service the table has never seen is a
    /// discovery failure.
    pub fn discover(&mut self, sub_svc_map: &Vec<(String, Vec<RawInstance>)>, service: &String) -> (r: Result<
        Vec<ServiceEndpoint>,
        DiscoverError,
    >)
        requires
            old(self).wf(),
        ensures
            match spec_lookup_key(keyed_view(sub_svc_map@), service@) {
                Some(raws) => {
                    &&& r is Ok
                    &&& eps_view(r->Ok_0@) == spec_parse_instances(raws@)
                    &&& cache_serves(final(self)@, service@, spec_parse_instances(raws@))
                },
                None => {
                    &&& r is Err
                    &&& r->Err_0 == DiscoverError::NoInstances
                    &&& *final(self) == *old(self)
                },
            },
            final(self).wf(),
    {
        let ghost pre = self@;
        match find_key_index(sub_svc_map, service) {
            Some(at) => {
                let parsed = parse_instances(&sub_svc_map[at].1);
                let out = duplicate_eps(&parsed);
                let ghost pv = parsed;
                match find_key_index(&self.services, service) {
                    Some(own) => {
                        self.services.set(own, (service.clone(), parsed));
                    },
                    None => {
                        self.services.push((service.clone(), parsed));
                    },
                }
                proof {
                    assert(self@ =~= spec_upsert(pre, service@, pv));
                    lemma_upsert_props(pre, service@, pv);
                }
                Ok(out)
            },
            None => Err(DiscoverError::NoInstances),
        }
    }
}

} // verus!
