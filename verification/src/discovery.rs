//! Service discovery: a registry of services and their endpoints, health
//! marks with a failure threshold, and endpoint selection by strategy.

use rand::Rng;
use vstd::prelude::*;
use crate::clock::instant_now;
use std::time::Instant;
use crate::net::SocketAddress;
use crate::text::str_eq;

verus! {

/// Load balancing strategy
#[derive(Debug, Clone, Copy, PartialEq, Eq, Structural)]
pub enum LoadBalanceStrategy {
    /// Round-robin selection
    RoundRobin,
    /// Least connections
    LeastConnections,
    /// Random selection
    Random,
    /// Weighted round-robin
    WeightedRoundRobin,
}

impl Default for LoadBalanceStrategy {
    fn default() -> (r: Self)
        ensures
            r == LoadBalanceStrategy::RoundRobin,
    {
        LoadBalanceStrategy::RoundRobin
    }
}

/// Consecutive failures that make an endpoint unhealthy.
pub const FAILURE_THRESHOLD: u32 = 3;

/// The weight of a healthy endpoint.
pub const FULL_WEIGHT: u32 = 100;

/// Service endpoint with health status
#[derive(Debug, Clone, Copy)]
pub struct Endpoint {
    /// Address of the endpoint
    pub addr: SocketAddress,
    /// Is the endpoint healthy
    pub healthy: bool,
    /// Last health check time
    pub last_check: Instant,
    /// Consecutive failures
    pub failures: u32,
    /// Current weight for load balancing
    pub weight: u32,
}

/// What the registry reads of an endpoint.
pub struct EndpointView {
    pub addr: SocketAddress,
    pub healthy: bool,
    pub failures: u32,
    pub weight: u32,
}

impl Endpoint {
    pub open spec fn spec_view(&self) -> EndpointView {
        EndpointView { addr: self.addr, healthy: self.healthy, failures: self.failures, weight: self.weight }
    }

    /// Healthy endpoints carry the full weight, unhealthy ones none.
    pub open spec fn consistent(&self) -> bool {
        (self.healthy ==> self.weight == FULL_WEIGHT) && (!self.healthy ==> self.weight == 0)
    }

    /// Create a new healthy endpoint
    pub fn new(addr: SocketAddress) -> (r: Self)
        ensures
            r.addr == addr,
            r.healthy,
            r.failures == 0,
            r.weight == FULL_WEIGHT,
    {
        Endpoint { addr, healthy: true, last_check: instant_now(), failures: 0, weight: FULL_WEIGHT }
    }

    /// Counts a failure checked at time `now`; at the threshold the endpoint
    /// becomes unhealthy with no weight.
    pub fn mark_failed_at(&mut self, now: Instant)
        requires
            old(self).failures < u32::MAX,
        ensures
            final(self).addr == old(self).addr,
            final(self).failures == old(self).failures + 1,
            final(self).failures >= FAILURE_THRESHOLD ==> !final(self).healthy && final(self).weight == 0,
            final(self).failures < FAILURE_THRESHOLD ==> final(self).healthy == old(self).healthy
                && final(self).weight == old(self).weight,
            final(self).last_check == now,
    {
        self.failures = self.failures + 1;
        if self.failures >= FAILURE_THRESHOLD {
            self.healthy = false;
            self.weight = 0;
        }
        self.last_check = now;
    }

    /// Counts a failure checked now (`last_check` becomes the clock reading).
    pub fn mark_failed(&mut self)
        requires
            old(self).failures < u32::MAX,
        ensures
            final(self).addr == old(self).addr,
            final(self).failures == old(self).failures + 1,
            final(self).failures >= FAILURE_THRESHOLD ==> !final(self).healthy && final(self).weight == 0,
            final(self).failures < FAILURE_THRESHOLD ==> final(self).healthy == old(self).healthy
                && final(self).weight == old(self).weight,
    {
        self.mark_failed_at(instant_now());
    }

    /// Marks the endpoint healthy, checked at time `now`.
    pub fn mark_healthy_at(&mut self, now: Instant)
        ensures
            final(self).addr == old(self).addr,
            final(self).healthy,
            final(self).failures == 0,
            final(self).weight == FULL_WEIGHT,
            final(self).last_check == now,
    {
        self.healthy = true;
        self.failures = 0;
        self.weight = FULL_WEIGHT;
        self.last_check = now;
    }

    /// Marks the endpoint healthy, checked now (`last_check` becomes the
    /// clock reading).
    pub fn mark_healthy(&mut self)
        ensures
            final(self).addr == old(self).addr,
            final(self).healthy,
            final(self).failures == 0,
            final(self).weight == FULL_WEIGHT,
    {
        self.mark_healthy_at(instant_now());
    }
}

/// A uniformly drawn number below `n` (`rand::thread_rng().gen_range(0..n)`).
/// Trusted: only that it is below `n`; the draw is random.
#[verifier::external_body]
fn random_below(n: u64) -> (r: u64)
    requires
        n > 0,
    ensures
        r < n,
{
    rand::thread_rng().gen_range(0..n)
}

pub type ServiceSeq = Seq<(Seq<char>, Seq<EndpointView>)>;

pub open spec fn healthy_of(eps: Seq<EndpointView>) -> Seq<EndpointView> {
    eps.filter(|e: EndpointView| e.healthy)
}

/// The position of the first entry named `name`.
pub open spec fn name_pos<T>(es: Seq<(Seq<char>, T)>, name: Seq<char>) -> Option<int>
    decreases es.len(),
{
    if es.len() == 0 {
        None
    } else if es[0].0 == name {
        Some(0)
    } else {
        match name_pos(es.drop_first(), name) {
            Some(i) => Some(i + 1),
            None => None,
        }
    }
}

pub proof fn lemma_name_pos<T>(es: Seq<(Seq<char>, T)>, name: Seq<char>)
    ensures
        name_pos(es, name) matches Some(i) ==> 0 <= i < es.len() && es[i].0 == name && forall|j: int|
            0 <= j < i ==> es[j].0 != name,
        name_pos(es, name) is None ==> forall|j: int| 0 <= j < es.len() ==> es[j].0 != name,
    decreases es.len(),
{
    if es.len() > 0 {
        lemma_name_pos(es.drop_first(), name);
        let t = es.drop_first();
        assert forall|j: int| 1 <= j < es.len() implies es[j] == t[j - 1] by {}
    }
}

/// `HashMap::insert` on a sequence of named entries.
pub open spec fn named_insert<T>(es: Seq<(Seq<char>, T)>, name: Seq<char>, v: T) -> Seq<(Seq<char>, T)> {
    match name_pos(es, name) {
        Some(i) => es.update(i, (name, v)),
        None => es.push((name, v)),
    }
}

/// The weighted pick: the healthy endpoint whose share of the total
/// weight holds `target`.
pub open spec fn weighted_pick(eps: Seq<EndpointView>, target: int) -> Option<SocketAddress>
    decreases eps.len(),
{
    if eps.len() == 0 {
        None
    } else if target < eps[0].weight {
        Some(eps[0].addr)
    } else {
        weighted_pick(eps.drop_first(), target - eps[0].weight)
    }
}

pub open spec fn total_weight(eps: Seq<EndpointView>) -> int
    decreases eps.len(),
{
    if eps.len() == 0 {
        0
    } else {
        eps[0].weight + total_weight(eps.drop_first())
    }
}

/// Service registry for discovered services
pub struct ServiceRegistry {
    services: Vec<(String, Vec<Endpoint>)>,
    strategy: LoadBalanceStrategy,
    rr_counters: Vec<(String, usize)>,
    health_check_interval_secs: u64,
}

impl ServiceRegistry {
    pub closed spec fn spec_services(&self) -> ServiceSeq {
        self.services@.map_values(
            |s: (String, Vec<Endpoint>)| (s.0@, s.1@.map_values(|e: Endpoint| e.spec_view())),
        )
    }

    pub closed spec fn spec_counters(&self) -> Seq<(Seq<char>, usize)> {
        self.rr_counters@.map_values(|c: (String, usize)| (c.0@, c.1))
    }

    pub closed spec fn spec_strategy(&self) -> LoadBalanceStrategy {
        self.strategy
    }

    /// Every endpoint's weight agrees with its health.
    pub closed spec fn wf(&self) -> bool {
        forall|i: int, j: int|
            0 <= i < self.services@.len() && 0 <= j < self.services@[i].1@.len()
                ==> (#[trigger] self.services@[i].1@[j]).consistent()
    }

    /// Create a new service registry
    pub fn new(strategy: LoadBalanceStrategy) -> (r: Self)
        ensures
            r.wf(),
            r.spec_services().len() == 0,
            r.spec_counters().len() == 0,
            r.spec_strategy() == strategy,
    {
        let r = ServiceRegistry {
            services: Vec::new(),
            strategy,
            rr_counters: Vec::new(),
            health_check_interval_secs: 10,
        };
        assert(r.spec_services() =~= Seq::<(Seq<char>, Seq<EndpointView>)>::empty());
        assert(r.spec_counters() =~= Seq::<(Seq<char>, usize)>::empty());
        r
    }

    fn find_service(&self, service: &str) -> (r: Option<usize>)
        ensures
            match r {
                Some(i) => name_pos(self.spec_services(), service@) == Some(i as int) && i
                    < self.services@.len(),
                None => name_pos(self.spec_services(), service@) is None,
            },
    {
        let ghost es = self.spec_services();
        proof {
            lemma_name_pos(es, service@);
        }
        let mut i: usize = 0;
        while i < self.services.len()
            invariant
                i <= self.services@.len(),
                es == self.spec_services(),
                es.len() == self.services@.len(),
                forall|j: int| 0 <= j < i ==> es[j].0 != service@,
                name_pos(es, service@) matches Some(p) ==> 0 <= p < es.len() && es[p].0 == service@
                    && forall|j: int| 0 <= j < p ==> es[j].0 != service@,
                name_pos(es, service@) is None ==> forall|j: int| 0 <= j < es.len() ==> es[j].0 != service@,
            decreases self.services@.len() - i,
        {
            assert(es[i as int].0 == self.services@[i as int].0@);
            if str_eq(self.services[i].0.as_str(), service) {
                return Some(i);
            }
            i += 1;
        }
        None
    }

    /// Register a service with endpoints (replacing its earlier endpoints).
    pub fn register(&mut self, service: &str, endpoints: Vec<SocketAddress>)
        requires
            old(self).wf(),
        ensures
            final(self).wf(),
            final(self).spec_services() == named_insert(
                old(self).spec_services(),
                service@,
                endpoints@.map_values(
                    |a: SocketAddress| EndpointView { addr: a, healthy: true, failures: 0, weight: FULL_WEIGHT },
                ),
            ),
            final(self).spec_counters() == old(self).spec_counters(),
            final(self).spec_strategy() == old(self).spec_strategy(),
    {
        let ghost fresh = endpoints@.map_values(
            |a: SocketAddress| EndpointView { addr: a, healthy: true, failures: 0, weight: FULL_WEIGHT },
        );
        let mut eps: Vec<Endpoint> = Vec::new();
        let mut k: usize = 0;
        while k < endpoints.len()
            invariant
                k <= endpoints@.len(),
                fresh == endpoints@.map_values(
                    |a: SocketAddress| EndpointView { addr: a, healthy: true, failures: 0, weight: FULL_WEIGHT },
                ),
                eps@.map_values(|e: Endpoint| e.spec_view()) == fresh.take(k as int),
                forall|j: int| 0 <= j < eps@.len() ==> (#[trigger] eps@[j]).consistent(),
            decreases endpoints@.len() - k,
        {
            let ghost before = eps@;
            let e = Endpoint::new(endpoints[k]);
            eps.push(e);
            assert(e.spec_view() == fresh[k as int]);
            assert(eps@.map_values(|e: Endpoint| e.spec_view()) =~= before.map_values(|e: Endpoint| e.spec_view()).push(e.spec_view()));
            assert(fresh.take(k + 1) =~= fresh.take(k as int).push(fresh[k as int]));
            k += 1;
        }
        assert(fresh.take(endpoints@.len() as int) =~= fresh);
        let name = crate::text::to_owned(service);
        let ghost old_view = self.spec_services();
        match self.find_service(service) {
            Some(i) => {
                self.services.set(i, (name, eps));
                assert(self.spec_services() =~= old_view.update(i as int, (service@, fresh)));
            },
            None => {
                self.services.push((name, eps));
                assert(self.spec_services() =~= old_view.push((service@, fresh)));
            },
        }
        assert forall|i: int, j: int|
            0 <= i < self.services@.len() && 0 <= j < self.services@[i].1@.len()
                implies (#[trigger] self.services@[i].1@[j]).consistent() by {
            if i < old(self).services@.len() && self.services@[i] == old(self).services@[i] {
            }
        }
    }
}

pub open spec fn addr_pos(eps: Seq<EndpointView>, addr: SocketAddress) -> Option<int>
    decreases eps.len(),
{
    if eps.len() == 0 {
        None
    } else if eps[0].addr == addr {
        Some(0)
    } else {
        match addr_pos(eps.drop_first(), addr) {
            Some(i) => Some(i + 1),
            None => None,
        }
    }
}

pub proof fn lemma_addr_pos(eps: Seq<EndpointView>, addr: SocketAddress)
    ensures
        addr_pos(eps, addr) matches Some(i) ==> 0 <= i < eps.len() && eps[i].addr == addr && forall|j: int|
            0 <= j < i ==> eps[j].addr != addr,
        addr_pos(eps, addr) is None ==> forall|j: int| 0 <= j < eps.len() ==> eps[j].addr != addr,
    decreases eps.len(),
{
    if eps.len() > 0 {
        lemma_addr_pos(eps.drop_first(), addr);
        let t = eps.drop_first();
        assert forall|j: int| 1 <= j < eps.len() implies eps[j] == t[j - 1] by {}
    }
}

pub open spec fn failed_view(e: EndpointView) -> EndpointView {
    let f = (e.failures + 1) as u32;
    EndpointView {
        addr: e.addr,
        healthy: if f >= FAILURE_THRESHOLD { false } else { e.healthy },
        failures: f,
        weight: if f >= FAILURE_THRESHOLD { 0 } else { e.weight },
    }
}

pub open spec fn healthy_view(e: EndpointView) -> EndpointView {
    EndpointView { addr: e.addr, healthy: true, failures: 0, weight: FULL_WEIGHT }
}

/// The services after applying `f` to the first endpoint at `addr` of the
/// first service named `service` (nothing changes when there is none).
pub open spec fn mark_endpoint(
    ss: ServiceSeq,
    service: Seq<char>,
    addr: SocketAddress,
    f: spec_fn(EndpointView) -> EndpointView,
) -> ServiceSeq {
    match name_pos(ss, service) {
        Some(i) => match addr_pos(ss[i].1, addr) {
            Some(k) => ss.update(i, (ss[i].0, ss[i].1.update(k, f(ss[i].1[k])))),
            None => ss,
        },
        None => ss,
    }
}

/// The selection of `get_endpoint` for a strategy, given the round-robin
/// counter, the random index and the random weight target it drew.
pub open spec fn pick(
    strategy: LoadBalanceStrategy,
    h: Seq<EndpointView>,
    counter: usize,
    k: int,
    target: int,
) -> Option<SocketAddress> {
    match strategy {
        LoadBalanceStrategy::RoundRobin => Some(h[(counter as int) % (h.len() as int)].addr),
        LoadBalanceStrategy::Random => Some(h[k].addr),
        LoadBalanceStrategy::LeastConnections => Some(h[0].addr),
        LoadBalanceStrategy::WeightedRoundRobin => weighted_pick(h, target),
    }
}

pub open spec fn counter_of(cs: Seq<(Seq<char>, usize)>, service: Seq<char>) -> usize {
    match name_pos(cs, service) {
        Some(i) => cs[i].1,
        None => 0,
    }
}

pub open spec fn next_counter(c: usize) -> usize {
    if c == usize::MAX {
        0
    } else {
        (c + 1) as usize
    }
}

proof fn lemma_weighted_pick_some(eps: Seq<EndpointView>, t: int)
    requires
        0 <= t < total_weight(eps),
    ensures
        weighted_pick(eps, t) is Some,
    decreases eps.len(),
{
    if eps.len() > 0 && t >= eps[0].weight {
        lemma_weighted_pick_some(eps.drop_first(), t - eps[0].weight);
    }
}

proof fn lemma_total_weight_bound(eps: Seq<EndpointView>)
    ensures
        0 <= total_weight(eps) <= eps.len() * 4294967295,
    decreases eps.len(),
{
    if eps.len() > 0 {
        lemma_total_weight_bound(eps.drop_first());
    }
}

proof fn lemma_consistent_weight_positive(eps: Seq<EndpointView>)
    requires
        eps.len() > 0,
        forall|j: int| 0 <= j < eps.len() ==> (#[trigger] eps[j]).healthy && eps[j].weight == FULL_WEIGHT,
    ensures
        total_weight(eps) >= FULL_WEIGHT,
    decreases eps.len(),
{
    let t = eps.drop_first();
    assert(eps[0].healthy);
    lemma_total_weight_bound(t);
}

impl ServiceRegistry {
    /// The healthy endpoints of a service, in order.
    fn healthy_endpoints(eps: &Vec<Endpoint>) -> (r: Vec<Endpoint>)
        ensures
            r@.map_values(|e: Endpoint| e.spec_view()) == healthy_of(eps@.map_values(|e: Endpoint| e.spec_view())),
            forall|j: int| 0 <= j < r@.len() ==> (#[trigger] r@[j]).healthy,
            forall|j: int| 0 <= j < r@.len() ==> eps@.contains(#[trigger] r@[j]),
    {
        let ghost all = eps@.map_values(|e: Endpoint| e.spec_view());
        let mut r: Vec<Endpoint> = Vec::new();
        let mut i: usize = 0;
        assert(all.take(0).filter(|e: EndpointView| e.healthy) =~= Seq::<EndpointView>::empty()) by {
            reveal(Seq::filter);
        }
        while i < eps.len()
            invariant
                i <= eps@.len(),
                all == eps@.map_values(|e: Endpoint| e.spec_view()),
                r@.map_values(|e: Endpoint| e.spec_view()) == all.take(i as int).filter(|e: EndpointView| e.healthy),
                forall|j: int| 0 <= j < r@.len() ==> (#[trigger] r@[j]).healthy,
                forall|j: int| 0 <= j < r@.len() ==> eps@.contains(#[trigger] r@[j]),
            decreases eps@.len() - i,
        {
            proof {
                reveal(Seq::filter);
                assert(all.take(i + 1).drop_last() =~= all.take(i as int));
                assert(all.take(i + 1).last() == eps@[i as int].spec_view());
            }
            let e = eps[i];
            assert(eps@[i as int] == e);
            if e.healthy {
                let ghost before = r@;
                r.push(e);
                assert(r@.map_values(|e: Endpoint| e.spec_view()) =~= before.map_values(|e: Endpoint| e.spec_view()).push(e.spec_view()));
            }
            i += 1;
        }
        assert(all.take(eps@.len() as int) =~= all);
        r
    }

    /// Get next endpoint for a service using load balancing: none for an
    /// unknown service or one without healthy endpoints; else by strategy
    /// among the healthy ones (round-robin advances the service's counter).
    pub fn get_endpoint(&mut self, service: &str) -> (r: Option<SocketAddress>)
        requires
            old(self).wf(),
        ensures
            final(self).wf(),
            final(self).spec_services() == old(self).spec_services(),
            final(self).spec_strategy() == old(self).spec_strategy(),
            match name_pos(old(self).spec_services(), service@) {
                None => r is None && final(self).spec_counters() == old(self).spec_counters(),
                Some(i) => {
                    let h = healthy_of(old(self).spec_services()[i].1);
                    if h.len() == 0 {
                        r is None && final(self).spec_counters() == old(self).spec_counters()
                    } else {
                        let c = counter_of(old(self).spec_counters(), service@);
                        (exists|k: int, t: int|
                            0 <= k < h.len() && 0 <= t < total_weight(h) && r == pick(
                                old(self).spec_strategy(),
                                h,
                                c,
                                k,
                                t,
                            )) && r is Some && final(self).spec_counters() == if old(self).spec_strategy()
                            == LoadBalanceStrategy::RoundRobin {
                            named_insert(old(self).spec_counters(), service@, next_counter(c))
                        } else {
                            old(self).spec_counters()
                        }
                    }
                },
            },
    {
        let i = match self.find_service(service) {
            Some(i) => i,
            None => return None,
        };
        let ghost ss = self.spec_services();
        let healthy = Self::healthy_endpoints(&self.services[i].1);
        let ghost h = healthy@.map_values(|e: Endpoint| e.spec_view());
        assert(ss[i as int].1 == self.services@[i as int].1@.map_values(|e: Endpoint| e.spec_view()));
        assert(h == healthy_of(ss[i as int].1));
        if healthy.len() == 0 {
            return None;
        }
        proof {
            assert forall|j: int| 0 <= j < h.len() implies (#[trigger] h[j]).healthy && h[j].weight == FULL_WEIGHT by {
                assert(h[j] == healthy@[j].spec_view());
                assert(self.services@[i as int].1@.contains(healthy@[j]));
                lemma_filter_member_consistent(self, i as int, healthy@[j]);
            }
            lemma_consistent_weight_positive(h);
            lemma_total_weight_bound(h);
        }
        let n = healthy.len();
        match self.strategy {
            LoadBalanceStrategy::RoundRobin => {
                let c = self.counter(service);
                let idx = c % n;
                let next: usize = if c == usize::MAX { 0 } else { c + 1 };
                self.set_counter(service, next);
                assert(pick(LoadBalanceStrategy::RoundRobin, h, c, 0, 0) == Some(healthy@[idx as int].addr));
                assert(c == counter_of(old(self).spec_counters(), service@));
                assert(next == next_counter(c));
                assert(self.spec_counters() == named_insert(old(self).spec_counters(), service@, next_counter(c)));
                assert(0 < total_weight(h));
                assert(h[idx as int].addr == healthy@[idx as int].addr);
                assert(old(self).spec_strategy() == LoadBalanceStrategy::RoundRobin);
                assert(pick(old(self).spec_strategy(), h, c, 0, 0) == Some(healthy@[idx as int].addr));
                Some(healthy[idx].addr)
            },
            LoadBalanceStrategy::Random => {
                let k = random_below(n as u64) as usize;
                assert(pick(old(self).spec_strategy(), h, counter_of(old(self).spec_counters(), service@), k as int, 0) == Some(healthy@[k as int].addr));
                Some(healthy[k].addr)
            },
            LoadBalanceStrategy::LeastConnections => {
                assert(pick(old(self).spec_strategy(), h, counter_of(old(self).spec_counters(), service@), 0, 0) == Some(healthy@[0].addr));
                Some(healthy[0].addr)
            },
            LoadBalanceStrategy::WeightedRoundRobin => {
                let total = Self::sum_weights(&healthy);
                assert(total == total_weight(h));
                let t0 = random_below_wide(total);
                let r = Self::weighted(&healthy, t0);
                proof {
                    lemma_weighted_pick_some(h, t0 as int);
                }
                assert(pick(old(self).spec_strategy(), h, counter_of(old(self).spec_counters(), service@), 0, t0 as int) == r);
                r
            },
        }
    }

    fn sum_weights(eps: &Vec<Endpoint>) -> (r: u128)
        ensures
            r == total_weight(eps@.map_values(|e: Endpoint| e.spec_view())),
    {
        let ghost all = eps@.map_values(|e: Endpoint| e.spec_view());
        let mut sum: u128 = 0;
        let mut j: usize = 0;
        proof {
            assert(all.skip(0) =~= all);
            lemma_total_weight_bound(all);
        }
        while j < eps.len()
            invariant
                j <= eps@.len(),
                all == eps@.map_values(|e: Endpoint| e.spec_view()),
                sum + total_weight(all.skip(j as int)) == total_weight(all),
                total_weight(all) <= all.len() * 4294967295,
                all.len() == eps@.len(),
            decreases eps@.len() - j,
        {
            proof {
                assert(all.skip(j as int).drop_first() =~= all.skip(j + 1));
                assert(all.skip(j as int)[0] == eps@[j as int].spec_view());
                lemma_total_weight_bound(all.skip(j + 1));
                assert(eps@.len() <= usize::MAX);
                assert(all.len() * 4294967295 < 0x1_0000_0000_0000_0000_0000_0000_0000_0000) by (nonlinear_arith)
                    requires all.len() <= 0xffff_ffff_ffff_ffff;
            }
            sum = sum + eps[j].weight as u128;
            j += 1;
        }
        assert(all.skip(eps@.len() as int) =~= Seq::<EndpointView>::empty());
        sum
    }

    fn weighted(eps: &Vec<Endpoint>, target: u128) -> (r: Option<SocketAddress>)
        ensures
            r == weighted_pick(eps@.map_values(|e: Endpoint| e.spec_view()), target as int),
    {
        let ghost all = eps@.map_values(|e: Endpoint| e.spec_view());
        let mut t = target;
        let mut j: usize = 0;
        assert(all.skip(0) =~= all);
        while j < eps.len()
            invariant
                j <= eps@.len(),
                all == eps@.map_values(|e: Endpoint| e.spec_view()),
                weighted_pick(all, target as int) == weighted_pick(all.skip(j as int), t as int),
            decreases eps@.len() - j,
        {
            assert(all.skip(j as int).drop_first() =~= all.skip(j + 1));
            assert(all.skip(j as int)[0] == eps@[j as int].spec_view());
            let w = eps[j].weight as u128;
            if t < w {
                return Some(eps[j].addr);
            }
            t = t - w;
            j += 1;
        }
        assert(all.skip(eps@.len() as int) =~= Seq::<EndpointView>::empty());
        None
    }

    fn counter(&self, service: &str) -> (r: usize)
        ensures
            r == counter_of(self.spec_counters(), service@),
    {
        let ghost cs = self.spec_counters();
        proof {
            lemma_name_pos(cs, service@);
        }
        let mut i: usize = 0;
        while i < self.rr_counters.len()
            invariant
                i <= self.rr_counters@.len(),
                cs == self.spec_counters(),
                cs.len() == self.rr_counters@.len(),
                forall|j: int| 0 <= j < i ==> cs[j].0 != service@,
                name_pos(cs, service@) matches Some(p) ==> 0 <= p < cs.len() && cs[p].0 == service@
                    && forall|j: int| 0 <= j < p ==> cs[j].0 != service@,
                name_pos(cs, service@) is None ==> forall|j: int| 0 <= j < cs.len() ==> cs[j].0 != service@,
            decreases self.rr_counters@.len() - i,
        {
            assert(cs[i as int] == (self.rr_counters@[i as int].0@, self.rr_counters@[i as int].1));
            if str_eq(self.rr_counters[i].0.as_str(), service) {
                return self.rr_counters[i].1;
            }
            i += 1;
        }
        0
    }

    fn set_counter(&mut self, service: &str, value: usize)
        ensures
            final(self).spec_counters() == named_insert(old(self).spec_counters(), service@, value),
            final(self).spec_services() == old(self).spec_services(),
            final(self).spec_strategy() == old(self).spec_strategy(),
            final(self).services == old(self).services,
    {
        let ghost cs = self.spec_counters();
        proof {
            lemma_name_pos(cs, service@);
        }
        let mut i: usize = 0;
        while i < self.rr_counters.len()
            invariant
                i <= self.rr_counters@.len(),
                cs == self.spec_counters(),
                cs.len() == self.rr_counters@.len(),
                forall|j: int| 0 <= j < i ==> cs[j].0 != service@,
                name_pos(cs, service@) matches Some(p) ==> 0 <= p < cs.len() && cs[p].0 == service@
                    && forall|j: int| 0 <= j < p ==> cs[j].0 != service@,
                name_pos(cs, service@) is None ==> forall|j: int| 0 <= j < cs.len() ==> cs[j].0 != service@,
                self.services == old(self).services,
                self.strategy == old(self).strategy,
                self.rr_counters == old(self).rr_counters,
                self.health_check_interval_secs == old(self).health_check_interval_secs,
            decreases self.rr_counters@.len() - i,
        {
            assert(cs[i as int] == (self.rr_counters@[i as int].0@, self.rr_counters@[i as int].1));
            if str_eq(self.rr_counters[i].0.as_str(), service) {
                let name = crate::text::to_owned(service);
                self.rr_counters.set(i, (name, value));
                assert(self.spec_counters() =~= cs.update(i as int, (service@, value)));
                return;
            }
            i += 1;
        }
        self.rr_counters.push((crate::text::to_owned(service), value));
        assert(self.spec_counters() =~= cs.push((service@, value)));
    }
}

/// A number below `n` drawn uniformly (`gen_range(0..n)` on `u128`).
/// Trusted: only that it is below `n`.
#[verifier::external_body]
fn random_below_wide(n: u128) -> (r: u128)
    requires
        n > 0,
    ensures
        r < n,
{
    rand::thread_rng().gen_range(0..n)
}

proof fn lemma_filter_member_consistent(reg: &ServiceRegistry, i: int, e: Endpoint)
    requires
        reg.wf(),
        0 <= i < reg.services@.len(),
        e.healthy,
        reg.services@[i].1@.contains(e),
    ensures
        e.weight == FULL_WEIGHT,
{
    let k = choose|k: int| 0 <= k < reg.services@[i].1@.len() && reg.services@[i].1@[k] == e;
    assert(reg.services@[i].1@[k].consistent());
}

impl ServiceRegistry {
    /// The endpoint that a mark for `service` and `addr` would touch has not
    /// counted the largest number of failures.
    pub open spec fn can_count_failure(&self, service: Seq<char>, addr: SocketAddress) -> bool {
        match name_pos(self.spec_services(), service) {
            Some(i) => match addr_pos(self.spec_services()[i].1, addr) {
                Some(k) => self.spec_services()[i].1[k].failures < u32::MAX,
                None => true,
            },
            None => true,
        }
    }

    fn find_addr(eps: &Vec<Endpoint>, addr: SocketAddress) -> (r: Option<usize>)
        ensures
            match r {
                Some(k) => addr_pos(eps@.map_values(|e: Endpoint| e.spec_view()), addr) == Some(k as int)
                    && k < eps@.len(),
                None => addr_pos(eps@.map_values(|e: Endpoint| e.spec_view()), addr) is None,
            },
    {
        let ghost all = eps@.map_values(|e: Endpoint| e.spec_view());
        proof {
            lemma_addr_pos(all, addr);
        }
        let mut k: usize = 0;
        while k < eps.len()
            invariant
                k <= eps@.len(),
                all == eps@.map_values(|e: Endpoint| e.spec_view()),
                forall|j: int| 0 <= j < k ==> all[j].addr != addr,
                addr_pos(all, addr) matches Some(p) ==> 0 <= p < all.len() && all[p].addr == addr
                    && forall|j: int| 0 <= j < p ==> all[j].addr != addr,
                addr_pos(all, addr) is None ==> forall|j: int| 0 <= j < all.len() ==> all[j].addr != addr,
            decreases eps@.len() - k,
        {
            assert(all[k as int] == eps@[k as int].spec_view());
            if eps[k].addr == addr {
                return Some(k);
            }
            k += 1;
        }
        None
    }

    /// Counts a failure of the first endpoint at `addr` of `service`.
    pub fn mark_failed(&mut self, service: &str, addr: SocketAddress)
        requires
            old(self).wf(),
            old(self).can_count_failure(service@, addr),
        ensures
            final(self).wf(),
            final(self).spec_services() == mark_endpoint(
                old(self).spec_services(),
                service@,
                addr,
                |e: EndpointView| failed_view(e),
            ),
            final(self).spec_counters() == old(self).spec_counters(),
            final(self).spec_strategy() == old(self).spec_strategy(),
    {
        self.mark(service, addr, true);
    }

    /// Marks the first endpoint at `addr` of `service` healthy.
    pub fn mark_healthy(&mut self, service: &str, addr: SocketAddress)
        requires
            old(self).wf(),
        ensures
            final(self).wf(),
            final(self).spec_services() == mark_endpoint(
                old(self).spec_services(),
                service@,
                addr,
                |e: EndpointView| healthy_view(e),
            ),
            final(self).spec_counters() == old(self).spec_counters(),
            final(self).spec_strategy() == old(self).spec_strategy(),
    {
        self.mark(service, addr, false);
    }

    fn mark(&mut self, service: &str, addr: SocketAddress, failed: bool)
        requires
            old(self).wf(),
            failed ==> old(self).can_count_failure(service@, addr),
        ensures
            final(self).wf(),
            final(self).spec_services() == mark_endpoint(
                old(self).spec_services(),
                service@,
                addr,
                if failed { |e: EndpointView| failed_view(e) } else { |e: EndpointView| healthy_view(e) },
            ),
            final(self).spec_counters() == old(self).spec_counters(),
            final(self).spec_strategy() == old(self).spec_strategy(),
    {
        let ghost f = if failed { |e: EndpointView| failed_view(e) } else { |e: EndpointView| healthy_view(e) };
        let ghost ss = self.spec_services();
        let i = match self.find_service(service) {
            Some(i) => i,
            None => return,
        };
        let k = match Self::find_addr(&self.services[i].1, addr) {
            Some(k) => k,
            None => return,
        };
        assert(ss[i as int].1 == self.services@[i as int].1@.map_values(|e: Endpoint| e.spec_view()));
        let mut entry = self.services[i].1[k];
        let ghost before = entry;
        assert(entry.spec_view() == ss[i as int].1[k as int]);
        if failed {
            entry.mark_failed();
        } else {
            entry.mark_healthy();
        }
        assert(entry.spec_view() == f(before.spec_view()));
        assert(entry.consistent()) by {
            assert(self.services@[i as int].1@[k as int].consistent());
        }
        let mut name = String::new();
        let mut eps: Vec<Endpoint> = Vec::new();
        std::mem::swap(&mut name, &mut self.services[i].0);
        std::mem::swap(&mut eps, &mut self.services[i].1);
        assert(eps@ == old(self).services@[i as int].1@);
        assert(name@ == old(self).services@[i as int].0@);
        eps.set(k, entry);
        self.services.set(i, (name, eps));
        proof {
            let new_eps = ss[i as int].1.update(k as int, f(ss[i as int].1[k as int]));
            assert(eps@.map_values(|e: Endpoint| e.spec_view()) =~= new_eps);
            assert(self.spec_services() =~= ss.update(i as int, (ss[i as int].0, new_eps)));
            assert forall|a: int, b: int|
                0 <= a < self.services@.len() && 0 <= b < self.services@[a].1@.len()
                    implies (#[trigger] self.services@[a].1@[b]).consistent() by {
                if a != i {
                    assert(self.services@[a] == old(self).services@[a]);
                } else if b != k {
                    assert(self.services@[a].1@[b] == old(self).services@[a].1@[b]);
                }
            }
        }
    }

    /// The names of the registered services.
    pub fn list_services(&self) -> (r: Vec<String>)
        ensures
            r@.map_values(|s: String| s@) == self.spec_services().map_values(|e: (Seq<char>, Seq<EndpointView>)| e.0),
    {
        let ghost ss = self.spec_services();
        let mut r: Vec<String> = Vec::new();
        let mut i: usize = 0;
        while i < self.services.len()
            invariant
                i <= self.services@.len(),
                ss == self.spec_services(),
                r@.map_values(|s: String| s@) == ss.take(i as int).map_values(|e: (Seq<char>, Seq<EndpointView>)| e.0),
            decreases self.services@.len() - i,
        {
            let ghost before = r@;
            let name = crate::text::to_owned(self.services[i].0.as_str());
            r.push(name);
            assert(ss[i as int].0 == self.services@[i as int].0@);
            assert(r@.map_values(|s: String| s@) =~= before.map_values(|s: String| s@).push(name@));
            assert(ss.take(i + 1).map_values(|e: (Seq<char>, Seq<EndpointView>)| e.0) =~= ss.take(i as int).map_values(|e: (Seq<char>, Seq<EndpointView>)| e.0).push(ss[i as int].0));
            i += 1;
        }
        assert(ss.take(self.services@.len() as int) =~= ss);
        r
    }

    /// The number of endpoints of a service (0 for an unknown one).
    pub fn endpoint_count(&self, service: &str) -> (r: usize)
        ensures
            r == match name_pos(self.spec_services(), service@) {
                Some(i) => self.spec_services()[i].1.len(),
                None => 0,
            },
    {
        match self.find_service(service) {
            Some(i) => {
                assert(self.spec_services()[i as int].1.len() == self.services@[i as int].1@.len());
                self.services[i].1.len()
            },
            None => 0,
        }
    }

    /// The number of healthy endpoints of a service (0 for an unknown one).
    pub fn healthy_count(&self, service: &str) -> (r: usize)
        ensures
            r == match name_pos(self.spec_services(), service@) {
                Some(i) => healthy_of(self.spec_services()[i].1).len(),
                None => 0,
            },
    {
        match self.find_service(service) {
            Some(i) => {
                let h = Self::healthy_endpoints(&self.services[i].1);
                assert(h@.map_values(|e: Endpoint| e.spec_view()).len() == h@.len());
                h.len()
            },
            None => 0,
        }
    }
}

/// An endpoint fails out at the threshold: counting the third consecutive
/// failure makes it unhealthy with no weight, earlier failures keep its
/// health, and marking it healthy restores full weight.
pub proof fn law_failure_threshold(e: EndpointView)
    requires
        e.failures < u32::MAX,
    ensures
        e.failures + 1 >= FAILURE_THRESHOLD ==> !failed_view(e).healthy && failed_view(e).weight == 0,
        e.failures + 1 < FAILURE_THRESHOLD ==> failed_view(e).healthy == e.healthy,
        healthy_view(e).healthy && healthy_view(e).weight == FULL_WEIGHT && healthy_view(e).failures == 0,
{
}

/// A selected endpoint is always a healthy one of the service.
pub proof fn law_picks_are_healthy(h: Seq<EndpointView>, s: LoadBalanceStrategy, c: usize, k: int, t: int)
    requires
        h.len() > 0,
        0 <= k < h.len(),
        0 <= t < total_weight(h),
    ensures
        pick(s, h, c, k, t) matches Some(a) ==> exists|j: int| 0 <= j < h.len() && h[j].addr == a,
{
    match s {
        LoadBalanceStrategy::RoundRobin => {
            let j = (c as int) % (h.len() as int);
            assert(h[j].addr == pick(s, h, c, k, t)->0);
        },
        LoadBalanceStrategy::Random => {
            assert(h[k].addr == pick(s, h, c, k, t)->0);
        },
        LoadBalanceStrategy::LeastConnections => {
            assert(h[0].addr == pick(s, h, c, k, t)->0);
        },
        LoadBalanceStrategy::WeightedRoundRobin => {
            lemma_weighted_pick_member(h, t);
        },
    }
}

proof fn lemma_weighted_pick_member(h: Seq<EndpointView>, t: int)
    ensures
        weighted_pick(h, t) matches Some(a) ==> exists|j: int| 0 <= j < h.len() && h[j].addr == a,
    decreases h.len(),
{
    if h.len() > 0 {
        if t < h[0].weight {
            assert(h[0].addr == weighted_pick(h, t)->0);
        } else {
            let rest = h.drop_first();
            lemma_weighted_pick_member(rest, t - h[0].weight);
            if weighted_pick(rest, t - h[0].weight) is Some {
                let j = choose|j: int| 0 <= j < rest.len() && rest[j].addr == weighted_pick(rest, t - h[0].weight)->0;
                assert(h[j + 1] == rest[j]);
            }
        }
    }
}

/// A lookup after an insert of the same name finds the inserted value.
pub proof fn lemma_named_insert_found<T>(es: Seq<(Seq<char>, T)>, name: Seq<char>, v: T)
    ensures
        name_pos(named_insert(es, name, v), name) matches Some(i) && named_insert(es, name, v)[i] == (name, v),
{
    lemma_name_pos(es, name);
    let n = named_insert(es, name, v);
    lemma_name_pos(n, name);
    match name_pos(es, name) {
        Some(i) => {
            assert(n[i].0 == name);
            assert forall|j: int| 0 <= j < i implies n[j].0 != name by {
                assert(n[j] == es[j]);
            }
            if let Some(p) = name_pos(n, name) {
                if p < i {
                    assert(n[p] == es[p]);
                }
                assert(p <= i);
                assert(!(p < i));
            }
        },
        None => {
            assert(n[es.len() as int].0 == name);
            assert forall|j: int| 0 <= j < es.len() implies n[j].0 != name by {
                assert(n[j] == es[j]);
            }
            if let Some(p) = name_pos(n, name) {
                if p < es.len() {
                    assert(n[p] == es[p]);
                }
            }
        },
    }
}

/// Round robin over successive calls: a service not asked for before starts
/// at counter 0, and each round-robin call that finds healthy endpoints
/// moves the service's counter on by one (wrapping), so the `n`-th call
/// picks `h[n % h.len()]` while the healthy endpoints `h` stay the same.
pub proof fn law_round_robin_advances(cs: Seq<(Seq<char>, usize)>, service: Seq<char>)
    ensures
        name_pos(cs, service) is None ==> counter_of(cs, service) == 0,
        counter_of(named_insert(cs, service, next_counter(counter_of(cs, service))), service) == next_counter(
            counter_of(cs, service),
        ),
{
    lemma_named_insert_found(cs, service, next_counter(counter_of(cs, service)));
}

/// The counters after `n` round-robin calls for a service that found
/// healthy endpoints.
pub open spec fn after_calls(cs: Seq<(Seq<char>, usize)>, service: Seq<char>, n: nat) -> Seq<(Seq<char>, usize)>
    decreases n,
{
    if n == 0 {
        cs
    } else {
        let p = after_calls(cs, service, (n - 1) as nat);
        named_insert(p, service, next_counter(counter_of(p, service)))
    }
}

/// Round robin over successive calls: for a service not asked for before,
/// the `n`-th call (counted from 0) picks `h[n % h.len()]` among its healthy
/// endpoints `h`.
pub proof fn law_round_robin_cycles(
    cs: Seq<(Seq<char>, usize)>,
    service: Seq<char>,
    n: nat,
    h: Seq<EndpointView>,
    k: int,
    t: int,
)
    requires
        name_pos(cs, service) is None,
        n <= usize::MAX,
        h.len() > 0,
    ensures
        counter_of(after_calls(cs, service, n), service) == n,
        pick(LoadBalanceStrategy::RoundRobin, h, counter_of(after_calls(cs, service, n), service), k, t) == Some(
            h[(n % h.len()) as int].addr,
        ),
    decreases n,
{
    if n == 0 {
        law_round_robin_advances(cs, service);
    } else {
        law_round_robin_cycles(cs, service, (n - 1) as nat, h, k, t);
        law_round_robin_advances(after_calls(cs, service, (n - 1) as nat), service);
    }
}

} // verus!
