//! Load balancer over the servers of one upstream block: weighted round
//! robin, least connections, address hashing and power of two choices,
//! with backup servers used only when no primary server is up.

use std::hash::{DefaultHasher, Hasher};
use vstd::prelude::*;
use vstd::std_specs::hash::DefaultHasherAdditionalSpecFns;
use crate::upstream::{LoadBalanceStrategy, UpstreamServer};

verus! {

#[derive(Debug)]
pub struct RuntimeServer {
    pub config: UpstreamServer,
    pub active_connections: u64,
}

impl RuntimeServer {
    pub fn new(config: UpstreamServer) -> (r: Self)
        ensures
            r.config == config,
            r.active_connections == 0,
    {
        Self { config, active_connections: 0 }
    }
}

pub struct LoadBalancer {
    pub strategy: LoadBalanceStrategy,
    pub servers: Vec<RuntimeServer>,
    /// Round-robin position shared by round robin and power of two choices.
    pub rr_counter: usize,
}

// ---------------------------------------------------------------------------
// Model
// ---------------------------------------------------------------------------

/// Indices (below `n`) of the servers that are up and are backups exactly
/// when `backup` holds, in order.
pub open spec fn up_indices(servers: Seq<RuntimeServer>, n: nat, backup: bool) -> Seq<int>
    decreases n,
{
    if n == 0 {
        Seq::empty()
    } else {
        let p = up_indices(servers, (n - 1) as nat, backup);
        let s = servers[n - 1];
        if !s.config.down && s.config.backup == backup {
            p.push(n - 1)
        } else {
            p
        }
    }
}

/// The servers a request may go to: the primary servers that are up, or,
/// when there is none, the backup servers that are up.
pub open spec fn available(servers: Seq<RuntimeServer>) -> Seq<int> {
    let p = up_indices(servers, servers.len(), false);
    if p.len() > 0 {
        p
    } else {
        up_indices(servers, servers.len(), true)
    }
}

pub open spec fn weight_sum(servers: Seq<RuntimeServer>, idx: Seq<int>) -> int
    decreases idx.len(),
{
    if idx.len() == 0 {
        0
    } else {
        weight_sum(servers, idx.drop_last()) + servers[idx.last()].config.weight
    }
}

/// The first server of `idx` whose cumulative weight exceeds `target`.
pub open spec fn weighted_pick(servers: Seq<RuntimeServer>, idx: Seq<int>, target: int) -> Option<
    int,
>
    decreases idx.len(),
{
    if idx.len() == 0 {
        None
    } else if target < servers[idx[0]].config.weight {
        Some(idx[0])
    } else {
        weighted_pick(servers, idx.drop_first(), target - servers[idx[0]].config.weight)
    }
}

/// Whether server `b` is strictly preferred to `a` by least connections:
/// fewer connections, or as many and a higher weight.
pub open spec fn fewer_conns(servers: Seq<RuntimeServer>, b: int, a: int) -> bool {
    ||| servers[b].active_connections < servers[a].active_connections
    ||| (servers[b].active_connections == servers[a].active_connections
        && servers[b].config.weight > servers[a].config.weight)
}

/// The first of the least loaded servers of `idx`.
pub open spec fn least_loaded(servers: Seq<RuntimeServer>, idx: Seq<int>) -> int
    decreases idx.len(),
{
    if idx.len() <= 1 {
        idx[0]
    } else {
        let m = least_loaded(servers, idx.drop_last());
        if fewer_conns(servers, idx.last(), m) {
            idx.last()
        } else {
            m
        }
    }
}

/// The hash of a key as `DefaultHasher` computes it for a `str`: its UTF-8
/// bytes, then the byte 0xFF.
pub open spec fn key_hash(key: Seq<char>) -> u64 {
    DefaultHasher::spec_finish(seq![vstd::utf8::encode_utf8(key), seq![0xffu8]])
}

pub open spec fn key_of(hash_key: Option<&str>) -> Seq<char> {
    match hash_key {
        Some(k) => k@,
        None => Seq::empty(),
    }
}

pub open spec fn next_counter(c: usize) -> usize {
    vstd::wrapping::usize_specs::wrapping_add(c, 1)
}

/// The server chosen (an index into `servers`) and the round-robin counter
/// afterwards, for a counter `c` and hash key `key`.
pub open spec fn spec_select(
    strategy: LoadBalanceStrategy,
    servers: Seq<RuntimeServer>,
    c: usize,
    key: Seq<char>,
) -> (Option<int>, usize) {
    let avail = available(servers);
    let total = weight_sum(servers, avail);
    if avail.len() == 0 {
        (None, c)
    } else {
        match strategy {
            LoadBalanceStrategy::RoundRobin => if total == 0 {
                (None, c)
            } else {
                (weighted_pick(servers, avail, (c as u32) as int % total), next_counter(c))
            },
            LoadBalanceStrategy::LeastConnections => (Some(least_loaded(servers, avail)), c),
            LoadBalanceStrategy::IpHash => if total == 0 {
                (None, c)
            } else {
                (weighted_pick(servers, avail, key_hash(key) as int % total), c)
            },
            LoadBalanceStrategy::GenericHash(_) => (
                Some(avail[key_hash(key) as int % avail.len() as int]),
                c,
            ),
            LoadBalanceStrategy::PowerOfTwoChoices => if avail.len() == 1 {
                (Some(avail[0]), c)
            } else {
                let c1 = next_counter(c);
                let a = avail[c as int % avail.len() as int];
                let b = avail[c1 as int % avail.len() as int];
                (
                    Some(
                        if servers[a].active_connections <= servers[b].active_connections {
                            a
                        } else {
                            b
                        },
                    ),
                    next_counter(c1),
                )
            },
        }
    }
}

impl LoadBalancer {
    pub open spec fn counter(&self) -> usize {
        self.rr_counter
    }

    pub open spec fn weights_fit(&self) -> bool {
        weight_sum(self.servers@, available(self.servers@)) <= u32::MAX
    }
}

// ---------------------------------------------------------------------------
// Lemmas
// ---------------------------------------------------------------------------

proof fn lemma_up_indices(servers: Seq<RuntimeServer>, n: nat, backup: bool)
    requires
        n <= servers.len(),
    ensures
        forall|k: int|
            0 <= k < up_indices(servers, n, backup).len() ==> 0 <= #[trigger] up_indices(
                servers,
                n,
                backup,
            )[k] < n,
    decreases n,
{
    if n > 0 {
        lemma_up_indices(servers, (n - 1) as nat, backup);
        let p = up_indices(servers, (n - 1) as nat, backup);
        let q = up_indices(servers, n, backup);
        assert forall|k: int| 0 <= k < q.len() implies 0 <= #[trigger] q[k] < n by {
            if k < p.len() {
                assert(q[k] == p[k]);
            }
        }
    }
}

proof fn lemma_available_in_range(servers: Seq<RuntimeServer>)
    ensures
        forall|k: int|
            0 <= k < available(servers).len() ==> 0 <= #[trigger] available(servers)[k]
                < servers.len(),
{
    lemma_up_indices(servers, servers.len(), false);
    lemma_up_indices(servers, servers.len(), true);
}

proof fn lemma_weight_prefix(servers: Seq<RuntimeServer>, idx: Seq<int>, k: int)
    requires
        0 <= k <= idx.len(),
    ensures
        0 <= weight_sum(servers, idx.take(k)) <= weight_sum(servers, idx),
    decreases idx.len() - k,
{
    if k < idx.len() {
        assert(idx.drop_last().take(k) =~= idx.take(k));
        lemma_weight_prefix(servers, idx.drop_last(), k);
    } else {
        assert(idx.take(k) =~= idx);
        lemma_weight_nonneg(servers, idx);
    }
}

proof fn lemma_weight_nonneg(servers: Seq<RuntimeServer>, idx: Seq<int>)
    ensures
        weight_sum(servers, idx) >= 0,
    decreases idx.len(),
{
    if idx.len() > 0 {
        lemma_weight_nonneg(servers, idx.drop_last());
    }
}

/// Splitting off the first `k` servers shifts the target by their weight.
proof fn lemma_weighted_pick_skip(servers: Seq<RuntimeServer>, idx: Seq<int>, k: int, t: int)
    requires
        0 <= k < idx.len(),
        t >= weight_sum(servers, idx.take(k)),
        forall|j: int| 1 <= j <= k ==> #[trigger] weight_sum(servers, idx.take(j)) <= t,
    ensures
        weighted_pick(servers, idx, t) == weighted_pick(
            servers,
            idx.skip(k),
            t - weight_sum(servers, idx.take(k)),
        ),
    decreases k,
{
    if k > 0 {
        lemma_weight_shift(servers, idx, 0);
        assert(idx.drop_first().take(0) =~= Seq::<int>::empty());
        assert(weight_sum(servers, idx.take(1)) <= t);
        let rest = idx.drop_first();
        assert forall|j: int| 1 <= j <= k - 1 implies #[trigger] weight_sum(servers, rest.take(j))
            <= t - servers[idx[0]].config.weight by {
            lemma_weight_shift(servers, idx, j);
            assert(weight_sum(servers, idx.take(j + 1)) <= t);
        }
        lemma_weight_shift(servers, idx, k - 1);
        lemma_weighted_pick_skip(servers, rest, k - 1, t - servers[idx[0]].config.weight);
        assert(rest.skip(k - 1) =~= idx.skip(k));
    } else {
        assert(idx.skip(0) =~= idx);
        assert(idx.take(0) =~= Seq::<int>::empty());
    }
}

/// The weight of the first `j + 1` servers is the first weight plus the
/// weight of the next `j`.
proof fn lemma_weight_shift(servers: Seq<RuntimeServer>, idx: Seq<int>, j: int)
    requires
        0 <= j < idx.len(),
    ensures
        weight_sum(servers, idx.take(j + 1)) == servers[idx[0]].config.weight + weight_sum(
            servers,
            idx.drop_first().take(j),
        ),
    decreases j,
{
    if j > 0 {
        lemma_weight_shift(servers, idx, j - 1);
        assert(idx.take(j + 1).drop_last() =~= idx.take(j));
        assert(idx.drop_first().take(j).drop_last() =~= idx.drop_first().take(j - 1));
    } else {
        assert(idx.take(1).drop_last() =~= Seq::<int>::empty());
        assert(idx.drop_first().take(0) =~= Seq::<int>::empty());
    }
}

// ---------------------------------------------------------------------------
// Implementation
// ---------------------------------------------------------------------------

/// The index of the server whose cumulative weight first exceeds `target`.
fn pick_weighted(servers: &Vec<RuntimeServer>, avail: &Vec<usize>, target: u32) -> (r: Option<
    usize,
>)
    requires
        weight_sum(servers@, avail@.map_values(|i: usize| i as int)) <= u32::MAX,
        forall|k: int| 0 <= k < avail@.len() ==> #[trigger] avail@[k] < servers@.len(),
    ensures
        r matches Some(i) ==> Some(i as int) == weighted_pick(
            servers@,
            avail@.map_values(|i: usize| i as int),
            target as int,
        ),
        r is None ==> weighted_pick(servers@, avail@.map_values(|i: usize| i as int), target as int)
            is None,
        r matches Some(i) ==> i < servers@.len(),
{
    let ghost idx = avail@.map_values(|i: usize| i as int);
    let mut current: u32 = 0;
    let mut k: usize = 0;
    assert(idx.take(0) =~= Seq::<int>::empty());
    while k < avail.len()
        invariant
            k <= avail.len(),
            idx == avail@.map_values(|i: usize| i as int),
            weight_sum(servers@, idx) <= u32::MAX,
            forall|j: int| 0 <= j < avail@.len() ==> #[trigger] avail@[j] < servers@.len(),
            current as int == weight_sum(servers@, idx.take(k as int)),
            forall|j: int| 1 <= j <= k ==> #[trigger] weight_sum(servers@, idx.take(j)) <= target,
        decreases avail.len() - k,
    {
        assert(idx.take(k + 1).drop_last() =~= idx.take(k as int));
        proof {
            lemma_weight_prefix(servers@, idx, k + 1);
        }
        current = current + servers[avail[k]].config.weight;
        if target < current {
            proof {
                lemma_weighted_pick_skip(servers@, idx, k as int, target as int);
                assert(idx.skip(k as int)[0] == avail@[k as int] as int);
                assert(idx.take(k + 1).last() == idx[k as int]);
            }
            return Some(avail[k]);
        }
        k += 1;
    }
    proof {
        let n = avail@.len() as int;
        assert(idx.take(0) =~= Seq::<int>::empty());
        if n > 0 {
            assert(idx.take(n) =~= idx);
            lemma_weighted_pick_skip(servers@, idx, n - 1, target as int);
            assert(idx.take(n).drop_last() =~= idx.take(n - 1));
            let last = idx.skip(n - 1);
            assert(last.len() == 1);
            assert(last[0] == idx[n - 1]);
            assert(last.drop_first().len() == 0);
            assert(weight_sum(servers@, idx.take(n)) <= target);
            assert(idx.take(n).last() == idx[n - 1]);
            assert(weight_sum(servers@, idx.take(n)) == weight_sum(servers@, idx.take(n - 1))
                + servers@[idx[n - 1]].config.weight);
            let t2 = target - weight_sum(servers@, idx.take(n - 1));
            assert(t2 >= servers@[last[0]].config.weight);
            assert(weighted_pick(servers@, last, t2) == weighted_pick(
                servers@,
                last.drop_first(),
                t2 - servers@[last[0]].config.weight,
            ));
            assert(weighted_pick(servers@, last, t2) is None);
        }
    }
    None
}

impl LoadBalancer {
    pub fn new(strategy: LoadBalanceStrategy, configs: Vec<UpstreamServer>) -> (r: Self)
        ensures
            r.strategy == strategy,
            r.servers@.len() == configs@.len(),
            forall|i: int|
                0 <= i < configs@.len() ==> #[trigger] r.servers@[i].config == configs@[i]
                    && r.servers@[i].active_connections == 0,
            r.counter() == 0,
    {
        let mut servers: Vec<RuntimeServer> = Vec::new();
        let mut configs = configs;
        let ghost orig = configs@;
        let mut i: usize = 0;
        let n = configs.len();
        while i < n
            invariant
                n == orig.len(),
                i <= n,
                configs@ == orig.skip(i as int),
                servers@.len() == i,
                forall|j: int|
                    0 <= j < i ==> #[trigger] servers@[j].config == orig[j]
                        && servers@[j].active_connections == 0,
            decreases n - i,
        {
            let c = configs.remove(0);
            assert(configs@ =~= orig.skip(i + 1));
            servers.push(RuntimeServer::new(c));
            i += 1;
        }
        Self { strategy, servers, rr_counter: 0 }
    }

    /// The indices of the servers a request may go to.
    fn available_servers(&self) -> (r: Vec<usize>)
        ensures
            r@.map_values(|i: usize| i as int) == available(self.servers@),
            forall|k: int| 0 <= k < r@.len() ==> #[trigger] r@[k] < self.servers@.len(),
    {
        let mut primaries: Vec<usize> = Vec::new();
        let mut backups: Vec<usize> = Vec::new();
        let mut i: usize = 0;
        while i < self.servers.len()
            invariant
                i <= self.servers@.len(),
                primaries@.map_values(|x: usize| x as int) == up_indices(
                    self.servers@,
                    i as nat,
                    false,
                ),
                backups@.map_values(|x: usize| x as int) == up_indices(self.servers@, i as nat, true),
                forall|k: int| 0 <= k < primaries@.len() ==> #[trigger] primaries@[k] < i,
                forall|k: int| 0 <= k < backups@.len() ==> #[trigger] backups@[k] < i,
            decreases self.servers@.len() - i,
        {
            let s = &self.servers[i];
            if !s.config.down {
                if s.config.backup {
                    backups.push(i);
                } else {
                    primaries.push(i);
                }
            }
            assert(primaries@.map_values(|x: usize| x as int) =~= up_indices(
                self.servers@,
                (i + 1) as nat,
                false,
            ));
            assert(backups@.map_values(|x: usize| x as int) =~= up_indices(
                self.servers@,
                (i + 1) as nat,
                true,
            ));
            i += 1;
        }
        if primaries.len() == 0 {
            backups
        } else {
            primaries
        }
    }

    /// The index of the server the next request goes to, if any.
    pub fn select_index(&mut self, hash_key: Option<&str>) -> (r: Option<usize>)
        requires
            old(self).weights_fit(),
        ensures
            (r matches Some(i) ==> i < old(self).servers@.len()),
            (match r {
                Some(i) => Some(i as int),
                None => None,
            }, final(self).counter()) == spec_select(
                old(self).strategy,
                old(self).servers@,
                old(self).counter(),
                key_of(hash_key),
            ),
            final(self).servers@ == old(self).servers@,
            final(self).strategy == old(self).strategy,
    {
        let avail = self.available_servers();
        let ghost idx = avail@.map_values(|i: usize| i as int);
        proof {
            lemma_available_in_range(self.servers@);
        }
        if avail.len() == 0 {
            return None;
        }
        let ghost key = key_of(hash_key);
        match &self.strategy {
            LoadBalanceStrategy::RoundRobin => {
                let total = self.total_weight(&avail);
                if total == 0 {
                    return None;
                }
                let c = self.rr_counter;
                self.rr_counter = c.wrapping_add(1);
                let t = (c as u32) % total;
                let r = pick_weighted(&self.servers, &avail, t);
                assert(r matches Some(i) ==> i < self.servers@.len());
                r
            },
            LoadBalanceStrategy::LeastConnections => {
                let m = self.least_connections(&avail);
                Some(m)
            },
            LoadBalanceStrategy::IpHash => {
                let h = hash_of(hash_key);
                let total = self.total_weight(&avail);
                if total == 0 {
                    return None;
                }
                let t = (h % (total as u64)) as u32;
                let r = pick_weighted(&self.servers, &avail, t);
                assert(r matches Some(i) ==> i < self.servers@.len());
                r
            },
            LoadBalanceStrategy::GenericHash(_) => {
                let h = hash_of(hash_key);
                let k = (h % (avail.len() as u64)) as usize;
                Some(avail[k])
            },
            LoadBalanceStrategy::PowerOfTwoChoices => {
                if avail.len() == 1 {
                    return Some(avail[0]);
                }
                let c = self.rr_counter;
                let c1 = c.wrapping_add(1);
                self.rr_counter = c1.wrapping_add(1);
                let a = avail[c % avail.len()];
                let b = avail[c1 % avail.len()];
                if self.servers[a].active_connections <= self.servers[b].active_connections {
                    Some(a)
                } else {
                    Some(b)
                }
            },
        }
    }

    /// The server the next request goes to, if any.
    pub fn select_server(&mut self, hash_key: Option<&str>) -> (r: Option<&RuntimeServer>)
        requires
            old(self).weights_fit(),
        ensures
            match r {
                Some(s) => spec_select(
                    old(self).strategy,
                    old(self).servers@,
                    old(self).counter(),
                    key_of(hash_key),
                ).0 matches Some(i) && *s == old(self).servers@[i],
                None => spec_select(
                    old(self).strategy,
                    old(self).servers@,
                    old(self).counter(),
                    key_of(hash_key),
                ).0 is None,
            },
            final(self).counter() == spec_select(
                old(self).strategy,
                old(self).servers@,
                old(self).counter(),
                key_of(hash_key),
            ).1,
            final(self).servers@ == old(self).servers@,
            final(self).strategy == old(self).strategy,
    {
        match self.select_index(hash_key) {
            Some(i) => Some(&self.servers[i]),
            None => None,
        }
    }

    fn total_weight(&self, avail: &Vec<usize>) -> (r: u32)
        requires
            avail@.map_values(|i: usize| i as int) == available(self.servers@),
            forall|k: int| 0 <= k < avail@.len() ==> #[trigger] avail@[k] < self.servers@.len(),
            self.weights_fit(),
        ensures
            r as int == weight_sum(self.servers@, available(self.servers@)),
    {
        let ghost idx = avail@.map_values(|i: usize| i as int);
        let mut total: u32 = 0;
        let mut k: usize = 0;
        assert(idx.take(0) =~= Seq::<int>::empty());
        while k < avail.len()
            invariant
                k <= avail.len(),
                idx == avail@.map_values(|i: usize| i as int),
                weight_sum(self.servers@, idx) <= u32::MAX,
                forall|j: int| 0 <= j < avail@.len() ==> #[trigger] avail@[j] < self.servers@.len(),
                total as int == weight_sum(self.servers@, idx.take(k as int)),
            decreases avail.len() - k,
        {
            assert(idx.take(k + 1).drop_last() =~= idx.take(k as int));
            proof {
                lemma_weight_prefix(self.servers@, idx, k + 1);
            }
            total = total + self.servers[avail[k]].config.weight;
            k += 1;
        }
        assert(idx.take(avail.len() as int) =~= idx);
        total
    }

    fn least_connections(&self, avail: &Vec<usize>) -> (r: usize)
        requires
            avail@.len() > 0,
            forall|k: int| 0 <= k < avail@.len() ==> #[trigger] avail@[k] < self.servers@.len(),
        ensures
            r as int == least_loaded(self.servers@, avail@.map_values(|i: usize| i as int)),
            r < self.servers@.len(),
    {
        let ghost idx = avail@.map_values(|i: usize| i as int);
        let mut best = avail[0];
        let mut k: usize = 1;
        assert(idx.take(1).len() == 1);
        while k < avail.len()
            invariant
                1 <= k <= avail.len(),
                idx == avail@.map_values(|i: usize| i as int),
                forall|j: int| 0 <= j < avail@.len() ==> #[trigger] avail@[j] < self.servers@.len(),
                best < self.servers@.len(),
                best as int == least_loaded(self.servers@, idx.take(k as int)),
            decreases avail.len() - k,
        {
            assert(idx.take(k + 1).drop_last() =~= idx.take(k as int));
            let cand = avail[k];
            let sb = &self.servers[cand];
            let sm = &self.servers[best];
            if sb.active_connections < sm.active_connections || (sb.active_connections
                == sm.active_connections && sb.config.weight > sm.config.weight) {
                best = cand;
            }
            k += 1;
        }
        assert(idx.take(avail.len() as int) =~= idx);
        best
    }
}

/// The `DefaultHasher` hash of the key, as `str`'s `Hash` computes it.
fn hash_of(hash_key: Option<&str>) -> (h: u64)
    ensures
        h == key_hash(key_of(hash_key)),
{
    let key: &str = match hash_key {
        Some(k) => k,
        None => "",
    };
    proof {
        reveal_strlit("");
    }
    let mut hasher = DefaultHasher::new();
    let bytes = key.as_bytes();
    assert(bytes@ == vstd::utf8::encode_utf8(key@));
    hasher.write(bytes);
    let mut tail: Vec<u8> = Vec::new();
    tail.push(0xffu8);
    let ts = tail.as_slice();
    assert(ts@ =~= seq![0xffu8]);
    hasher.write(ts);
    let h = hasher.finish();
    assert(hasher@ =~= seq![vstd::utf8::encode_utf8(key@), seq![0xffu8]]);
    assert(key@ == key_of(hash_key));
    h
}

/// Hashing is a function of the key: a request with the same key goes to
/// the same server as long as the servers and their states do not change.
pub proof fn law_hash_routing_is_stable(
    servers: Seq<RuntimeServer>,
    c1: usize,
    c2: usize,
    key: Seq<char>,
)
    ensures
        spec_select(LoadBalanceStrategy::IpHash, servers, c1, key).0 == spec_select(
            LoadBalanceStrategy::IpHash,
            servers,
            c2,
            key,
        ).0,
{
}

/// Whatever the strategy, a chosen server is one of the available ones:
/// it is up, and it is a backup only when no primary server is up.
pub proof fn law_choice_is_available(
    strategy: LoadBalanceStrategy,
    servers: Seq<RuntimeServer>,
    c: usize,
    key: Seq<char>,
)
    ensures
        spec_select(strategy, servers, c, key).0 matches Some(i) ==> available(servers).contains(i),
{
    let avail = available(servers);
    let total = weight_sum(servers, avail);
    if avail.len() > 0 {
        match strategy {
            LoadBalanceStrategy::RoundRobin => {
                if total != 0 {
                    lemma_pick_in(servers, avail, (c as u32) as int % total);
                }
            },
            LoadBalanceStrategy::IpHash => {
                if total != 0 {
                    lemma_pick_in(servers, avail, key_hash(key) as int % total);
                }
            },
            LoadBalanceStrategy::LeastConnections => {
                lemma_least_in(servers, avail);
            },
            LoadBalanceStrategy::GenericHash(_) => {
                let k = key_hash(key) as int % avail.len() as int;
                assert(0 <= k < avail.len());
                assert(avail[k] == avail[k]);
            },
            LoadBalanceStrategy::PowerOfTwoChoices => {
                if avail.len() != 1 {
                    let c1 = next_counter(c);
                    let a = c as int % avail.len() as int;
                    let b = c1 as int % avail.len() as int;
                    assert(avail[a] == avail[a]);
                    assert(avail[b] == avail[b]);
                } else {
                    assert(avail[0] == avail[0]);
                }
            },
        }
    }
}

proof fn lemma_pick_in(servers: Seq<RuntimeServer>, idx: Seq<int>, t: int)
    ensures
        weighted_pick(servers, idx, t) matches Some(i) ==> idx.contains(i),
    decreases idx.len(),
{
    if idx.len() > 0 && t >= servers[idx[0]].config.weight {
        lemma_pick_in(servers, idx.drop_first(), t - servers[idx[0]].config.weight);
        match weighted_pick(servers, idx, t) {
            Some(i) => {
                let j = choose|j: int| 0 <= j < idx.drop_first().len() && idx.drop_first()[j] == i;
                assert(idx[j + 1] == i);
            },
            None => {},
        }
    } else if idx.len() > 0 {
        assert(idx[0] == idx[0]);
    }
}

proof fn lemma_least_in(servers: Seq<RuntimeServer>, idx: Seq<int>)
    requires
        idx.len() > 0,
    ensures
        idx.contains(least_loaded(servers, idx)),
    decreases idx.len(),
{
    if idx.len() > 1 {
        lemma_least_in(servers, idx.drop_last());
        let m = least_loaded(servers, idx.drop_last());
        if !fewer_conns(servers, idx.last(), m) {
            let j = choose|j: int| 0 <= j < idx.drop_last().len() && idx.drop_last()[j] == m;
            assert(idx[j] == m);
        } else {
            assert(idx[idx.len() - 1] == idx.last());
        }
    } else {
        assert(idx[0] == idx[0]);
    }
}

/// Power of two choices: with two or more available servers, the two
/// servers sampled are the available ones at the counter and at the next
/// counter value (modulo their number); the one chosen is one of them and
/// has no more active connections than the other (the first sampled on a
/// tie), and the counter moves on by two.
pub proof fn law_two_choices_picks_less_loaded(servers: Seq<RuntimeServer>, c: usize, key: Seq<char>)
    requires
        available(servers).len() >= 2,
    ensures
        ({
            let avail = available(servers);
            let x = avail[c as int % avail.len() as int];
            let y = avail[next_counter(c) as int % avail.len() as int];
            let (pick, c2) = spec_select(LoadBalanceStrategy::PowerOfTwoChoices, servers, c, key);
            &&& pick matches Some(i) && (i == x || i == y)
                && servers[i].active_connections <= servers[x].active_connections
                && servers[i].active_connections <= servers[y].active_connections
            &&& servers[x].active_connections <= servers[y].active_connections ==> pick == Some(x)
            &&& c2 == next_counter(next_counter(c))
        }),
{
}

/// Least connections: the chosen server is available and no available
/// server has fewer active connections.
pub proof fn law_least_connections_is_least(servers: Seq<RuntimeServer>, c: usize, key: Seq<char>)
    requires
        available(servers).len() >= 1,
    ensures
        spec_select(LoadBalanceStrategy::LeastConnections, servers, c, key).0 matches Some(i) && available(
            servers,
        ).contains(i) && forall|k: int|
            #![trigger available(servers)[k]]
            0 <= k < available(servers).len() ==> servers[i].active_connections <= servers[available(
                servers,
            )[k]].active_connections,
{
    let avail = available(servers);
    lemma_least_in(servers, avail);
    lemma_least_is_least(servers, avail);
}

proof fn lemma_least_is_least(servers: Seq<RuntimeServer>, idx: Seq<int>)
    requires
        idx.len() > 0,
    ensures
        forall|k: int|
            #![trigger idx[k]]
            0 <= k < idx.len() ==> servers[least_loaded(servers, idx)].active_connections
                <= servers[idx[k]].active_connections,
    decreases idx.len(),
{
    if idx.len() > 1 {
        lemma_least_is_least(servers, idx.drop_last());
        assert forall|k: int| #![trigger idx[k]] 0 <= k < idx.len() - 1 implies idx[k] == idx.drop_last()[k] by {}
    }
}

/// A target below the total weight falls in exactly the slot of the
/// server picked: the servers before it weigh at most the target, and with
/// it more than the target.
proof fn lemma_weighted_pick_slot(servers: Seq<RuntimeServer>, idx: Seq<int>, t: int)
    requires
        0 <= t < weight_sum(servers, idx),
    ensures
        exists|k: int|
            0 <= k < idx.len() && weighted_pick(servers, idx, t) == Some(idx[k]) && weight_sum(
                servers,
                idx.take(k),
            ) <= t < #[trigger] weight_sum(servers, idx.take(k + 1)),
    decreases idx.len(),
{
    let n = idx.len() as int;
    if n > 0 {
        lemma_weight_shift(servers, idx, 0);
        assert(idx.take(0) =~= Seq::<int>::empty());
        assert(idx.drop_first().take(0) =~= Seq::<int>::empty());
        if t < servers[idx[0]].config.weight {
            assert(weighted_pick(servers, idx, t) == Some(idx[0]));
            assert(weight_sum(servers, idx.take(1int)) == servers[idx[0]].config.weight);
        } else {
            let rest = idx.drop_first();
            let w0 = servers[idx[0]].config.weight as int;
            lemma_weight_shift(servers, idx, n - 1);
            assert(idx.take(n) =~= idx);
            assert(rest.take(n - 1) =~= rest);
            lemma_weighted_pick_slot(servers, rest, t - w0);
            let k2 = choose|k: int|
                0 <= k < rest.len() && weighted_pick(servers, rest, t - w0) == Some(rest[k]) && weight_sum(
                    servers,
                    rest.take(k),
                ) <= t - w0 < #[trigger] weight_sum(servers, rest.take(k + 1));
            lemma_weight_shift(servers, idx, k2);
            lemma_weight_shift(servers, idx, k2 + 1);
            assert(weighted_pick(servers, idx, t) == Some(idx[k2 + 1]));
            assert(weight_sum(servers, idx.take((k2 + 1) + 1)) > t);
        }
    }
}

/// Weighted round robin and IP hash: the target (the counter, or the key's
/// hash, modulo the total weight of the available servers) falls in the
/// weight slot of the server chosen, so each server owns as many targets as
/// its weight; a server of weight 0 is never chosen.
pub proof fn law_weighted_choice_owns_target(servers: Seq<RuntimeServer>, c: usize, key: Seq<char>)
    requires
        weight_sum(servers, available(servers)) > 0,
    ensures
        ({
            let avail = available(servers);
            let total = weight_sum(servers, avail);
            let t_rr = (c as u32) as int % total;
            let t_ip = key_hash(key) as int % total;
            &&& exists|k: int|
                0 <= k < avail.len() && spec_select(LoadBalanceStrategy::RoundRobin, servers, c, key).0 == Some(
                    avail[k],
                ) && weight_sum(servers, avail.take(k)) <= t_rr < #[trigger] weight_sum(
                    servers,
                    avail.take(k + 1),
                )
            &&& exists|k: int|
                0 <= k < avail.len() && spec_select(LoadBalanceStrategy::IpHash, servers, c, key).0 == Some(
                    avail[k],
                ) && weight_sum(servers, avail.take(k)) <= t_ip < #[trigger] weight_sum(
                    servers,
                    avail.take(k + 1),
                )
        }),
{
    let avail = available(servers);
    let total = weight_sum(servers, avail);
    if avail.len() == 0 {
        assert(total == 0);
    }
    lemma_weighted_pick_slot(servers, avail, (c as u32) as int % total);
    lemma_weighted_pick_slot(servers, avail, key_hash(key) as int % total);
}

} // verus!
