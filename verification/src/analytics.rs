//! Usage statistics of the service's endpoints.
//!
//! For each endpoint and method the requests are counted, and the latencies
//! are added up and compared.

use vstd::prelude::*;

use crate::clock::{utc_now, wall_clock_shows, Time};
use crate::measure::Measure;
use crate::ratio::Ratio;
use crate::table::{lemma_index_of, lemma_pairing_push, lemma_pairing_update, pairing};
use crate::text::{contains_text, name_option, occurs, same, text_option};

verus! {

/// The statistics of an endpoint. Its average latency is the total latency
/// over the number of requests.
#[derive(Debug)]
pub struct EndpointStats {
    pub endpoint: String,
    pub method: String,
    pub total_requests: u64,
    pub successful_requests: u64,
    pub failed_requests: u64,
    pub total_latency_ms: Measure,
    pub max_latency_ms: Measure,
    pub min_latency_ms: Measure,
    pub last_updated: Time,
}

/// Which endpoints to show.
#[derive(Debug)]
pub struct AnalyticsQuery {
    pub endpoint: Option<String>,
    pub method: Option<String>,
}

/// What is counted for an endpoint.
#[derive(Debug, Clone, Copy, PartialEq, Eq, Structural)]
pub struct EndpointMetrics {
    pub total_requests: u64,
    pub successful_requests: u64,
    pub failed_requests: u64,
    pub total_latency_ms: Measure,
    pub max_latency_ms: Measure,
    pub min_latency_ms: Measure,
}

/// What is counted before the first request.
pub open spec fn no_requests() -> EndpointMetrics {
    EndpointMetrics {
        total_requests: 0,
        successful_requests: 0,
        failed_requests: 0,
        total_latency_ms: Measure { bits: 0 },
        max_latency_ms: Measure { bits: 0 },
        min_latency_ms: Measure { bits: 0 },
    }
}

impl Default for EndpointMetrics {
    /// What is counted before the first request.
    fn default() -> (r: Self)
        ensures
            r == no_requests(),
    {
        EndpointMetrics {
            total_requests: 0,
            successful_requests: 0,
            failed_requests: 0,
            total_latency_ms: Measure { bits: 0 },
            max_latency_ms: Measure { bits: 0 },
            min_latency_ms: Measure { bits: 0 },
        }
    }
}

/// The number is zero.
pub open spec fn is_zero(m: Measure) -> bool {
    !m.is_nan_spec() && m.rank() == 0
}

/// What is counted after a request. A smallest latency of zero counts as none.
pub open spec fn counted(
    m: EndpointMetrics,
    latency: Measure,
    total: Measure,
    success: bool,
) -> EndpointMetrics {
    EndpointMetrics {
        total_requests: (m.total_requests + 1) as u64,
        successful_requests: if success {
            (m.successful_requests + 1) as u64
        } else {
            m.successful_requests
        },
        failed_requests: if success {
            m.failed_requests
        } else {
            (m.failed_requests + 1) as u64
        },
        total_latency_ms: total,
        max_latency_ms: if latency.gt_spec(m.max_latency_ms) {
            latency
        } else {
            m.max_latency_ms
        },
        min_latency_ms: if is_zero(m.min_latency_ms) || m.min_latency_ms.gt_spec(latency) {
            latency
        } else {
            m.min_latency_ms
        },
    }
}

/// What requests are counted under: an endpoint and a method.
pub struct EndpointKey {
    pub endpoint: Seq<char>,
    pub method: Seq<char>,
}

/// The key of an endpoint.
pub open spec fn key_of(endpoint: Seq<char>, method: Seq<char>) -> EndpointKey {
    EndpointKey { endpoint, method }
}

/// What is counted for a key.
pub open spec fn metrics_at(m: Map<EndpointKey, EndpointMetrics>, key: EndpointKey) -> EndpointMetrics {
    if m.contains_key(key) {
        m[key]
    } else {
        no_requests()
    }
}

/// The rate is that of the failed requests, in percent of all.
pub open spec fn is_error_rate(rate: Ratio, m: EndpointMetrics) -> bool {
    &&& rate.numerator == m.failed_requests * 100
    &&& rate.denominator == m.total_requests
    &&& 0 < rate.denominator
    &&& rate.numerator <= rate.denominator * 100
}

/// The key of an endpoint that is to be shown: the method is the wanted one, and
/// the wanted text stands in the endpoint.
pub open spec fn is_shown(
    key: EndpointKey,
    endpoint: Option<Seq<char>>,
    method: Option<Seq<char>>,
) -> bool {
    &&& method matches Some(wanted) ==> key.method == wanted
    &&& endpoint matches Some(wanted) ==> occurs(wanted, key.endpoint)
}

/// The keys to be shown, in order.
pub open spec fn shown_keys(
    keys: Seq<EndpointKey>,
    endpoint: Option<Seq<char>>,
    method: Option<Seq<char>>,
) -> Seq<EndpointKey>
    decreases keys.len(),
{
    if keys.len() == 0 {
        Seq::empty()
    } else {
        let head = shown_keys(keys.drop_last(), endpoint, method);
        if is_shown(keys.last(), endpoint, method) {
            head.push(keys.last())
        } else {
            head
        }
    }
}

/// The statistics are those of a key.
pub open spec fn shows(
    s: EndpointStats,
    m: Map<EndpointKey, EndpointMetrics>,
    key: EndpointKey,
    now: Time,
) -> bool {
    &&& s.method@ == key.method
    &&& s.endpoint@ == key.endpoint
    &&& s.last_updated == now
    &&& EndpointMetrics {
        total_requests: s.total_requests,
        successful_requests: s.successful_requests,
        failed_requests: s.failed_requests,
        total_latency_ms: s.total_latency_ms,
        max_latency_ms: s.max_latency_ms,
        min_latency_ms: s.min_latency_ms,
    } == m[key]
}

/// The list shows the wanted endpoints.
pub open spec fn shows_endpoints(
    list: Seq<EndpointStats>,
    store: AnalyticsModel,
    endpoint: Option<Seq<char>>,
    method: Option<Seq<char>>,
    now: Time,
) -> bool {
    let keys = shown_keys(store.keys, endpoint, method);
    &&& list.len() == keys.len()
    &&& forall|i: int|
        0 <= i < list.len() ==> shows(#[trigger] list[i], store.metrics, keys[i], now)
}

/// What is counted for all endpoints.
pub struct AnalyticsModel {
    pub metrics: Map<EndpointKey, EndpointMetrics>,
    /// The keys, oldest first.
    pub keys: Seq<EndpointKey>,
}

/// What is counted for one endpoint and method.
struct EndpointRecord {
    endpoint: String,
    method: String,
    counts: EndpointMetrics,
}

impl EndpointRecord {
    spec fn key(&self) -> EndpointKey {
        key_of(self.endpoint@, self.method@)
    }
}

/// The statistics of all endpoints.
pub struct AnalyticsStore {
    records: Vec<EndpointRecord>,
}

/// Whether an endpoint is to be shown.
fn wanted(record: &EndpointRecord, endpoint: Option<&str>, method: Option<&str>) -> (r: bool)
    ensures
        r == is_shown(record.key(), name_option(endpoint), name_option(method)),
{
    let right_method = match method {
        Some(name) => same(record.method.as_str(), name),
        None => true,
    };
    let right_endpoint = match endpoint {
        Some(text) => contains_text(record.endpoint.as_str(), text),
        None => true,
    };
    right_method && right_endpoint
}

impl Default for AnalyticsStore {
    /// A store without requests.
    fn default() -> (r: Self)
        ensures
            r.wf(),
            r@.metrics == Map::<EndpointKey, EndpointMetrics>::empty(),
            r@.keys == Seq::<EndpointKey>::empty(),
    {
        Self::new()
    }
}

impl AnalyticsStore {
    /// The keys of the records.
    spec fn keys(&self) -> Seq<EndpointKey> {
        self.records@.map_values(|record: EndpointRecord| record.key())
    }

    /// The counts of the records.
    spec fn counts(&self) -> Seq<EndpointMetrics> {
        self.records@.map_values(|record: EndpointRecord| record.counts)
    }

    pub closed spec fn view(&self) -> AnalyticsModel {
        AnalyticsModel { metrics: pairing(self.keys(), self.counts()), keys: self.keys() }
    }

    /// No key has two records, and every request succeeded or failed.
    pub closed spec fn wf(&self) -> bool {
        &&& self.keys().no_duplicates()
        &&& forall|i: int|
            0 <= i < self.records@.len() ==> adds_up((#[trigger] self.records@[i]).counts)
    }

    /// Every request succeeded or failed, and no counter is empty. Each key is
    /// listed once.
    pub proof fn requests_succeed_or_fail(&self)
        requires
            self.wf(),
        ensures
            forall|k: EndpointKey| #[trigger]
                self@.metrics.contains_key(k) ==> adds_up(self@.metrics[k]),
            forall|k: EndpointKey| #[trigger]
                self@.metrics.contains_key(k) <==> self@.keys.contains(k),
            self@.keys.no_duplicates(),
    {
        assert forall|k: EndpointKey| #[trigger] self@.metrics.contains_key(k) implies adds_up(
            self@.metrics[k],
        ) by {
            let i = self.keys().index_of(k);
            assert(self.keys().contains(k));
            assert(adds_up(self.records@[i].counts));
        }
    }

    /// A store without requests.
    pub fn new() -> (r: Self)
        ensures
            r.wf(),
            r@.metrics == Map::<EndpointKey, EndpointMetrics>::empty(),
            r@.keys == Seq::<EndpointKey>::empty(),
    {
        let r = AnalyticsStore { records: Vec::new() };
        assert(r.keys() =~= Seq::<EndpointKey>::empty());
        assert(r@.metrics =~= Map::<EndpointKey, EndpointMetrics>::empty());
        r
    }

    /// The place of an endpoint's record, if it has one.
    fn position(&self, endpoint: &str, method: &str) -> (r: Option<usize>)
        requires
            self.wf(),
        ensures
            match r {
                Some(i) => {
                    &&& i < self.records@.len()
                    &&& self.records@[i as int].key() == key_of(endpoint@, method@)
                    &&& self@.metrics.contains_key(key_of(endpoint@, method@))
                    &&& self@.metrics[key_of(endpoint@, method@)] == self.records@[i as int].counts
                },
                None => {
                    &&& !self@.metrics.contains_key(key_of(endpoint@, method@))
                    &&& !self.keys().contains(key_of(endpoint@, method@))
                },
            },
    {
        let ghost key = key_of(endpoint@, method@);
        let mut i: usize = 0;
        while i < self.records.len()
            invariant
                i <= self.records.len(),
                self.wf(),
                key == key_of(endpoint@, method@),
                forall|j: int| 0 <= j < i ==> self.keys()[j] != key,
            decreases self.records.len() - i,
        {
            let record = &self.records[i];
            assert(self.keys()[i as int] == record.key());
            if same(record.endpoint.as_str(), endpoint) && same(record.method.as_str(), method) {
                proof {
                    lemma_index_of(self.keys(), i as int);
                }
                return Some(i);
            }
            i = i + 1;
        }
        None
    }

    /// What is counted for an endpoint.
    fn metrics_of(&self, endpoint: &str, method: &str) -> (r: EndpointMetrics)
        requires
            self.wf(),
        ensures
            r == metrics_at(self@.metrics, key_of(endpoint@, method@)),
    {
        match self.position(endpoint, method) {
            Some(i) => self.records[i].counts,
            None => EndpointMetrics::default(),
        }
    }

    /// The total latency of an endpoint so far.
    pub fn total_latency(&self, endpoint: &str, method: &str) -> (r: Measure)
        requires
            self.wf(),
        ensures
            r == metrics_at(self@.metrics, key_of(endpoint@, method@)).total_latency_ms,
    {
        self.metrics_of(endpoint, method).total_latency_ms
    }

    /// Counts a request. `total_latency_ms` is the endpoint's total latency
    /// with that of the request added.
    pub fn record_request(
        &mut self,
        endpoint: &str,
        method: &str,
        latency_ms: Measure,
        total_latency_ms: Measure,
        success: bool,
    )
        requires
            old(self).wf(),
            metrics_at(old(self)@.metrics, key_of(endpoint@, method@)).total_requests < u64::MAX,
        ensures
            final(self).wf(),
            final(self)@.metrics == old(self)@.metrics.insert(
                key_of(endpoint@, method@),
                counted(
                    metrics_at(old(self)@.metrics, key_of(endpoint@, method@)),
                    latency_ms,
                    total_latency_ms,
                    success,
                ),
            ),
            final(self)@.keys == if old(self)@.metrics.contains_key(key_of(endpoint@, method@)) {
                old(self)@.keys
            } else {
                old(self)@.keys.push(key_of(endpoint@, method@))
            },
    {
        let ghost key = key_of(endpoint@, method@);
        let place = self.position(endpoint, method);
        let mut m = match place {
            Some(i) => self.records[i].counts,
            None => EndpointMetrics::default(),
        };
        m.total_requests = m.total_requests + 1;
        if success {
            m.successful_requests = m.successful_requests + 1;
        } else {
            m.failed_requests = m.failed_requests + 1;
        }
        m.total_latency_ms = total_latency_ms;
        if latency_ms.gt(&m.max_latency_ms) {
            m.max_latency_ms = latency_ms;
        }
        let none_yet = !m.min_latency_ms.is_nan() && m.min_latency_ms.signed_rank() == 0;
        if none_yet || m.min_latency_ms.gt(&latency_ms) {
            m.min_latency_ms = latency_ms;
        }
        match place {
            Some(i) => {
                proof {
                    lemma_index_of(self.keys(), i as int);
                    lemma_pairing_update(self.keys(), self.counts(), i as int, m);
                }
                self.records[i].counts = m;
                assert(self.keys() =~= old(self).keys());
                assert(self.counts() =~= old(self).counts().update(i as int, m));
            },
            None => {
                proof {
                    lemma_pairing_push(self.keys(), self.counts(), key, m);
                }
                self.records.push(
                    EndpointRecord {
                        endpoint: endpoint.to_owned(),
                        method: method.to_owned(),
                        counts: m,
                    },
                );
                assert(self.keys() =~= old(self).keys().push(key));
                assert(self.counts() =~= old(self).counts().push(m));
            },
        }
    }

    /// The statistics at a moment: those of the endpoints in whose name the
    /// wanted text stands, with the wanted method.
    pub fn get_stats_at(&self, endpoint: Option<&str>, method: Option<&str>, now: Time) -> (r: Vec<
        EndpointStats,
    >)
        requires
            self.wf(),
        ensures
            shows_endpoints(r@, self@, name_option(endpoint), name_option(method), now),
    {
        let ghost e = name_option(endpoint);
        let ghost m = name_option(method);
        let ghost keys = self.keys();
        let mut out: Vec<EndpointStats> = Vec::new();
        let mut i: usize = 0;
        while i < self.records.len()
            invariant
                i <= keys.len(),
                keys == self.keys(),
                self.wf(),
                e == name_option(endpoint),
                m == name_option(method),
                out@.len() == shown_keys(keys.take(i as int), e, m).len(),
                forall|j: int|
                    0 <= j < out@.len() ==> shows(
                        #[trigger] out@[j],
                        self@.metrics,
                        shown_keys(keys.take(i as int), e, m)[j],
                        now,
                    ),
            decreases keys.len() - i,
        {
            let record = &self.records[i];
            let counts = &record.counts;
            assert(keys.take(i + 1).drop_last() =~= keys.take(i as int));
            proof {
                lemma_index_of(keys, i as int);
            }
            if wanted(record, endpoint, method) {
                out.push(
                    EndpointStats {
                        endpoint: record.endpoint.clone(),
                        method: record.method.clone(),
                        total_requests: counts.total_requests,
                        successful_requests: counts.successful_requests,
                        failed_requests: counts.failed_requests,
                        total_latency_ms: counts.total_latency_ms,
                        max_latency_ms: counts.max_latency_ms,
                        min_latency_ms: counts.min_latency_ms,
                        last_updated: now,
                    },
                );
            }
            i = i + 1;
        }
        assert(keys.take(i as int) =~= keys);
        out
    }

    /// The statistics of the endpoints in whose name the wanted text stands,
    /// with the wanted method.
    pub fn get_stats(&self, endpoint: Option<&str>, method: Option<&str>) -> (r: Vec<EndpointStats>)
        requires
            self.wf(),
        ensures
            exists|now: Time|
                wall_clock_shows(now) && #[trigger] shows_endpoints(
                    r@,
                    self@,
                    name_option(endpoint),
                    name_option(method),
                    now,
                ),
    {
        let now = utc_now();
        self.get_stats_at(endpoint, method, now)
    }

    /// The failed requests of an endpoint in percent of all, if there were
    /// any.
    pub fn error_rate(&self, endpoint: &str, method: &str) -> (r: Option<Ratio>)
        requires
            self.wf(),
        ensures
            match r {
                Some(rate) => self@.metrics.contains_key(key_of(endpoint@, method@))
                    && is_error_rate(rate, self@.metrics[key_of(endpoint@, method@)]),
                None => !self@.metrics.contains_key(key_of(endpoint@, method@)),
            },
    {
        match self.position(endpoint, method) {
            Some(i) => {
                let m = &self.records[i].counts;
                assert(adds_up(self.records@[i as int].counts));
                Some(
                    Ratio {
                        numerator: m.failed_requests as u128 * 100,
                        denominator: m.total_requests,
                    },
                )
            },
            None => None,
        }
    }
}

/// Every request succeeded or failed, and there was one.
pub open spec fn adds_up(m: EndpointMetrics) -> bool {
    m.total_requests == m.successful_requests + m.failed_requests && m.total_requests > 0
}

/// The statistics that a query asks for.
pub fn get_usage_analytics(store: &AnalyticsStore, query: &AnalyticsQuery) -> (r: Vec<
    EndpointStats,
>)
    requires
        store.wf(),
    ensures
        exists|now: Time|
            wall_clock_shows(now) && #[trigger] shows_endpoints(
                r@,
                store@,
                text_option(query.endpoint),
                text_option(query.method),
                now,
            ),
{
    let endpoint = match &query.endpoint {
        Some(text) => Some(text.as_str()),
        None => None,
    };
    let method = match &query.method {
        Some(text) => Some(text.as_str()),
        None => None,
    };
    assert(name_option(endpoint) == text_option(query.endpoint));
    assert(name_option(method) == text_option(query.method));
    store.get_stats(endpoint, method)
}

/// The largest latency is no smaller than any that was counted, and the
/// smallest no larger, as long as no latency is zero or no number.
pub proof fn extremes_bound_the_latencies(
    m: EndpointMetrics,
    latency: Measure,
    total: Measure,
    success: bool,
)
    requires
        latency.gt_spec(Measure { bits: 0 }),
        m.max_latency_ms.ge_spec(m.min_latency_ms),
        m.min_latency_ms.ge_spec(Measure { bits: 0 }),
    ensures
        counted(m, latency, total, success).max_latency_ms.ge_spec(latency),
        latency.ge_spec(counted(m, latency, total, success).min_latency_ms),
        counted(m, latency, total, success).max_latency_ms.ge_spec(m.max_latency_ms),
        counted(m, latency, total, success).max_latency_ms.ge_spec(
            counted(m, latency, total, success).min_latency_ms,
        ),
        counted(m, latency, total, success).min_latency_ms.gt_spec(Measure { bits: 0 }),
{
}

/// Requests to one endpoint by one method leave what is counted for any other
/// endpoint or method as it is.
pub proof fn endpoints_are_counted_apart(
    m: Map<EndpointKey, EndpointMetrics>,
    endpoint: Seq<char>,
    method: Seq<char>,
    counts: EndpointMetrics,
    other_endpoint: Seq<char>,
    other_method: Seq<char>,
)
    requires
        endpoint != other_endpoint || method != other_method,
    ensures
        metrics_at(
            m.insert(key_of(endpoint, method), counts),
            key_of(other_endpoint, other_method),
        ) == metrics_at(m, key_of(other_endpoint, other_method)),
{
}

/// A query without filters shows every endpoint.
pub proof fn all_endpoints_are_shown(keys: Seq<EndpointKey>)
    ensures
        shown_keys(keys, None, None) == keys,
    decreases keys.len(),
{
    if keys.len() > 0 {
        all_endpoints_are_shown(keys.drop_last());
        assert(keys.drop_last().push(keys.last()) =~= keys);
    } else {
        assert(shown_keys(keys, None, None) =~= keys);
    }
}

/// A request is counted once, as a success or as a failure; the largest latency does not
/// fall and the smallest one does not rise, and both are latencies that were counted.
pub proof fn requests_are_counted_once(
    m: EndpointMetrics,
    latency: Measure,
    total: Measure,
    success: bool,
)
    requires
        m.total_requests < u64::MAX,
        m.successful_requests < u64::MAX,
        m.failed_requests < u64::MAX,
    ensures
        ({
            let after = counted(m, latency, total, success);
            &&& after.total_requests == m.total_requests + 1
            &&& success ==> after.successful_requests == m.successful_requests + 1
                && after.failed_requests == m.failed_requests
            &&& !success ==> after.failed_requests == m.failed_requests + 1
                && after.successful_requests == m.successful_requests
            &&& after.total_latency_ms == total
            &&& after.max_latency_ms == latency || after.max_latency_ms == m.max_latency_ms
            &&& after.min_latency_ms == latency || after.min_latency_ms == m.min_latency_ms
            &&& !latency.gt_spec(after.max_latency_ms)
            &&& !after.min_latency_ms.gt_spec(latency)
            &&& latency.gt_spec(m.max_latency_ms) ==> after.max_latency_ms == latency
            &&& m.min_latency_ms.gt_spec(latency) ==> after.min_latency_ms == latency
            &&& m.min_latency_ms.gt_spec(Measure { bits: 0 }) && latency.gt_spec(m.min_latency_ms)
                ==> after.min_latency_ms == m.min_latency_ms
        }),
{
}

/// An endpoint is shown exactly where its method is the one asked for and its name holds
/// the text asked for, as far as either was; the order stays.
pub proof fn queries_show_what_they_ask_for(
    keys: Seq<EndpointKey>,
    endpoint: Option<Seq<char>>,
    method: Option<Seq<char>>,
    key: EndpointKey,
)
    ensures
        shown_keys(keys, endpoint, method).contains(key) <==> keys.contains(key) && (
        method matches Some(wanted) ==> key.method == wanted) && (endpoint matches Some(wanted)
            ==> occurs(wanted, key.endpoint)),
{
    lemma_shown_keys(keys, endpoint, method);
    crate::ordering::lemma_filter_contains(
        keys,
        |k: EndpointKey| is_shown(k, endpoint, method),
        key,
    );
}

proof fn lemma_shown_keys(
    keys: Seq<EndpointKey>,
    endpoint: Option<Seq<char>>,
    method: Option<Seq<char>>,
)
    ensures
        shown_keys(keys, endpoint, method) == keys.filter(
            |k: EndpointKey| is_shown(k, endpoint, method),
        ),
    decreases keys.len(),
{
    reveal(Seq::filter);
    if keys.len() > 0 {
        lemma_shown_keys(keys.drop_last(), endpoint, method);
    }
}

/// The statistics tell of each endpoint that is asked for, and of no other, its name, its
/// method and what was counted for it.
pub proof fn statistics_tell_what_was_counted(
    list: Seq<EndpointStats>,
    store: AnalyticsModel,
    endpoint: Option<Seq<char>>,
    method: Option<Seq<char>>,
    now: Time,
    key: EndpointKey,
)
    requires
        shows_endpoints(list, store, endpoint, method, now),
    ensures
        store.keys.contains(key) && (method matches Some(wanted) ==> key.method == wanted) && (
        endpoint matches Some(wanted) ==> occurs(wanted, key.endpoint)) ==> exists|i: int|
            {
                &&& 0 <= i < list.len()
                &&& (#[trigger] list[i]).endpoint@ == key.endpoint
                &&& list[i].method@ == key.method
                &&& list[i].total_requests == store.metrics[key].total_requests
                &&& list[i].successful_requests == store.metrics[key].successful_requests
                &&& list[i].failed_requests == store.metrics[key].failed_requests
                &&& list[i].total_latency_ms == store.metrics[key].total_latency_ms
                &&& list[i].max_latency_ms == store.metrics[key].max_latency_ms
                &&& list[i].min_latency_ms == store.metrics[key].min_latency_ms
                &&& list[i].last_updated == now
            },
        forall|i: int|
            0 <= i < list.len() ==> store.keys.contains(
                key_of((#[trigger] list[i]).endpoint@, list[i].method@),
            ),
{
    let keys = shown_keys(store.keys, endpoint, method);
    queries_show_what_they_ask_for(store.keys, endpoint, method, key);
    if keys.contains(key) {
        let i = keys.index_of(key);
        assert(shows(list[i], store.metrics, keys[i], now));
    }
    assert forall|i: int| 0 <= i < list.len() implies store.keys.contains(
        key_of((#[trigger] list[i]).endpoint@, list[i].method@),
    ) by {
        assert(shows(list[i], store.metrics, keys[i], now));
        queries_show_what_they_ask_for(store.keys, endpoint, method, keys[i]);
        assert(keys.contains(keys[i]));
        assert(key_of(list[i].endpoint@, list[i].method@) == keys[i]);
    }
}

/// The error rate is 100% where every request failed and 0% where none did, and it lies
/// between; a failure never lowers it and a success never raises it.
pub proof fn failures_raise_the_error_rate(
    m: EndpointMetrics,
    rate: Ratio,
    latency: Measure,
    total: Measure,
    success: bool,
    next: Ratio,
)
    requires
        adds_up(m),
        m.total_requests < u64::MAX,
        is_error_rate(rate, m),
        is_error_rate(next, counted(m, latency, total, success)),
    ensures
        m.successful_requests == 0 ==> rate.numerator == 100 * rate.denominator,
        m.failed_requests == 0 ==> rate.numerator == 0,
        success ==> rate.ge_spec(next),
        !success ==> next.ge_spec(rate),
{
    let f = m.failed_requests as int;
    let t = m.total_requests as int;
    assert(success ==> (f * 100) * (t + 1) >= (f * 100) * t) by (nonlinear_arith)
        requires
            f >= 0,
            t >= 0,
    ;
    assert(!success ==> ((f + 1) * 100) * t >= (f * 100) * (t + 1)) by (nonlinear_arith)
        requires
            0 <= f <= t,
    ;
}

} // verus!
