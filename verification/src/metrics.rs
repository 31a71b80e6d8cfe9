//! The metrics of the service, in the Prometheus text format.

use vstd::prelude::*;

use crate::cardinality::{admits, values_after, values_of, LabelCardinality};
use crate::text::{
    decimal, lemma_occurs_between, occurs, push_decimal, signed_decimal, signed_decimal_text,
};

verus! {

/// The number of values per label that is admitted, unless set otherwise.
pub const DEFAULT_LABEL_CARDINALITY_LIMIT: usize = 100;

/// The counters and gauges of the service.
pub struct Metrics {
    pub vaults_total: u64,
    pub checkins_total: u64,
    pub releases_total: u64,
    pub active_vaults: i64,
    pub request_errors_total: u64,
    pub http_requests_total: u64,
    pub contract_paused: u64,
    /// The values of the labels.
    pub labels: LabelCardinality,
}

/// The lines of a metric.
pub open spec fn metric_lines(
    name: Seq<char>,
    help: Seq<char>,
    kind: Seq<char>,
    value: Seq<char>,
) -> Seq<char> {
    "# HELP "@ + name + " "@ + help + "\n"@ + "# TYPE "@ + name + " "@ + kind + "\n"@ + name + " "@
        + value + "\n"@
}

/// Writes the lines of a metric.
fn push_metric(out: &mut String, name: &str, help: &str, kind: &str, value: &str)
    ensures
        final(out)@ == old(out)@ + metric_lines(name@, help@, kind@, value@),
{
    let ghost before = out@;
    out.append("# HELP ");
    out.append(name);
    out.append(" ");
    out.append(help);
    out.append("\n");
    out.append("# TYPE ");
    out.append(name);
    out.append(" ");
    out.append(kind);
    out.append("\n");
    out.append(name);
    out.append(" ");
    out.append(value);
    out.append("\n");
    assert(out@ =~= before + metric_lines(name@, help@, kind@, value@));
}

/// Writes the lines of a counter.
fn push_counter(out: &mut String, name: &str, help: &str, value: u64)
    ensures
        final(out)@ == old(out)@ + metric_lines(name@, help@, "counter"@, decimal(value as nat)),
{
    let mut text = String::new();
    push_decimal(&mut text, value as u128);
    assert(text@ =~= decimal(value as nat));
    push_metric(out, name, help, "counter", text.as_str());
}

/// Writes the lines of a gauge.
fn push_gauge(out: &mut String, name: &str, help: &str, value: u64)
    ensures
        final(out)@ == old(out)@ + metric_lines(name@, help@, "gauge"@, decimal(value as nat)),
{
    let mut text = String::new();
    push_decimal(&mut text, value as u128);
    assert(text@ =~= decimal(value as nat));
    push_metric(out, name, help, "gauge", text.as_str());
}

/// Writes the lines of a gauge that may be negative.
fn push_gauge_i64(out: &mut String, name: &str, help: &str, value: i64)
    ensures
        final(out)@ == old(out)@ + metric_lines(
            name@,
            help@,
            "gauge"@,
            signed_decimal(value as int),
        ),
{
    let text = signed_decimal_text(value as i128);
    push_metric(out, name, help, "gauge", text.as_str());
}

impl Default for Metrics {
    /// Metrics that are all zero and admit no label values.
    fn default() -> (r: Self)
        ensures
            r.is_zero(),
            r.labels.wf(),
            r.labels@ == Map::<Seq<char>, Set<Seq<char>>>::empty(),
            r.labels.limit_spec() == 0,
    {
        Self::with_label_cardinality_limit(0)
    }
}

impl Metrics {
    /// Every counter and gauge is zero.
    pub open spec fn is_zero(&self) -> bool {
        &&& self.vaults_total == 0
        &&& self.checkins_total == 0
        &&& self.releases_total == 0
        &&& self.active_vaults == 0
        &&& self.request_errors_total == 0
        &&& self.http_requests_total == 0
        &&& self.contract_paused == 0
    }

    /// The other metrics have the same counters and gauges.
    pub open spec fn same_figures(&self, other: &Metrics) -> bool {
        &&& self.vaults_total == other.vaults_total
        &&& self.checkins_total == other.checkins_total
        &&& self.releases_total == other.releases_total
        &&& self.active_vaults == other.active_vaults
        &&& self.request_errors_total == other.request_errors_total
        &&& self.http_requests_total == other.http_requests_total
        &&& self.contract_paused == other.contract_paused
    }

    /// The metrics in the Prometheus text format.
    pub open spec fn exposition(&self) -> Seq<char> {
        metric_lines(
            "ethos_protocol_vaults_total"@,
            "Total vaults created"@,
            "counter"@,
            decimal(self.vaults_total as nat),
        ) + metric_lines(
            "ethos_protocol_checkins_total"@,
            "Total check-ins performed"@,
            "counter"@,
            decimal(self.checkins_total as nat),
        ) + metric_lines(
            "ethos_protocol_releases_total"@,
            "Total vault releases triggered"@,
            "counter"@,
            decimal(self.releases_total as nat),
        ) + metric_lines(
            "ethos_protocol_active_vaults"@,
            "Currently active (non-released) vaults"@,
            "gauge"@,
            signed_decimal(self.active_vaults as int),
        ) + metric_lines(
            "ethos_protocol_request_errors_total"@,
            "Total API errors"@,
            "counter"@,
            decimal(self.request_errors_total as nat),
        ) + metric_lines(
            "ethos_protocol_http_requests_total"@,
            "Total HTTP requests"@,
            "counter"@,
            decimal(self.http_requests_total as nat),
        ) + metric_lines(
            "ethos_protocol_contract_paused"@,
            "1 if contract is paused, 0 otherwise"@,
            "gauge"@,
            decimal(self.contract_paused as nat),
        )
    }

    /// Metrics that are all zero, with the usual bound on labels.
    pub fn new() -> (r: Self)
        ensures
            r.is_zero(),
            r.labels.wf(),
            r.labels@ == Map::<Seq<char>, Set<Seq<char>>>::empty(),
            r.labels.limit_spec() == DEFAULT_LABEL_CARDINALITY_LIMIT,
            r.labels.limit_spec() == 100,
    {
        Self::with_label_cardinality_limit(DEFAULT_LABEL_CARDINALITY_LIMIT)
    }

    /// Metrics that are all zero, with the given bound on labels.
    pub fn with_label_cardinality_limit(limit: usize) -> (r: Self)
        ensures
            r.is_zero(),
            r.labels.wf(),
            r.labels@ == Map::<Seq<char>, Set<Seq<char>>>::empty(),
            r.labels.limit_spec() == limit,
    {
        Metrics {
            vaults_total: 0,
            checkins_total: 0,
            releases_total: 0,
            active_vaults: 0,
            request_errors_total: 0,
            http_requests_total: 0,
            contract_paused: 0,
            labels: LabelCardinality::new(limit),
        }
    }

    /// Offers a value for a label; says whether it is admitted.
    pub fn register_label_value(&mut self, label: &str, value: &str) -> (r: bool)
        requires
            old(self).labels.wf(),
        ensures
            final(self).labels.wf(),
            final(self).same_figures(old(self)),
            final(self).labels.limit_spec() == old(self).labels.limit_spec(),
            r == admits(old(self).labels@, old(self).labels.limit_spec(), label@, value@),
            final(self).labels@ == old(self).labels@.insert(
                label@,
                values_after(
                    old(self).labels@,
                    old(self).labels.limit_spec(),
                    label@,
                    value@,
                ),
            ),
    {
        self.labels.accept(label, value)
    }

    /// The number of values that are admitted for a label so far.
    pub fn label_cardinality(&self, label: &str) -> (r: usize)
        requires
            self.labels.wf(),
        ensures
            r == values_of(self.labels@, label@).len(),
    {
        self.labels.count(label)
    }

    /// The metrics in the Prometheus text format.
    pub fn render(&self) -> (r: String)
        ensures
            r@ == self.exposition(),
    {
        let mut out = String::new();
        push_counter(
            &mut out,
            "ethos_protocol_vaults_total",
            "Total vaults created",
            self.vaults_total,
        );
        push_counter(
            &mut out,
            "ethos_protocol_checkins_total",
            "Total check-ins performed",
            self.checkins_total,
        );
        push_counter(
            &mut out,
            "ethos_protocol_releases_total",
            "Total vault releases triggered",
            self.releases_total,
        );
        push_gauge_i64(
            &mut out,
            "ethos_protocol_active_vaults",
            "Currently active (non-released) vaults",
            self.active_vaults,
        );
        push_counter(
            &mut out,
            "ethos_protocol_request_errors_total",
            "Total API errors",
            self.request_errors_total,
        );
        push_counter(
            &mut out,
            "ethos_protocol_http_requests_total",
            "Total HTTP requests",
            self.http_requests_total,
        );
        push_gauge(
            &mut out,
            "ethos_protocol_contract_paused",
            "1 if contract is paused, 0 otherwise",
            self.contract_paused,
        );
        assert(out@ =~= self.exposition());
        out
    }
}

/// The exposition shows every metric with its value, on a line of its own.
pub proof fn every_metric_is_shown(m: Metrics)
    ensures
        occurs(
            "\n"@ + "ethos_protocol_vaults_total"@ + " "@ + decimal(m.vaults_total as nat)
                + "\n"@,
            m.exposition(),
        ),
        occurs(
            "\n"@ + "ethos_protocol_checkins_total"@ + " "@ + decimal(m.checkins_total as nat)
                + "\n"@,
            m.exposition(),
        ),
        occurs(
            "\n"@ + "ethos_protocol_releases_total"@ + " "@ + decimal(m.releases_total as nat)
                + "\n"@,
            m.exposition(),
        ),
        occurs(
            "\n"@ + "ethos_protocol_active_vaults"@ + " "@ + signed_decimal(m.active_vaults as int)
                + "\n"@,
            m.exposition(),
        ),
        occurs(
            "\n"@ + "ethos_protocol_request_errors_total"@ + " "@ + decimal(m.request_errors_total as nat)
                + "\n"@,
            m.exposition(),
        ),
        occurs(
            "\n"@ + "ethos_protocol_http_requests_total"@ + " "@ + decimal(m.http_requests_total as nat)
                + "\n"@,
            m.exposition(),
        ),
        occurs(
            "\n"@ + "ethos_protocol_contract_paused"@ + " "@ + decimal(m.contract_paused as nat)
                + "\n"@,
            m.exposition(),
        ),
{
    let a = metric_lines(
        "ethos_protocol_vaults_total"@,
        "Total vaults created"@,
        "counter"@,
        decimal(m.vaults_total as nat),
    );
    let b = metric_lines(
        "ethos_protocol_checkins_total"@,
        "Total check-ins performed"@,
        "counter"@,
        decimal(m.checkins_total as nat),
    );
    let c = metric_lines(
        "ethos_protocol_releases_total"@,
        "Total vault releases triggered"@,
        "counter"@,
        decimal(m.releases_total as nat),
    );
    let d = metric_lines(
        "ethos_protocol_active_vaults"@,
        "Currently active (non-released) vaults"@,
        "gauge"@,
        signed_decimal(m.active_vaults as int),
    );
    let e = metric_lines(
        "ethos_protocol_request_errors_total"@,
        "Total API errors"@,
        "counter"@,
        decimal(m.request_errors_total as nat),
    );
    let f = metric_lines(
        "ethos_protocol_http_requests_total"@,
        "Total HTTP requests"@,
        "counter"@,
        decimal(m.http_requests_total as nat),
    );
    let g = metric_lines(
        "ethos_protocol_contract_paused"@,
        "1 if contract is paused, 0 otherwise"@,
        "gauge"@,
        decimal(m.contract_paused as nat),
    );
    let none = Seq::<char>::empty();
    lemma_seven_parts(a, b, c, d, e, f, g);
    lemma_line_shown(
        none,
        "ethos_protocol_vaults_total"@,
        "Total vaults created"@,
        "counter"@,
        decimal(m.vaults_total as nat),
        b + c + d + e + f + g,
    );
    lemma_line_shown(
        a,
        "ethos_protocol_checkins_total"@,
        "Total check-ins performed"@,
        "counter"@,
        decimal(m.checkins_total as nat),
        c + d + e + f + g,
    );
    lemma_line_shown(
        a + b,
        "ethos_protocol_releases_total"@,
        "Total vault releases triggered"@,
        "counter"@,
        decimal(m.releases_total as nat),
        d + e + f + g,
    );
    lemma_line_shown(
        a + b + c,
        "ethos_protocol_active_vaults"@,
        "Currently active (non-released) vaults"@,
        "gauge"@,
        signed_decimal(m.active_vaults as int),
        e + f + g,
    );
    lemma_line_shown(
        a + b + c + d,
        "ethos_protocol_request_errors_total"@,
        "Total API errors"@,
        "counter"@,
        decimal(m.request_errors_total as nat),
        f + g,
    );
    lemma_line_shown(
        a + b + c + d + e,
        "ethos_protocol_http_requests_total"@,
        "Total HTTP requests"@,
        "counter"@,
        decimal(m.http_requests_total as nat),
        g,
    );
    lemma_line_shown(
        a + b + c + d + e + f,
        "ethos_protocol_contract_paused"@,
        "1 if contract is paused, 0 otherwise"@,
        "gauge"@,
        decimal(m.contract_paused as nat),
        none,
    );
}

/// Seven texts in a row, seen as each one between those before and those after it.
proof fn lemma_seven_parts(
    a: Seq<char>,
    b: Seq<char>,
    c: Seq<char>,
    d: Seq<char>,
    e: Seq<char>,
    f: Seq<char>,
    g: Seq<char>,
)
    ensures
        ({
            let all = a + b + c + d + e + f + g;
            let none = Seq::<char>::empty();
            &&& all == none + a + (b + c + d + e + f + g)
            &&& all == a + b + (c + d + e + f + g)
            &&& all == (a + b) + c + (d + e + f + g)
            &&& all == (a + b + c) + d + (e + f + g)
            &&& all == (a + b + c + d) + e + (f + g)
            &&& all == (a + b + c + d + e) + f + g
            &&& all == (a + b + c + d + e + f) + g + none
        }),
{
    let all = a + b + c + d + e + f + g;
    let none = Seq::<char>::empty();
    assert(all =~= none + a + (b + c + d + e + f + g));
    assert(all =~= a + b + (c + d + e + f + g));
    assert(all =~= (a + b) + c + (d + e + f + g));
    assert(all =~= (a + b + c) + d + (e + f + g));
    assert(all =~= (a + b + c + d) + e + (f + g));
    assert(all =~= (a + b + c + d + e + f) + g + none);
}

proof fn lemma_line_shown(
    before: Seq<char>,
    name: Seq<char>,
    help: Seq<char>,
    kind: Seq<char>,
    value: Seq<char>,
    after: Seq<char>,
)
    ensures
        occurs(
            "\n"@ + name + " "@ + value + "\n"@,
            before + metric_lines(name, help, kind, value) + after,
        ),
{
    let head = "# HELP "@ + name + " "@ + help + "\n"@ + "# TYPE "@ + name + " "@ + kind;
    let line = "\n"@ + name + " "@ + value + "\n"@;
    assert(metric_lines(name, help, kind, value) =~= head + line);
    assert(before + metric_lines(name, help, kind, value) + after =~= (before + head) + line
        + after);
    lemma_occurs_between(before + head, line, after);
}

} // verus!
