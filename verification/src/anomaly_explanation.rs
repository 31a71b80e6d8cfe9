//! Explanations of anomalies.
//!
//! For an anomaly of a metric the contributing factors and the suggested
//! remedies are found from the metric's name and from how its value compares
//! with the baseline.

use vstd::prelude::*;

use crate::ids::{is_new_id, new_id};
use crate::measure::Measure;
use crate::table::Table;
use crate::text::{contains_text, occurs, same};

verus! {

/// Five, the z-score beyond which a deviation is extreme, as its bits.
pub const EXTREME_Z_SCORE: u64 = 0x4014_0000_0000_0000;

/// Something that contributes to an anomaly.
#[derive(Debug)]
pub struct ContributingFactor {
    pub factor: String,
    pub severity: String,
    pub description: String,
}

impl Clone for ContributingFactor {
    fn clone(&self) -> (r: Self)
        ensures
            r == *self,
    {
        ContributingFactor {
            factor: self.factor.clone(),
            severity: self.severity.clone(),
            description: self.description.clone(),
        }
    }
}

/// The kinds of factors.
#[derive(Debug, Clone, Copy, PartialEq, Eq, Structural)]
pub enum FactorKind {
    ExtremeDeviation,
    ResourceSpike,
    PerformanceDegradation,
    ErrorRateIncrease,
}

impl FactorKind {
    /// The name of the factor.
    pub open spec fn name(self) -> Seq<char> {
        match self {
            FactorKind::ExtremeDeviation => "extreme_deviation"@,
            FactorKind::ResourceSpike => "resource_spike"@,
            FactorKind::PerformanceDegradation => "performance_degradation"@,
            FactorKind::ErrorRateIncrease => "error_rate_increase"@,
        }
    }

    /// The severity of the factor.
    pub open spec fn severity(self) -> Seq<char> {
        match self {
            FactorKind::ExtremeDeviation => "critical"@,
            _ => "high"@,
        }
    }

    /// The factor in words.
    pub open spec fn description(self) -> Seq<char> {
        match self {
            FactorKind::ExtremeDeviation => "Value is extremely far from baseline."@,
            FactorKind::ResourceSpike => "Resource utilization significantly elevated."@,
            FactorKind::PerformanceDegradation => "Response times have doubled or more."@,
            FactorKind::ErrorRateIncrease => "Error rate has spiked above normal levels."@,
        }
    }

    /// The action that is suggested for the factor.
    pub open spec fn action(self) -> Seq<char> {
        match self {
            FactorKind::ExtremeDeviation => "verify_data_pipeline"@,
            FactorKind::ResourceSpike => "scale_up_resources"@,
            FactorKind::PerformanceDegradation => "investigate_slow_queries"@,
            FactorKind::ErrorRateIncrease => "check_service_logs"@,
        }
    }

    /// The minutes that the suggested action takes.
    pub open spec fn minutes(self) -> u32 {
        match self {
            FactorKind::ExtremeDeviation => 30,
            FactorKind::ResourceSpike => 10,
            FactorKind::PerformanceDegradation => 15,
            FactorKind::ErrorRateIncrease => 5,
        }
    }

    /// The factor of this kind.
    fn factor(self) -> (r: ContributingFactor)
        ensures
            is_factor(r, self),
    {
        match self {
            FactorKind::ExtremeDeviation => ContributingFactor {
                factor: "extreme_deviation".to_owned(),
                severity: "critical".to_owned(),
                description: "Value is extremely far from baseline.".to_owned(),
            },
            FactorKind::ResourceSpike => ContributingFactor {
                factor: "resource_spike".to_owned(),
                severity: "high".to_owned(),
                description: "Resource utilization significantly elevated.".to_owned(),
            },
            FactorKind::PerformanceDegradation => ContributingFactor {
                factor: "performance_degradation".to_owned(),
                severity: "high".to_owned(),
                description: "Response times have doubled or more.".to_owned(),
            },
            FactorKind::ErrorRateIncrease => ContributingFactor {
                factor: "error_rate_increase".to_owned(),
                severity: "high".to_owned(),
                description: "Error rate has spiked above normal levels.".to_owned(),
            },
        }
    }

    /// The remedy for factors of this kind.
    fn remedy(self) -> (r: RemediationSuggestion)
        ensures
            is_remedy(r, self),
    {
        match self {
            FactorKind::ExtremeDeviation => RemediationSuggestion {
                action: "verify_data_pipeline".to_owned(),
                priority: "critical".to_owned(),
                estimated_time_minutes: 30,
            },
            FactorKind::ResourceSpike => RemediationSuggestion {
                action: "scale_up_resources".to_owned(),
                priority: "high".to_owned(),
                estimated_time_minutes: 10,
            },
            FactorKind::PerformanceDegradation => RemediationSuggestion {
                action: "investigate_slow_queries".to_owned(),
                priority: "high".to_owned(),
                estimated_time_minutes: 15,
            },
            FactorKind::ErrorRateIncrease => RemediationSuggestion {
                action: "check_service_logs".to_owned(),
                priority: "high".to_owned(),
                estimated_time_minutes: 5,
            },
        }
    }

    /// The name of the factor.
    fn name_text(self) -> (r: &'static str)
        ensures
            r@ == self.name(),
    {
        match self {
            FactorKind::ExtremeDeviation => "extreme_deviation",
            FactorKind::ResourceSpike => "resource_spike",
            FactorKind::PerformanceDegradation => "performance_degradation",
            FactorKind::ErrorRateIncrease => "error_rate_increase",
        }
    }
}

/// The factor is the one of a kind.
pub open spec fn is_factor(f: ContributingFactor, kind: FactorKind) -> bool {
    f.factor@ == kind.name() && f.severity@ == kind.severity() && f.description@
        == kind.description()
}

/// The factors are those of the kinds.
pub open spec fn are_factors(list: Seq<ContributingFactor>, kinds: Seq<FactorKind>) -> bool {
    list.len() == kinds.len() && forall|i: int|
        0 <= i < list.len() ==> is_factor(#[trigger] list[i], kinds[i])
}

/// Something to be done about an anomaly.
#[derive(Debug)]
pub struct RemediationSuggestion {
    pub action: String,
    pub priority: String,
    pub estimated_time_minutes: u32,
}

impl Clone for RemediationSuggestion {
    fn clone(&self) -> (r: Self)
        ensures
            r == *self,
    {
        RemediationSuggestion {
            action: self.action.clone(),
            priority: self.priority.clone(),
            estimated_time_minutes: self.estimated_time_minutes,
        }
    }
}

/// The suggestion is the remedy for factors of a kind.
pub open spec fn is_remedy(s: RemediationSuggestion, kind: FactorKind) -> bool {
    s.action@ == kind.action() && s.priority@ == kind.severity() && s.estimated_time_minutes
        == kind.minutes()
}

/// The suggestions are the remedies for factors of the kinds.
pub open spec fn are_remedies(list: Seq<RemediationSuggestion>, kinds: Seq<FactorKind>) -> bool {
    list.len() == kinds.len() && forall|i: int|
        0 <= i < list.len() ==> is_remedy(#[trigger] list[i], kinds[i])
}

/// What was observed of an anomaly. The figures that take floating-point
/// arithmetic come with it.
#[derive(Debug, Clone, Copy, PartialEq, Eq, Structural)]
pub struct Deviation {
    pub value: Measure,
    pub baseline_mean: Measure,
    pub z_score: Measure,
    /// One and a half times the baseline.
    pub raised_baseline: Measure,
    /// Twice the baseline.
    pub doubled_baseline: Measure,
}

/// The figures of an anomaly as texts: the deviation in percent with one
/// decimal place, the others with two.
pub struct DeviationTexts {
    pub percent: String,
    pub value: String,
    pub baseline: String,
    pub z_score: String,
}

/// The factor contributes to an anomaly of the metric.
pub open spec fn contributes(kind: FactorKind, metric: Seq<char>, d: Deviation) -> bool {
    match kind {
        FactorKind::ExtremeDeviation => d.z_score.abs_spec().gt_spec(
            Measure { bits: EXTREME_Z_SCORE },
        ),
        FactorKind::ResourceSpike => (occurs("cpu"@, metric) || occurs("memory"@, metric))
            && d.value.gt_spec(d.raised_baseline),
        FactorKind::PerformanceDegradation => (occurs("latency"@, metric) || occurs(
            "response_time"@,
            metric,
        )) && d.value.gt_spec(d.doubled_baseline),
        FactorKind::ErrorRateIncrease => occurs("error"@, metric),
    }
}

/// The kind, if the condition holds.
pub open spec fn kind_if(kind: FactorKind, condition: bool) -> Seq<FactorKind> {
    if condition {
        seq![kind]
    } else {
        Seq::empty()
    }
}

/// The kinds of the factors that contribute to an anomaly, in the order in
/// which they are named.
pub open spec fn factor_kinds(metric: Seq<char>, d: Deviation) -> Seq<FactorKind> {
    kind_if(
        FactorKind::ExtremeDeviation,
        contributes(FactorKind::ExtremeDeviation, metric, d),
    ) + kind_if(FactorKind::ResourceSpike, contributes(FactorKind::ResourceSpike, metric, d))
        + kind_if(
        FactorKind::PerformanceDegradation,
        contributes(FactorKind::PerformanceDegradation, metric, d),
    ) + kind_if(
        FactorKind::ErrorRateIncrease,
        contributes(FactorKind::ErrorRateIncrease, metric, d),
    )
}

/// A factor with the name of a kind is in the list.
pub open spec fn names_kind(factors: Seq<ContributingFactor>, kind: FactorKind) -> bool {
    exists|i: int| 0 <= i < factors.len() && (#[trigger] factors[i]).factor@ == kind.name()
}

/// The kinds of the remedies for the factors, in the order in which they are
/// suggested.
pub open spec fn remedy_kinds(factors: Seq<ContributingFactor>) -> Seq<FactorKind> {
    kind_if(FactorKind::ResourceSpike, names_kind(factors, FactorKind::ResourceSpike)) + kind_if(
        FactorKind::PerformanceDegradation,
        names_kind(factors, FactorKind::PerformanceDegradation),
    ) + kind_if(
        FactorKind::ErrorRateIncrease,
        names_kind(factors, FactorKind::ErrorRateIncrease),
    ) + kind_if(
        FactorKind::ExtremeDeviation,
        names_kind(factors, FactorKind::ExtremeDeviation),
    )
}

/// An anomaly in words.
pub open spec fn sentence(
    metric: Seq<char>,
    increased: bool,
    percent: Seq<char>,
    value: Seq<char>,
    baseline: Seq<char>,
    z_score: Seq<char>,
) -> Seq<char> {
    "Metric '"@ + metric + "' "@ + (if increased {
        "increased"@
    } else {
        "decreased"@
    }) + " by "@ + percent + "% (value: "@ + value + ", baseline: "@ + baseline + ", z-score: "@
        + z_score + ")"@
}

/// The explanation of an anomaly.
#[derive(Debug)]
pub struct AnomalyExplanation {
    pub anomaly_id: String,
    pub metric: String,
    pub explanation: String,
    pub contributing_factors: Vec<ContributingFactor>,
    pub remediation_suggestions: Vec<RemediationSuggestion>,
    pub confidence: Measure,
}

/// What an explanation says.
pub struct ExplanationModel {
    pub anomaly_id: Seq<char>,
    pub metric: Seq<char>,
    pub explanation: Seq<char>,
    pub contributing_factors: Seq<ContributingFactor>,
    pub remediation_suggestions: Seq<RemediationSuggestion>,
    pub confidence: Measure,
}

impl AnomalyExplanation {
    pub open spec fn view(&self) -> ExplanationModel {
        ExplanationModel {
            anomaly_id: self.anomaly_id@,
            metric: self.metric@,
            explanation: self.explanation@,
            contributing_factors: self.contributing_factors@,
            remediation_suggestions: self.remediation_suggestions@,
            confidence: self.confidence,
        }
    }

    /// A copy.
    pub fn copy(&self) -> (r: Self)
        ensures
            r@ == self@,
    {
        let contributing_factors = self.contributing_factors.clone();
        let remediation_suggestions = self.remediation_suggestions.clone();
        assert(contributing_factors@ =~= self.contributing_factors@);
        assert(remediation_suggestions@ =~= self.remediation_suggestions@);
        AnomalyExplanation {
            anomaly_id: self.anomaly_id.clone(),
            metric: self.metric.clone(),
            explanation: self.explanation.clone(),
            contributing_factors,
            remediation_suggestions,
            confidence: self.confidence,
        }
    }
}

/// What is to be explained.
pub struct ExplainRequest {
    pub metric: String,
    pub deviation: Deviation,
    pub texts: DeviationTexts,
    /// A tenth of the z-score without its sign, at most 1, in single
    /// precision.
    pub confidence: Measure,
}

/// The model is the explanation of an anomaly.
pub open spec fn explains(m: ExplanationModel, id: Seq<char>, request: ExplainRequest) -> bool {
    &&& m.anomaly_id == id
    &&& m.metric == request.metric@
    &&& m.explanation == sentence(
        request.metric@,
        request.deviation.value.gt_spec(request.deviation.baseline_mean),
        request.texts.percent@,
        request.texts.value@,
        request.texts.baseline@,
        request.texts.z_score@,
    )
    &&& are_factors(
        m.contributing_factors,
        factor_kinds(request.metric@, request.deviation),
    )
    &&& are_remedies(m.remediation_suggestions, remedy_kinds(m.contributing_factors))
    &&& m.confidence == request.confidence
}

/// Whether a factor contributes to an anomaly of the metric.
fn applies(kind: FactorKind, metric: &str, d: &Deviation) -> (r: bool)
    ensures
        r == contributes(kind, metric@, *d),
{
    match kind {
        FactorKind::ExtremeDeviation => d.z_score.abs().gt(&Measure { bits: EXTREME_Z_SCORE }),
        FactorKind::ResourceSpike => (contains_text(metric, "cpu") || contains_text(
            metric,
            "memory",
        )) && d.value.gt(&d.raised_baseline),
        FactorKind::PerformanceDegradation => (contains_text(metric, "latency") || contains_text(
            metric,
            "response_time",
        )) && d.value.gt(&d.doubled_baseline),
        FactorKind::ErrorRateIncrease => contains_text(metric, "error"),
    }
}

/// The factors that contribute to an anomaly of the metric.
pub fn identify_factors(metric: &str, d: &Deviation) -> (r: Vec<ContributingFactor>)
    ensures
        are_factors(r@, factor_kinds(metric@, *d)),
{
    let mut out: Vec<ContributingFactor> = Vec::new();
    let ghost a = kind_if(
        FactorKind::ExtremeDeviation,
        contributes(FactorKind::ExtremeDeviation, metric@, *d),
    );
    if applies(FactorKind::ExtremeDeviation, metric, d) {
        out.push(FactorKind::ExtremeDeviation.factor());
    }
    assert(are_factors(out@, a));
    let ghost b = a + kind_if(
        FactorKind::ResourceSpike,
        contributes(FactorKind::ResourceSpike, metric@, *d),
    );
    if applies(FactorKind::ResourceSpike, metric, d) {
        out.push(FactorKind::ResourceSpike.factor());
    }
    assert(are_factors(out@, b));
    let ghost c = b + kind_if(
        FactorKind::PerformanceDegradation,
        contributes(FactorKind::PerformanceDegradation, metric@, *d),
    );
    if applies(FactorKind::PerformanceDegradation, metric, d) {
        out.push(FactorKind::PerformanceDegradation.factor());
    }
    assert(are_factors(out@, c));
    if applies(FactorKind::ErrorRateIncrease, metric, d) {
        out.push(FactorKind::ErrorRateIncrease.factor());
    }
    out
}

/// Whether a factor with the name of a kind is in the list.
fn lists_kind(factors: &Vec<ContributingFactor>, kind: FactorKind) -> (r: bool)
    ensures
        r == names_kind(factors@, kind),
{
    let name = kind.name_text();
    let mut i: usize = 0;
    while i < factors.len()
        invariant
            i <= factors.len(),
            name@ == kind.name(),
            forall|j: int| 0 <= j < i ==> (#[trigger] factors@[j]).factor@ != kind.name(),
        decreases factors.len() - i,
    {
        if same(factors[i].factor.as_str(), name) {
            return true;
        }
        i = i + 1;
    }
    false
}

/// The remedies for the factors.
pub fn suggest_remediation(factors: &Vec<ContributingFactor>) -> (r: Vec<RemediationSuggestion>)
    ensures
        are_remedies(r@, remedy_kinds(factors@)),
{
    let mut out: Vec<RemediationSuggestion> = Vec::new();
    let ghost a = kind_if(
        FactorKind::ResourceSpike,
        names_kind(factors@, FactorKind::ResourceSpike),
    );
    if lists_kind(factors, FactorKind::ResourceSpike) {
        out.push(FactorKind::ResourceSpike.remedy());
    }
    assert(are_remedies(out@, a));
    let ghost b = a + kind_if(
        FactorKind::PerformanceDegradation,
        names_kind(factors@, FactorKind::PerformanceDegradation),
    );
    if lists_kind(factors, FactorKind::PerformanceDegradation) {
        out.push(FactorKind::PerformanceDegradation.remedy());
    }
    assert(are_remedies(out@, b));
    let ghost c = b + kind_if(
        FactorKind::ErrorRateIncrease,
        names_kind(factors@, FactorKind::ErrorRateIncrease),
    );
    if lists_kind(factors, FactorKind::ErrorRateIncrease) {
        out.push(FactorKind::ErrorRateIncrease.remedy());
    }
    assert(are_remedies(out@, c));
    if lists_kind(factors, FactorKind::ExtremeDeviation) {
        out.push(FactorKind::ExtremeDeviation.remedy());
    }
    out
}

/// An anomaly in words.
pub fn generate_explanation(metric: &str, d: &Deviation, texts: &DeviationTexts) -> (r: String)
    ensures
        r@ == sentence(
            metric@,
            d.value.gt_spec(d.baseline_mean),
            texts.percent@,
            texts.value@,
            texts.baseline@,
            texts.z_score@,
        ),
{
    let mut out = "Metric '".to_owned();
    out.append(metric);
    out.append("' ");
    if d.value.gt(&d.baseline_mean) {
        out.append("increased");
    } else {
        out.append("decreased");
    }
    out.append(" by ");
    out.append(texts.percent.as_str());
    out.append("% (value: ");
    out.append(texts.value.as_str());
    out.append(", baseline: ");
    out.append(texts.baseline.as_str());
    out.append(", z-score: ");
    out.append(texts.z_score.as_str());
    out.append(")");
    out
}

/// The explanations, by anomaly.
pub struct ExplanationStore {
    explanations: Table<AnomalyExplanation>,
}

impl Default for ExplanationStore {
    /// A store without explanations.
    fn default() -> (r: Self)
        ensures
            r.wf(),
            r@ == Map::<Seq<char>, ExplanationModel>::empty(),
    {
        Self::new()
    }
}

impl ExplanationStore {
    pub closed spec fn view(&self) -> Map<Seq<char>, ExplanationModel> {
        self.explanations@.map_values(|e: AnomalyExplanation| e@)
    }

    pub closed spec fn wf(&self) -> bool {
        self.explanations.wf()
    }

    /// A store without explanations.
    pub fn new() -> (r: Self)
        ensures
            r.wf(),
            r@ == Map::<Seq<char>, ExplanationModel>::empty(),
    {
        let r = ExplanationStore { explanations: Table::new() };
        assert(r@ =~= Map::<Seq<char>, ExplanationModel>::empty());
        r
    }

    /// Explains an anomaly and keeps the explanation.
    pub fn explain_anomaly(&mut self, anomaly_id: &str, request: &ExplainRequest) -> (r:
        AnomalyExplanation)
        requires
            old(self).wf(),
        ensures
            final(self).wf(),
            explains(r@, anomaly_id@, *request),
            final(self)@ == old(self)@.insert(anomaly_id@, r@),
    {
        let metric = request.metric.as_str();
        let factors = identify_factors(metric, &request.deviation);
        let suggestions = suggest_remediation(&factors);
        let r = AnomalyExplanation {
            anomaly_id: anomaly_id.to_owned(),
            metric: metric.to_owned(),
            explanation: generate_explanation(metric, &request.deviation, &request.texts),
            contributing_factors: factors,
            remediation_suggestions: suggestions,
            confidence: request.confidence,
        };
        self.explanations.insert(anomaly_id.to_owned(), r.copy());
        assert(self@ =~= old(self)@.insert(anomaly_id@, r@));
        r
    }

    /// The explanation of an anomaly, if there is one.
    pub fn get_explanation(&self, anomaly_id: &str) -> (r: Option<AnomalyExplanation>)
        requires
            self.wf(),
        ensures
            match r {
                Some(e) => self@.contains_key(anomaly_id@) && e@ == self@[anomaly_id@],
                None => !self@.contains_key(anomaly_id@),
            },
    {
        match self.explanations.get(anomaly_id) {
            Some(e) => Some(e.copy()),
            None => None,
        }
    }
}

/// Explains an anomaly under a new id and keeps the explanation.
pub fn explain_anomaly_handler(store: &mut ExplanationStore, request: &ExplainRequest) -> (r:
    AnomalyExplanation)
    requires
        old(store).wf(),
    ensures
        final(store).wf(),
        is_new_id(r@.anomaly_id),
        explains(r@, r@.anomaly_id, *request),
        final(store)@ == old(store)@.insert(r@.anomaly_id, r@),
{
    let anomaly_id = new_id();
    store.explain_anomaly(anomaly_id.as_str(), request)
}

/// The names of the kinds are distinct.
proof fn lemma_names_are_distinct(a: FactorKind, b: FactorKind)
    requires
        a != b,
    ensures
        a.name() != b.name(),
{
    reveal_strlit("extreme_deviation");
    reveal_strlit("resource_spike");
    reveal_strlit("performance_degradation");
    reveal_strlit("error_rate_increase");
    assert(a.name().len() != b.name().len());
}

/// Every contributing factor has a remedy, and every remedy a factor: the
/// kinds of the remedies are those of the factors.
pub proof fn every_factor_has_a_remedy(
    metric: Seq<char>,
    d: Deviation,
    factors: Seq<ContributingFactor>,
    kind: FactorKind,
)
    requires
        are_factors(factors, factor_kinds(metric, d)),
    ensures
        remedy_kinds(factors).contains(kind) <==> contributes(kind, metric, d),
        remedy_kinds(factors).len() == factors.len(),
{
    let a = FactorKind::ExtremeDeviation;
    let b = FactorKind::ResourceSpike;
    let c = FactorKind::PerformanceDegradation;
    let e = FactorKind::ErrorRateIncrease;
    lemma_names_contributors(metric, d, factors, a);
    lemma_names_contributors(metric, d, factors, b);
    lemma_names_contributors(metric, d, factors, c);
    lemma_names_contributors(metric, d, factors, e);
    let with_a = contributes(a, metric, d);
    let with_b = contributes(b, metric, d);
    let with_c = contributes(c, metric, d);
    let with_e = contributes(e, metric, d);
    lemma_chosen(a, with_a, b, with_b, c, with_c, e, with_e, kind);
    lemma_chosen(b, with_b, c, with_c, e, with_e, a, with_a, kind);
}

/// A list of chosen kinds holds those that were chosen.
proof fn lemma_chosen(
    a: FactorKind,
    with_a: bool,
    b: FactorKind,
    with_b: bool,
    c: FactorKind,
    with_c: bool,
    e: FactorKind,
    with_e: bool,
    kind: FactorKind,
)
    ensures
        (kind_if(a, with_a) + kind_if(b, with_b) + kind_if(c, with_c) + kind_if(
            e,
            with_e,
        )).contains(kind) <==> (kind == a && with_a) || (kind == b && with_b) || (kind == c
            && with_c) || (kind == e && with_e),
        (kind_if(a, with_a) + kind_if(b, with_b) + kind_if(c, with_c) + kind_if(
            e,
            with_e,
        )).len() == (if with_a {
            1int
        } else {
            0
        }) + (if with_b {
            1int
        } else {
            0
        }) + (if with_c {
            1int
        } else {
            0
        }) + (if with_e {
            1int
        } else {
            0
        }),
{
    let p = kind_if(a, with_a);
    let q = kind_if(b, with_b);
    let r = kind_if(c, with_c);
    let s = kind_if(e, with_e);
    let all = p + q + r + s;
    if kind == a && with_a {
        assert(all[0] == kind);
    } else if kind == b && with_b {
        assert(all[p.len() as int] == kind);
    } else if kind == c && with_c {
        assert(all[(p.len() + q.len()) as int] == kind);
    } else if kind == e && with_e {
        assert(all[(p.len() + q.len() + r.len()) as int] == kind);
    } else if all.contains(kind) {
        let i = all.index_of(kind);
        assert(all[i] == kind);
    }
}

/// The factors name the kinds that contribute.
proof fn lemma_names_contributors(
    metric: Seq<char>,
    d: Deviation,
    factors: Seq<ContributingFactor>,
    kind: FactorKind,
)
    requires
        are_factors(factors, factor_kinds(metric, d)),
    ensures
        names_kind(factors, kind) == contributes(kind, metric, d),
{
    let kinds = factor_kinds(metric, d);
    lemma_chosen(
        FactorKind::ExtremeDeviation,
        contributes(FactorKind::ExtremeDeviation, metric, d),
        FactorKind::ResourceSpike,
        contributes(FactorKind::ResourceSpike, metric, d),
        FactorKind::PerformanceDegradation,
        contributes(FactorKind::PerformanceDegradation, metric, d),
        FactorKind::ErrorRateIncrease,
        contributes(FactorKind::ErrorRateIncrease, metric, d),
        kind,
    );
    assert(kinds.contains(kind) <==> contributes(kind, metric, d));
    if names_kind(factors, kind) {
        let i = choose|i: int|
            0 <= i < factors.len() && (#[trigger] factors[i]).factor@ == kind.name();
        assert(is_factor(factors[i], kinds[i]));
        if kinds[i] != kind {
            lemma_names_are_distinct(kinds[i], kind);
        }
        assert(kinds[i] == kind);
    }
    if kinds.contains(kind) {
        let i = kinds.index_of(kind);
        assert(is_factor(factors[i], kinds[i]));
    }
}

/// The factors that are named are those that contribute: a score beyond five, a metric of
/// CPU or memory above one and a half times its baseline, a metric of latency or response
/// time above twice its baseline, and any metric of errors. For each there is the remedy
/// that goes with it, and the anomaly is said to have increased exactly where its value
/// exceeds the baseline.
pub proof fn explanations_name_what_contributes(
    m: ExplanationModel,
    id: Seq<char>,
    request: ExplainRequest,
)
    requires
        explains(m, id, request),
    ensures
        ({
            let metric = request.metric@;
            let d = request.deviation;
            &&& names(m.contributing_factors, "extreme_deviation"@)
                <==> d.z_score.abs_spec().gt_spec(Measure { bits: 0x4014_0000_0000_0000 })
            &&& names(m.contributing_factors, "resource_spike"@) <==> (occurs("cpu"@, metric)
                || occurs("memory"@, metric)) && d.value.gt_spec(d.raised_baseline)
            &&& names(m.contributing_factors, "performance_degradation"@) <==> (occurs(
                "latency"@,
                metric,
            ) || occurs("response_time"@, metric)) && d.value.gt_spec(d.doubled_baseline)
            &&& names(m.contributing_factors, "error_rate_increase"@) <==> occurs("error"@, metric)
            &&& suggests(m.remediation_suggestions, "verify_data_pipeline"@) <==> names(
                m.contributing_factors,
                "extreme_deviation"@,
            )
            &&& suggests(m.remediation_suggestions, "scale_up_resources"@) <==> names(
                m.contributing_factors,
                "resource_spike"@,
            )
            &&& suggests(m.remediation_suggestions, "investigate_slow_queries"@) <==> names(
                m.contributing_factors,
                "performance_degradation"@,
            )
            &&& suggests(m.remediation_suggestions, "check_service_logs"@) <==> names(
                m.contributing_factors,
                "error_rate_increase"@,
            )
            &&& m.contributing_factors.len() == m.remediation_suggestions.len()
            &&& m.anomaly_id == id
            &&& m.metric == metric
        }),
        request.deviation.value.gt_spec(request.deviation.baseline_mean) ==> occurs(
            "increased"@,
            m.explanation,
        ),
        !request.deviation.value.gt_spec(request.deviation.baseline_mean) ==> occurs(
            "decreased"@,
            m.explanation,
        ),
        occurs(request.metric@, m.explanation),
{
    let metric = request.metric@;
    let d = request.deviation;
    let factors = m.contributing_factors;
    let kinds = remedy_kinds(factors);
    lemma_names_contributors(metric, d, factors, FactorKind::ExtremeDeviation);
    lemma_names_contributors(metric, d, factors, FactorKind::ResourceSpike);
    lemma_names_contributors(metric, d, factors, FactorKind::PerformanceDegradation);
    lemma_names_contributors(metric, d, factors, FactorKind::ErrorRateIncrease);
    every_factor_has_a_remedy(metric, d, factors, FactorKind::ExtremeDeviation);
    every_factor_has_a_remedy(metric, d, factors, FactorKind::ResourceSpike);
    every_factor_has_a_remedy(metric, d, factors, FactorKind::PerformanceDegradation);
    every_factor_has_a_remedy(metric, d, factors, FactorKind::ErrorRateIncrease);
    lemma_remedies_suggest(m.remediation_suggestions, kinds, FactorKind::ExtremeDeviation);
    lemma_remedies_suggest(m.remediation_suggestions, kinds, FactorKind::ResourceSpike);
    lemma_remedies_suggest(m.remediation_suggestions, kinds, FactorKind::PerformanceDegradation);
    lemma_remedies_suggest(m.remediation_suggestions, kinds, FactorKind::ErrorRateIncrease);
    let direction = if d.value.gt_spec(d.baseline_mean) {
        "increased"@
    } else {
        "decreased"@
    };
    let head = "Metric '"@;
    let middle = "' "@;
    let tail = " by "@ + request.texts.percent@ + "% (value: "@ + request.texts.value@
        + ", baseline: "@ + request.texts.baseline@ + ", z-score: "@ + request.texts.z_score@
        + ")"@;
    assert(m.explanation =~= (head + metric + middle) + direction + tail);
    assert(m.explanation =~= head + metric + (middle + direction + tail));
    crate::text::lemma_occurs_between(head + metric + middle, direction, tail);
    crate::text::lemma_occurs_between(head, metric, middle + direction + tail);
}

/// A factor of the name is in the list.
pub open spec fn names(factors: Seq<ContributingFactor>, name: Seq<char>) -> bool {
    exists|i: int| 0 <= i < factors.len() && (#[trigger] factors[i]).factor@ == name
}

/// The action is suggested.
pub open spec fn suggests(list: Seq<RemediationSuggestion>, action: Seq<char>) -> bool {
    exists|i: int| 0 <= i < list.len() && (#[trigger] list[i]).action@ == action
}

proof fn lemma_actions_are_distinct(a: FactorKind, b: FactorKind)
    requires
        a != b,
    ensures
        a.action() != b.action(),
{
    reveal_strlit("verify_data_pipeline");
    reveal_strlit("scale_up_resources");
    reveal_strlit("investigate_slow_queries");
    reveal_strlit("check_service_logs");
    assert("verify_data_pipeline"@[0] == 'v');
    assert("scale_up_resources"@[0] == 's');
    assert("investigate_slow_queries"@[0] == 'i');
    assert("check_service_logs"@[0] == 'c');
}

proof fn lemma_remedies_suggest(
    list: Seq<RemediationSuggestion>,
    kinds: Seq<FactorKind>,
    kind: FactorKind,
)
    requires
        are_remedies(list, kinds),
    ensures
        suggests(list, kind.action()) <==> kinds.contains(kind),
{
    if suggests(list, kind.action()) {
        let i = choose|i: int| 0 <= i < list.len() && (#[trigger] list[i]).action@ == kind.action();
        assert(is_remedy(list[i], kinds[i]));
        if kinds[i] != kind {
            lemma_actions_are_distinct(kinds[i], kind);
        }
    }
    if kinds.contains(kind) {
        let i = kinds.index_of(kind);
        assert(is_remedy(list[i], kinds[i]));
    }
}

/// An extreme deviation is critical and any other factor high; its remedy has the same
/// priority, and takes half an hour, ten minutes for resources, a quarter of an hour for
/// performance and five minutes for errors.
pub proof fn factors_have_their_weight(
    f: ContributingFactor,
    s: RemediationSuggestion,
    kind: FactorKind,
)
    requires
        is_factor(f, kind),
        is_remedy(s, kind),
    ensures
        f.severity@ == s.priority@,
        kind is ExtremeDeviation ==> f.severity@ == "critical"@ && s.estimated_time_minutes == 30,
        kind is ResourceSpike ==> f.severity@ == "high"@ && s.estimated_time_minutes == 10,
        kind is PerformanceDegradation ==> f.severity@ == "high"@ && s.estimated_time_minutes == 15,
        kind is ErrorRateIncrease ==> f.severity@ == "high"@ && s.estimated_time_minutes == 5,
{
}

} // verus!
