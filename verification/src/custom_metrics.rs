//! A registry of custom metrics.
//!
//! Operators register metrics of their own. Label values beyond the bound of
//! a label are dropped from what is recorded.

use vstd::prelude::*;

use crate::cardinality::{admits, values_after, values_of, LabelCardinality};
use crate::table::Table;
use crate::text::{is_blank, trimmed};

verus! {

/// The number of values per label that is admitted, unless set otherwise.
pub const DEFAULT_LABEL_CARDINALITY_LIMIT: usize = 100;

/// A custom metric.
#[derive(Debug, Clone)]
pub struct CustomMetric {
    pub name: String,
    pub help: String,
    pub labels: Vec<String>,
}

/// Why a metric cannot be registered.
#[derive(Debug, PartialEq, Eq)]
pub enum CustomMetricError {
    AlreadyRegistered(String),
    InvalidDefinition(String),
}

impl CustomMetricError {
    pub open spec fn message_spec(&self) -> Seq<char> {
        match self {
            CustomMetricError::AlreadyRegistered(name) => "custom metric '"@ + name@
                + "' is already registered"@,
            CustomMetricError::InvalidDefinition(reason) => "invalid custom metric definition: "@
                + reason@,
        }
    }

    /// The error in words.
    pub fn message(&self) -> (r: String)
        ensures
            r@ == self.message_spec(),
    {
        match self {
            CustomMetricError::AlreadyRegistered(name) => {
                let mut out = "custom metric '".to_owned();
                out.append(name.as_str());
                out.append("' is already registered");
                out
            },
            CustomMetricError::InvalidDefinition(reason) => {
                let mut out = "invalid custom metric definition: ".to_owned();
                out.append(reason.as_str());
                out
            },
        }
    }
}

/// The labels that are admitted.
pub open spec fn admitted_labels(
    seen: Map<Seq<char>, Set<Seq<char>>>,
    limit: nat,
    labels: Map<Seq<char>, String>,
) -> Map<Seq<char>, Seq<char>> {
    Map::new(
        |label: Seq<char>|
            labels.contains_key(label) && admits(seen, limit, label, labels[label]@),
        |label: Seq<char>| labels[label]@,
    )
}

/// The values of every label after the labels were offered.
pub open spec fn labels_offered(
    before: Map<Seq<char>, Set<Seq<char>>>,
    limit: nat,
    labels: Map<Seq<char>, String>,
    after: Map<Seq<char>, Set<Seq<char>>>,
) -> bool {
    forall|label: Seq<char>| #[trigger]
        values_of(after, label) == if labels.contains_key(label) {
            values_after(before, limit, label, labels[label]@)
        } else {
            values_of(before, label)
        }
}

/// The texts of a map of strings.
pub open spec fn map_texts(m: Map<Seq<char>, String>) -> Map<Seq<char>, Seq<char>> {
    m.map_values(|s: String| s@)
}

/// What registering a metric does to the metrics and what it is answered.
pub open spec fn registered(
    before: Map<Seq<char>, CustomMetric>,
    metric: CustomMetric,
    after: Map<Seq<char>, CustomMetric>,
    r: Result<(), CustomMetricError>,
) -> bool {
    if trimmed(metric.name@).len() == 0 {
        &&& r is Err
        &&& r->Err_0 is InvalidDefinition
        &&& r->Err_0->InvalidDefinition_0@ == "metric name must not be empty"@
        &&& after == before
    } else if before.contains_key(metric.name@) {
        &&& r == Err::<(), CustomMetricError>(CustomMetricError::AlreadyRegistered(metric.name))
        &&& after == before
    } else {
        &&& r is Ok
        &&& after == before.insert(metric.name@, metric)
    }
}

/// The custom metrics, and the values of their labels.
pub struct CustomMetricsRegistry {
    metrics: Table<CustomMetric>,
    labels: LabelCardinality,
}

impl Default for CustomMetricsRegistry {
    fn default() -> (r: Self)
        ensures
            r.wf(),
            r@ == Map::<Seq<char>, CustomMetric>::empty(),
            r.seen() == Map::<Seq<char>, Set<Seq<char>>>::empty(),
            r.limit() == DEFAULT_LABEL_CARDINALITY_LIMIT,
            r.limit() == 100,
    {
        Self::new(DEFAULT_LABEL_CARDINALITY_LIMIT)
    }
}

impl CustomMetricsRegistry {
    pub closed spec fn view(&self) -> Map<Seq<char>, CustomMetric> {
        self.metrics@
    }

    /// The values that were admitted for each label.
    pub closed spec fn seen(&self) -> Map<Seq<char>, Set<Seq<char>>> {
        self.labels@
    }

    /// The number of values that are admitted per label.
    pub closed spec fn limit(&self) -> nat {
        self.labels.limit_spec()
    }

    pub closed spec fn wf(&self) -> bool {
        self.metrics.wf() && self.labels.wf()
    }

    /// No label has more values than are admitted.
    pub proof fn labels_stay_within_limit(&self, label: Seq<char>)
        requires
            self.wf(),
        ensures
            values_of(self.seen(), label).finite(),
            values_of(self.seen(), label).len() <= self.limit(),
    {
        self.labels.stays_within_limit(label);
    }

    /// A registry without metrics, with the given bound on labels.
    pub fn new(label_cardinality_limit: usize) -> (r: Self)
        ensures
            r.wf(),
            r@ == Map::<Seq<char>, CustomMetric>::empty(),
            r.seen() == Map::<Seq<char>, Set<Seq<char>>>::empty(),
            r.limit() == label_cardinality_limit,
    {
        CustomMetricsRegistry {
            metrics: Table::new(),
            labels: LabelCardinality::new(label_cardinality_limit),
        }
    }

    /// Registers a metric. Its name must not be blank, nor taken.
    pub fn register(&mut self, metric: CustomMetric) -> (r: Result<(), CustomMetricError>)
        requires
            old(self).wf(),
        ensures
            final(self).wf(),
            final(self).seen() == old(self).seen(),
            final(self).limit() == old(self).limit(),
            registered(old(self)@, metric, final(self)@, r),
    {
        if is_blank(metric.name.as_str()) {
            return Err(
                CustomMetricError::InvalidDefinition("metric name must not be empty".to_owned()),
            );
        }
        if self.metrics.contains(metric.name.as_str()) {
            return Err(CustomMetricError::AlreadyRegistered(metric.name));
        }
        self.metrics.insert(metric.name.clone(), metric);
        Ok(())
    }

    /// Records an observation with the given labels; returns those that are
    /// admitted.
    pub fn record(&mut self, _metric_name: &str, labels: &Table<String>) -> (r: Table<String>)
        requires
            old(self).wf(),
            labels.wf(),
        ensures
            final(self).wf(),
            final(self)@ == old(self)@,
            final(self).limit() == old(self).limit(),
            r.wf(),
            map_texts(r@) == admitted_labels(old(self).seen(), old(self).limit(), labels@),
            labels_offered(old(self).seen(), old(self).limit(), labels@, final(self).seen()),
    {
        let mut admitted: Table<String> = Table::new();
        let ghost before = self.seen();
        let ghost limit = self.limit();
        let ghost keys = labels.keys();
        let mut i: usize = 0;
        while i < labels.len()
            invariant
                i <= keys.len(),
                keys == labels.keys(),
                labels.wf(),
                self.wf(),
                self@ == old(self)@,
                self.limit() == limit,
                limit == old(self).limit(),
                before == old(self).seen(),
                admitted.wf(),
                forall|label: Seq<char>| #[trigger]
                    admitted@.contains_key(label) <==> exists|j: int|
                        0 <= j < i && #[trigger] keys[j] == label && admits(
                            before,
                            limit,
                            label,
                            labels@[label]@,
                        ),
                forall|label: Seq<char>| #[trigger]
                    admitted@.contains_key(label) ==> admitted@[label]@ == labels@[label]@,
                forall|j: int|
                    0 <= j < i ==> values_of(self.seen(), #[trigger] keys[j]) == values_after(
                        before,
                        limit,
                        keys[j],
                        labels@[keys[j]]@,
                    ),
                forall|label: Seq<char>|
                    (forall|j: int| 0 <= j < i ==> #[trigger] keys[j] != label)
                        ==> #[trigger] values_of(self.seen(), label) == values_of(before, label),
            decreases keys.len() - i,
        {
            let label = labels.key_at(i);
            let value = labels.value_at(i);
            let ghost now = self.seen();
            let ghost so_far = admitted@;
            assert forall|j: int| 0 <= j < i implies #[trigger] keys[j] != label@ by {
                assert(keys[j] != keys[i as int]);
            }
            assert(values_of(now, label@) == values_of(before, label@));
            if self.labels.accept(label, value.as_str()) {
                admitted.insert(label.to_owned(), value.clone());
            }
            proof {
                assert(admits(now, limit, label@, value@) == admits(
                    before,
                    limit,
                    label@,
                    value@,
                ));
                assert(values_after(now, limit, label@, value@) == values_after(
                    before,
                    limit,
                    label@,
                    value@,
                ));
                assert forall|other: Seq<char>| #[trigger]
                    admitted@.contains_key(other) <==> exists|j: int|
                        0 <= j < i + 1 && #[trigger] keys[j] == other && admits(
                            before,
                            limit,
                            other,
                            labels@[other]@,
                        ) by {
                    if other == label@ {
                        assert(keys[i as int] == other);
                    }
                    if admitted@.contains_key(other) && other != label@ {
                        assert(so_far.contains_key(other));
                    }
                    if exists|j: int|
                        0 <= j < i + 1 && #[trigger] keys[j] == other && admits(
                            before,
                            limit,
                            other,
                            labels@[other]@,
                        ) {
                        let j = choose|j: int|
                            0 <= j < i + 1 && #[trigger] keys[j] == other && admits(
                                before,
                                limit,
                                other,
                                labels@[other]@,
                            );
                        if j < i {
                            assert(so_far.contains_key(other));
                        }
                    }
                }
                assert forall|j: int| 0 <= j < i + 1 implies values_of(
                    self.seen(),
                    #[trigger] keys[j],
                ) == values_after(before, limit, keys[j], labels@[keys[j]]@) by {}
                assert forall|other: Seq<char>|
                    (forall|j: int| 0 <= j < i + 1 ==> #[trigger] keys[j] != other)
                        implies #[trigger] values_of(self.seen(), other) == values_of(
                    before,
                    other,
                ) by {
                    assert(keys[i as int] != other);
                    assert(values_of(now, other) == values_of(before, other));
                }
            }
            i = i + 1;
        }
        proof {
            assert forall|label: Seq<char>| #[trigger] values_of(self.seen(), label)
                == if labels@.contains_key(label) {
                values_after(before, limit, label, labels@[label]@)
            } else {
                values_of(before, label)
            } by {
                if labels@.contains_key(label) {
                    let j = keys.index_of(label);
                    assert(keys.contains(label));
                    assert(keys[j] == label);
                }
            }
            assert(map_texts(admitted@) =~= admitted_labels(before, limit, labels@)) by {
                assert forall|label: Seq<char>| map_texts(admitted@).contains_key(label)
                    <==> admitted_labels(before, limit, labels@).contains_key(label) by {
                    if labels@.contains_key(label) {
                        let j = keys.index_of(label);
                        assert(keys.contains(label));
                        assert(keys[j] == label);
                    }
                    if admitted@.contains_key(label) {
                        let j = choose|j: int|
                            0 <= j < i && #[trigger] keys[j] == label && admits(
                                before,
                                limit,
                                label,
                                labels@[label]@,
                            );
                        assert(keys.contains(label));
                    }
                }
            }
        }
        admitted
    }
}

/// A metric is registered once, under its name: exactly where that is not blank and not
/// taken. What was registered stays, and registering again is refused.
pub proof fn metrics_are_registered_once(
    before: Map<Seq<char>, CustomMetric>,
    metric: CustomMetric,
    after: Map<Seq<char>, CustomMetric>,
    r: Result<(), CustomMetricError>,
    again: Map<Seq<char>, CustomMetric>,
    second: CustomMetric,
    s: Result<(), CustomMetricError>,
    other: Seq<char>,
)
    requires
        registered(before, metric, after, r),
        registered(after, second, again, s),
        second.name@ == metric.name@,
    ensures
        r is Ok <==> trimmed(metric.name@).len() > 0 && !before.contains_key(metric.name@),
        r is Ok ==> after.contains_key(metric.name@) && after[metric.name@] == metric,
        r is Err ==> after == before,
        s is Err,
        again == after,
        before.contains_key(other) ==> after.contains_key(other) && after[other] == before[other],
{
}

/// The labels that are kept are those that were given with a value that is known or for
/// which there is room, with that value.
pub proof fn known_values_are_kept(
    seen: Map<Seq<char>, Set<Seq<char>>>,
    limit: nat,
    labels: Map<Seq<char>, String>,
    label: Seq<char>,
)
    requires
        labels.contains_key(label),
    ensures
        values_of(seen, label).contains(labels[label]@) || values_of(seen, label).len() < limit ==> {
            &&& admitted_labels(seen, limit, labels).contains_key(label)
            &&& admitted_labels(seen, limit, labels)[label] == labels[label]@
        },
        !values_of(seen, label).contains(labels[label]@) && values_of(seen, label).len() >= limit
            ==> !admitted_labels(seen, limit, labels).contains_key(label),
{
}

/// Offering labels adds no value to any other label, and takes none away from any.
pub proof fn offers_concern_their_labels(
    before: Map<Seq<char>, Set<Seq<char>>>,
    limit: nat,
    labels: Map<Seq<char>, String>,
    after: Map<Seq<char>, Set<Seq<char>>>,
    label: Seq<char>,
    value: Seq<char>,
)
    requires
        labels_offered(before, limit, labels, after),
    ensures
        !labels.contains_key(label) ==> values_of(after, label) == values_of(before, label),
        values_of(before, label).contains(value) ==> values_of(after, label).contains(value),
        values_of(after, label).contains(value) && !values_of(before, label).contains(value)
            ==> labels.contains_key(label) && labels[label]@ == value && values_of(
            before,
            label,
        ).len() < limit,
{
    assert(values_of(after, label) == values_of(after, label));
}

} // verus!
