//! Bounds on the number of values of metric labels.
//!
//! A label with unbounded values would make a metric grow without bound. For
//! each label only so many different values are admitted; further ones are
//! dropped.

use vstd::prelude::*;

use crate::table::Table;
use crate::text::{list_contains, texts};

verus! {

/// The values admitted for a label.
pub open spec fn values_of(seen: Map<Seq<char>, Set<Seq<char>>>, label: Seq<char>) -> Set<
    Seq<char>,
> {
    if seen.contains_key(label) {
        seen[label]
    } else {
        Set::empty()
    }
}

/// The value is known for the label, or there is room for one more.
pub open spec fn admits(
    seen: Map<Seq<char>, Set<Seq<char>>>,
    limit: nat,
    label: Seq<char>,
    value: Seq<char>,
) -> bool {
    values_of(seen, label).contains(value) || values_of(seen, label).len() < limit
}

/// The values of a label after one was offered.
pub open spec fn values_after(
    seen: Map<Seq<char>, Set<Seq<char>>>,
    limit: nat,
    label: Seq<char>,
    value: Seq<char>,
) -> Set<Seq<char>> {
    if admits(seen, limit, label, value) {
        values_of(seen, label).insert(value)
    } else {
        values_of(seen, label)
    }
}

/// The values that were admitted for each label.
pub struct LabelCardinality {
    limit: usize,
    seen: Table<Vec<String>>,
}

impl LabelCardinality {
    pub closed spec fn view(&self) -> Map<Seq<char>, Set<Seq<char>>> {
        self.seen@.map_values(|list: Vec<String>| texts(list@).to_set())
    }

    /// The number of values that are admitted per label.
    pub closed spec fn limit_spec(&self) -> nat {
        self.limit as nat
    }

    /// No list holds a value twice, or more values than are admitted.
    pub closed spec fn wf(&self) -> bool {
        &&& self.seen.wf()
        &&& forall|label: Seq<char>| #[trigger]
            self.seen@.contains_key(label) ==> texts(self.seen@[label]@).no_duplicates()
                && self.seen@[label]@.len() <= self.limit
    }

    /// No label has more values than are admitted.
    pub proof fn stays_within_limit(&self, label: Seq<char>)
        requires
            self.wf(),
        ensures
            values_of(self@, label).len() <= self.limit_spec(),
            values_of(self@, label).finite(),
    {
        if self@.contains_key(label) {
            assert(self.seen@.contains_key(label));
            texts(self.seen@[label]@).unique_seq_to_set();
        }
    }

    /// A bound on the values of every label; none is admitted yet.
    pub fn new(limit: usize) -> (r: Self)
        ensures
            r.wf(),
            r@ == Map::<Seq<char>, Set<Seq<char>>>::empty(),
            r.limit_spec() == limit,
    {
        let r = LabelCardinality { limit, seen: Table::new() };
        assert(r@ =~= Map::<Seq<char>, Set<Seq<char>>>::empty());
        r
    }

    /// Offers a value for a label; says whether it is admitted.
    pub fn accept(&mut self, label: &str, value: &str) -> (r: bool)
        requires
            old(self).wf(),
        ensures
            final(self).wf(),
            final(self).limit_spec() == old(self).limit_spec(),
            r == admits(old(self)@, old(self).limit_spec(), label@, value@),
            final(self)@ == old(self)@.insert(
                label@,
                values_after(old(self)@, old(self).limit_spec(), label@, value@),
            ),
    {
        let limit = self.limit;
        if !self.seen.contains(label) {
            let fresh: Vec<String> = Vec::new();
            self.seen.insert(label.to_owned(), fresh);
            assert(texts(fresh@).to_set() =~= Set::<Seq<char>>::empty());
            assert(texts(fresh@).no_duplicates());
        }
        let ghost before = self.seen@;
        assert(values_of(old(self)@, label@) == texts(before[label@]@).to_set());
        proof {
            texts(before[label@]@).unique_seq_to_set();
        }
        match self.seen.get_mut(label) {
            Some(values) => {
                let ghost known = texts(values@);
                if list_contains(values, value) {
                    assert(known.to_set().insert(value@) =~= known.to_set());
                    assert(self@ =~= old(self)@.insert(
                        label@,
                        values_after(old(self)@, limit as nat, label@, value@),
                    ));
                    return true;
                }
                if values.len() >= limit {
                    assert(self@ =~= old(self)@.insert(
                        label@,
                        values_after(old(self)@, limit as nat, label@, value@),
                    ));
                    return false;
                }
                values.push(value.to_owned());
                proof {
                    assert(texts(values@) =~= known.push(value@));
                    assert forall|k: Seq<char>| known.push(value@).to_set().contains(k)
                        <==> known.to_set().insert(value@).contains(k) by {
                        if known.contains(k) {
                            assert(known.push(value@)[known.index_of(k)] == k);
                        }
                        if k == value@ {
                            assert(known.push(value@)[known.len() as int] == k);
                        }
                        if known.push(value@).contains(k) && k != value@ {
                            assert(known[known.push(value@).index_of(k)] == k);
                        }
                    }
                    assert(texts(values@).to_set() =~= known.to_set().insert(value@));
                    assert(texts(values@).no_duplicates());
                }
            },
            None => {},
        }
        assert(self@ =~= old(self)@.insert(
            label@,
            values_after(old(self)@, limit as nat, label@, value@),
        ));
        true
    }

    /// The number of values that are admitted for a label so far.
    pub fn count(&self, label: &str) -> (r: usize)
        requires
            self.wf(),
        ensures
            r == values_of(self@, label@).len(),
    {
        match self.seen.get(label) {
            Some(values) => {
                proof {
                    texts(values@).unique_seq_to_set();
                }
                values.len()
            },
            None => 0,
        }
    }
}

/// A value that was admitted once is always admitted again.
pub proof fn admitted_values_stay_admitted(
    seen: Map<Seq<char>, Set<Seq<char>>>,
    limit: nat,
    label: Seq<char>,
    value: Seq<char>,
)
    requires
        admits(seen, limit, label, value),
    ensures
        admits(
            seen.insert(label, values_after(seen, limit, label, value)),
            limit,
            label,
            value,
        ),
        values_after(
            seen.insert(label, values_after(seen, limit, label, value)),
            limit,
            label,
            value,
        ) == values_after(seen, limit, label, value),
{
    let after = seen.insert(label, values_after(seen, limit, label, value));
    assert(values_after(after, limit, label, value) =~= values_after(seen, limit, label, value));
}

/// The values of one label take no room from another label.
pub proof fn labels_have_budgets_of_their_own(
    seen: Map<Seq<char>, Set<Seq<char>>>,
    limit: nat,
    label: Seq<char>,
    value: Seq<char>,
    other: Seq<char>,
)
    requires
        other != label,
    ensures
        values_of(seen.insert(label, values_after(seen, limit, label, value)), other) == values_of(
            seen,
            other,
        ),
{
}

/// A value is admitted exactly where it is known or there is room; one that is refused
/// leaves the label as it was, and no label ever has more values than the limit.
pub proof fn labels_hold_no_more_than_the_limit(
    seen: Map<Seq<char>, Set<Seq<char>>>,
    limit: nat,
    label: Seq<char>,
    value: Seq<char>,
)
    requires
        values_of(seen, label).finite(),
        values_of(seen, label).len() <= limit,
    ensures
        values_after(seen, limit, label, value).len() <= limit,
        !values_of(seen, label).contains(value) && values_of(seen, label).len() == limit ==> !admits(
            seen,
            limit,
            label,
            value,
        ) && values_after(seen, limit, label, value) == values_of(seen, label),
        values_of(seen, label).len() < limit || values_of(seen, label).contains(value) ==> admits(
            seen,
            limit,
            label,
            value,
        ) && values_after(seen, limit, label, value).contains(value),
        forall|v: Seq<char>| #[trigger]
            values_of(seen, label).contains(v) ==> values_after(seen, limit, label, value).contains(
                v,
            ),
{
}

} // verus!
