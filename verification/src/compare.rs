//! Evaluating a synthesized comparator over two record instances.

use vstd::prelude::*;
use crate::classify::FieldTreatment;
use crate::generate::{ClassifiedModel, ComparatorSpec};

verus! {

/// A field's value in a record instance: a plain integer (a timestamp is
/// carried as its millisecond count), a byte string, or an optional
/// integer.
#[derive(Debug, Clone)]
pub enum FieldValue {
    Int(i64),
    Text(Vec<u8>),
    OptInt(Option<i64>),
}

/// Mathematical model of a [`FieldValue`].
pub ghost enum ValueModel {
    Int(i64),
    Text(Seq<u8>),
    OptInt(Option<i64>),
}

impl View for FieldValue {
    type V = ValueModel;

    open spec fn view(&self) -> ValueModel {
        match *self {
            FieldValue::Int(x) => ValueModel::Int(x),
            FieldValue::Text(t) => ValueModel::Text(t@),
            FieldValue::OptInt(o) => ValueModel::OptInt(o),
        }
    }
}

/// The models of a record instance's values, in order.
pub open spec fn values_view(vs: Seq<FieldValue>) -> Seq<ValueModel> {
    vs.map_values(|v: FieldValue| v@)
}

/// Value equality: equal kinds with equal content. Values of different
/// kinds are never equal.
pub open spec fn value_eq_model(a: ValueModel, b: ValueModel) -> bool {
    match (a, b) {
        (ValueModel::Int(x), ValueModel::Int(y)) => x == y,
        (ValueModel::Text(x), ValueModel::Text(y)) => x == y,
        (ValueModel::OptInt(x), ValueModel::OptInt(y)) => x == y,
        _ => false,
    }
}

/// Presence: an optional value holding nothing is absent; every other
/// value is present.
pub open spec fn presence_model(v: ValueModel) -> bool {
    !(v matches ValueModel::OptInt(Option::None))
}

/// One comparison term: value equality for `Compare`, equality of
/// presence for `PresenceOnly`, and vacuously true for `Omit`.
pub open spec fn term_holds(t: FieldTreatment, a: ValueModel, b: ValueModel) -> bool {
    match t {
        FieldTreatment::Compare => value_eq_model(a, b),
        FieldTreatment::PresenceOnly => presence_model(a) == presence_model(b),
        FieldTreatment::Omit => true,
    }
}

/// The treatments of a comparator specification, in field order.
pub open spec fn treatments_of(cs: Seq<ClassifiedModel>) -> Seq<FieldTreatment> {
    cs.map_values(|c: ClassifiedModel| c.treatment)
}

/// The synthesized predicate: the conjunction of one term per field. An
/// empty conjunction is vacuously true.
pub open spec fn comparator_holds(
    ts: Seq<FieldTreatment>,
    a: Seq<ValueModel>,
    b: Seq<ValueModel>,
) -> bool {
    forall|i: int| 0 <= i < ts.len() ==> term_holds(ts[i], #[trigger] a[i], b[i])
}

fn bytes_equal(a: &Vec<u8>, b: &Vec<u8>) -> (r: bool)
    ensures
        r == (a@ == b@),
{
    if a.len() != b.len() {
        return false;
    }
    let mut i: usize = 0;
    while i < a.len()
        invariant
            i <= a@.len(),
            a@.len() == b@.len(),
            forall|j: int| 0 <= j < i ==> a@[j] == b@[j],
        decreases a@.len() - i,
    {
        if a[i] != b[i] {
            return false;
        }
        i = i + 1;
    }
    proof {
        assert(a@ =~= b@);
    }
    true
}

/// Decides [`value_eq_model`] on two field values.
pub fn value_eq(a: &FieldValue, b: &FieldValue) -> (r: bool)
    ensures
        r == value_eq_model(a@, b@),
{
    match (a, b) {
        (FieldValue::Int(x), FieldValue::Int(y)) => *x == *y,
        (FieldValue::Text(x), FieldValue::Text(y)) => bytes_equal(x, y),
        (FieldValue::OptInt(x), FieldValue::OptInt(y)) => match (x, y) {
            (Option::Some(u), Option::Some(w)) => *u == *w,
            (Option::None, Option::None) => true,
            _ => false,
        },
        _ => false,
    }
}

/// Decides [`presence_model`] on a field value.
pub fn is_present(v: &FieldValue) -> (r: bool)
    ensures
        r == presence_model(v@),
{
    match v {
        FieldValue::OptInt(o) => o.is_some(),
        _ => true,
    }
}

/// Decides one comparison term, as [`term_holds`] states it.
pub fn term_satisfied(t: FieldTreatment, a: &FieldValue, b: &FieldValue) -> (r: bool)
    ensures
        r == term_holds(t, a@, b@),
{
    match t {
        FieldTreatment::Compare => value_eq(a, b),
        FieldTreatment::PresenceOnly => is_present(a) == is_present(b),
        FieldTreatment::Omit => true,
    }
}

/// Evaluates the comparator on two instances of its record type: true iff
/// every field's term holds, the terms conjoined in field order. The two
/// instances carry one value per field of the record.
pub fn records_equal(c: &ComparatorSpec, a: &Vec<FieldValue>, b: &Vec<FieldValue>) -> (r: bool)
    requires
        a@.len() == c@.len(),
        b@.len() == c@.len(),
    ensures
        r == comparator_holds(treatments_of(c@), values_view(a@), values_view(b@)),
{
    let mut i: usize = 0;
    while i < c.entries.len()
        invariant
            i <= c.entries@.len(),
            c@.len() == c.entries@.len(),
            a@.len() == c@.len(),
            b@.len() == c@.len(),
            forall|j: int| 0 <= j < i ==> term_holds(
                treatments_of(c@)[j],
                #[trigger] values_view(a@)[j],
                values_view(b@)[j],
            ),
        decreases c.entries@.len() - i,
    {
        let e = &c.entries[i];
        let holds = term_satisfied(e.treatment, &a[i], &b[i]);
        proof {
            assert(treatments_of(c@)[i as int] == c@[i as int].treatment);
            assert(c@[i as int] == c.entries@[i as int]@);
            assert(values_view(a@)[i as int] == a@[i as int]@);
            assert(values_view(b@)[i as int] == b@[i as int]@);
        }
        if !holds {
            proof {
                if comparator_holds(treatments_of(c@), values_view(a@), values_view(b@)) {
                    assert(term_holds(
                        treatments_of(c@)[i as int],
                        values_view(a@)[i as int],
                        values_view(b@)[i as int],
                    ));
                }
            }
            return false;
        }
        i = i + 1;
    }
    true
}

} // verus!
