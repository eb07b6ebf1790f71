//! The laws the synthesized comparator obeys, stated and proved over the
//! same spec functions that the executable contracts use.

use vstd::prelude::*;
use crate::classify::FieldTreatment;
use crate::compare::{
    comparator_holds, presence_model, term_holds, treatments_of, value_eq_model, ValueModel,
};
use crate::generate::{generate_spec, ClassifiedModel};
use crate::rules::{GenError, Policy};
use crate::shape::{fields_view, TypeShape};

verus! {

/// Every comparison term is reflexive: a value always satisfies its own
/// term, whatever the treatment.
proof fn lemma_term_reflexive(t: FieldTreatment, v: ValueModel)
    ensures
        term_holds(t, v, v),
{
}

/// Reflexivity: two instances identical in every field compare equal under
/// any sequence of treatments — and so under any exclusion configuration.
pub proof fn lemma_comparator_reflexive(ts: Seq<FieldTreatment>, a: Seq<ValueModel>)
    requires
        a.len() == ts.len(),
    ensures
        comparator_holds(ts, a, a),
{
    assert forall|i: int| 0 <= i < ts.len() implies term_holds(ts[i], #[trigger] a[i], a[i]) by {
        lemma_term_reflexive(ts[i], a[i]);
    }
}

/// A field compared by value detects change: when the two instances agree
/// on every other field but hold unequal values at a `Compare` field, the
/// predicate is false.
pub proof fn lemma_compare_field_detects_change(
    ts: Seq<FieldTreatment>,
    a: Seq<ValueModel>,
    b: Seq<ValueModel>,
    i: int,
)
    requires
        a.len() == ts.len(),
        b.len() == ts.len(),
        0 <= i < ts.len(),
        ts[i] == FieldTreatment::Compare,
        !value_eq_model(a[i], b[i]),
        forall|j: int| 0 <= j < ts.len() && j != i ==> a[j] == b[j],
    ensures
        !comparator_holds(ts, a, b),
{
    if comparator_holds(ts, a, b) {
        assert(term_holds(ts[i], a[i], b[i]));
    }
}

/// An omitted field is fully ignored: when the two instances agree on
/// every other field, the predicate is true whatever stands at the
/// omitted field.
pub proof fn lemma_omitted_field_ignored(
    ts: Seq<FieldTreatment>,
    a: Seq<ValueModel>,
    b: Seq<ValueModel>,
    i: int,
)
    requires
        a.len() == ts.len(),
        b.len() == ts.len(),
        0 <= i < ts.len(),
        ts[i] == FieldTreatment::Omit,
        forall|j: int| 0 <= j < ts.len() && j != i ==> a[j] == b[j],
    ensures
        comparator_holds(ts, a, b),
{
    assert forall|k: int| 0 <= k < ts.len() implies term_holds(ts[k], #[trigger] a[k], b[k]) by {
        if k != i {
            lemma_term_reflexive(ts[k], a[k]);
        }
    }
}

/// A presence-only field ignores content: when presence is preserved —
/// both instances hold a value there, or neither does — and every other
/// field agrees, the predicate is true even if the contents differ.
pub proof fn lemma_presence_only_ignores_content(
    ts: Seq<FieldTreatment>,
    a: Seq<ValueModel>,
    b: Seq<ValueModel>,
    i: int,
)
    requires
        a.len() == ts.len(),
        b.len() == ts.len(),
        0 <= i < ts.len(),
        ts[i] == FieldTreatment::PresenceOnly,
        presence_model(a[i]) == presence_model(b[i]),
        forall|j: int| 0 <= j < ts.len() && j != i ==> a[j] == b[j],
    ensures
        comparator_holds(ts, a, b),
{
    assert forall|k: int| 0 <= k < ts.len() implies term_holds(ts[k], #[trigger] a[k], b[k]) by {
        if k != i {
            lemma_term_reflexive(ts[k], a[k]);
        }
    }
}

/// A presence-only field detects a change of presence: when one instance
/// holds a value there and the other does not, the predicate is false,
/// however the remaining fields agree.
pub proof fn lemma_presence_change_detected(
    ts: Seq<FieldTreatment>,
    a: Seq<ValueModel>,
    b: Seq<ValueModel>,
    i: int,
)
    requires
        a.len() == ts.len(),
        b.len() == ts.len(),
        0 <= i < ts.len(),
        ts[i] == FieldTreatment::PresenceOnly,
        presence_model(a[i]) != presence_model(b[i]),
        forall|j: int| 0 <= j < ts.len() && j != i ==> a[j] == b[j],
    ensures
        !comparator_holds(ts, a, b),
{
    if comparator_holds(ts, a, b) {
        assert(term_holds(ts[i], a[i], b[i]));
    }
}

/// Every field of the record appears in a successfully generated
/// comparator exactly once, in declaration order — an omitted field is
/// still present, as an entry contributing no term.
pub proof fn lemma_every_field_appears_once(
    shape: TypeShape,
    directive: Option<Seq<u8>>,
    policy: Policy,
    c: Seq<ClassifiedModel>,
)
    requires
        generate_spec(shape, directive, policy) == Result::<Seq<ClassifiedModel>, GenError>::Ok(
            c,
        ),
    ensures
        shape matches TypeShape::NamedRecord(fields) && {
            &&& c.len() == fields@.len()
            &&& forall|i: int|
                0 <= i < c.len() ==> (#[trigger] c[i]).field == fields_view(fields@)[i]
        },
{
}

/// Idempotence: generation is a function of the shape, the directive and
/// the policy alone, so two generations for the same type and
/// configuration yield the same comparator — and hence predicates with
/// the same truth table over all pairs of instances.
pub proof fn lemma_generation_idempotent(
    shape: TypeShape,
    directive: Option<Seq<u8>>,
    policy: Policy,
    c1: Seq<ClassifiedModel>,
    c2: Seq<ClassifiedModel>,
    a: Seq<ValueModel>,
    b: Seq<ValueModel>,
)
    requires
        generate_spec(shape, directive, policy) == Result::<Seq<ClassifiedModel>, GenError>::Ok(
            c1,
        ),
        generate_spec(shape, directive, policy) == Result::<Seq<ClassifiedModel>, GenError>::Ok(
            c2,
        ),
    ensures
        c1 == c2,
        comparator_holds(treatments_of(c1), a, b) == comparator_holds(treatments_of(c2), a, b),
{
}

} // verus!
