//! Comparator generation: from a type's shape, its directive and the
//! governing policy to a comparator specification, or a fatal error.

use vstd::prelude::*;
use crate::classify::{classify_field, classify_spec, FieldTreatment};
use crate::rules::{
    directive_well_formed, parse_directive, tokens_of, views_of, GenError, Policy, LOWER_A,
};
use crate::shape::{fields_view, FieldDescriptor, FieldModel, TypeShape, LOWER_T};

verus! {

/// One field together with its computed treatment.
pub struct ClassifiedField {
    pub field: FieldDescriptor,
    pub treatment: FieldTreatment,
}

/// Mathematical model of a [`ClassifiedField`].
pub ghost struct ClassifiedModel {
    pub field: FieldModel,
    pub treatment: FieldTreatment,
}

impl View for ClassifiedField {
    type V = ClassifiedModel;

    open spec fn view(&self) -> ClassifiedModel {
        ClassifiedModel { field: self.field@, treatment: self.treatment }
    }
}

/// The models of a sequence of classified fields, in order.
pub open spec fn entries_view(es: Seq<ClassifiedField>) -> Seq<ClassifiedModel> {
    es.map_values(|c: ClassifiedField| c@)
}

/// The generator's sole output artifact: every field of the record appears
/// exactly once, in declaration order, with its treatment.
pub struct ComparatorSpec {
    pub entries: Vec<ClassifiedField>,
}

impl View for ComparatorSpec {
    type V = Seq<ClassifiedModel>;

    open spec fn view(&self) -> Seq<ClassifiedModel> {
        entries_view(self.entries@)
    }
}

/// Every field classified against the same rule set, in order.
pub open spec fn classified_of(fs: Seq<FieldModel>, rules: Seq<Seq<u8>>) -> Seq<ClassifiedModel> {
    fs.map_values(
        |f: FieldModel| ClassifiedModel { field: f, treatment: classify_spec(f, rules) },
    )
}

/// Whether any field carries the explicit skip marker.
pub open spec fn any_field_skipped(fs: Seq<FieldModel>) -> bool {
    exists|i: int| 0 <= i < fs.len() && fs[i].has_skip_marker
}

/// The built-in fallback rule set: the single token `at`.
pub open spec fn default_tokens() -> Seq<Seq<u8>> {
    seq![seq![LOWER_A, LOWER_T]]
}

/// The rule set in force. A `Basic` generation with no directive at all
/// falls back to [`default_tokens`]; in every other case the rules are
/// exactly the directive's tokens.
pub open spec fn effective_tokens(directive: Option<Seq<u8>>, policy: Policy) -> Seq<Seq<u8>> {
    match directive {
        Option::Some(d) => tokens_of(d),
        Option::None => match policy {
            Policy::Basic => default_tokens(),
            Policy::Skippable => Seq::empty(),
        },
    }
}

/// The view of an optional directive.
pub open spec fn directive_view(d: Option<Vec<u8>>) -> Option<Seq<u8>> {
    match d {
        Option::Some(v) => Option::Some(v@),
        Option::None => Option::None,
    }
}

/// The view of a generation result.
pub open spec fn result_view(r: Result<ComparatorSpec, GenError>) -> Result<
    Seq<ClassifiedModel>,
    GenError,
> {
    match r {
        Result::Ok(c) => Result::Ok(c@),
        Result::Err(e) => Result::Err(e),
    }
}

/// The functional specification of the whole generator: reject a shape
/// that is not a named-field record, then a malformed directive, then —
/// under the `Skippable` policy — a configuration that skips nothing; in
/// every other case classify each field against the effective rule set.
pub open spec fn generate_spec(
    shape: TypeShape,
    directive: Option<Seq<u8>>,
    policy: Policy,
) -> Result<Seq<ClassifiedModel>, GenError> {
    if !(shape matches TypeShape::NamedRecord(_)) {
        Result::Err(GenError::UnsupportedShape)
    } else {
        let wf = match directive {
            Option::Some(d) => directive_well_formed(d),
            Option::None => true,
        };
        if !wf {
            Result::Err(GenError::MalformedDirective)
        } else {
            let fs = fields_view(shape->NamedRecord_0@);
            let rules = effective_tokens(directive, policy);
            if policy matches Policy::Skippable && rules.len() == 0 && !any_field_skipped(fs) {
                Result::Err(GenError::MissingExclusionConfiguration)
            } else {
                Result::Ok(classified_of(fs, rules))
            }
        }
    }
}

/// Whether any descriptor of the list carries the explicit skip marker.
pub fn any_field_has_skip(fields: &Vec<FieldDescriptor>) -> (r: bool)
    ensures
        r == any_field_skipped(fields_view(fields@)),
{
    let mut i: usize = 0;
    while i < fields.len()
        invariant
            i <= fields@.len(),
            forall|j: int| 0 <= j < i ==> !(#[trigger] fields_view(fields@)[j]).has_skip_marker,
        decreases fields@.len() - i,
    {
        if fields[i].has_skip_marker {
            proof {
                assert(fields_view(fields@)[i as int].has_skip_marker);
            }
            return true;
        }
        i = i + 1;
    }
    false
}

fn clone_bytes(v: &Vec<u8>) -> (r: Vec<u8>)
    ensures
        r@ == v@,
{
    let r = v.clone();
    proof {
        assert forall|i: int| 0 <= i < v@.len() implies r@[i] == v@[i] by {
            assert(cloned::<u8>(v@[i], r@[i]));
        }
        assert(r@ =~= v@);
    }
    r
}

fn clone_descriptor(f: &FieldDescriptor) -> (r: FieldDescriptor)
    ensures
        r@ == f@,
{
    FieldDescriptor {
        name: clone_bytes(&f.name),
        declared_type: clone_bytes(&f.declared_type),
        has_skip_marker: f.has_skip_marker,
    }
}

/// Generates the comparator for a record type: the verified counterpart of
/// deriving a skip-aware equality. The result is pinned to
/// [`generate_spec`] in full.
pub fn partial_eq_except_timestamps(
    shape: &TypeShape,
    directive: &Option<Vec<u8>>,
    policy: Policy,
) -> (r: Result<ComparatorSpec, GenError>)
    ensures
        result_view(r) == generate_spec(*shape, directive_view(*directive), policy),
{
    let fields = match shape {
        TypeShape::NamedRecord(fields) => fields,
        _ => {
            return Err(GenError::UnsupportedShape);
        },
    };
    let rules: Vec<Vec<u8>>;
    match directive {
        Option::Some(d) => {
            match parse_directive(d) {
                Ok(ts) => {
                    rules = ts;
                },
                Err(e) => {
                    return Err(e);
                },
            }
        },
        Option::None => {
            match policy {
                Policy::Basic => {
                    let mut t: Vec<u8> = Vec::new();
                    t.push(LOWER_A);
                    t.push(LOWER_T);
                    proof {
                        assert(t@ =~= seq![LOWER_A, LOWER_T]);
                    }
                    let mut rs: Vec<Vec<u8>> = Vec::new();
                    rs.push(t);
                    proof {
                        assert(views_of(rs@) =~= default_tokens());
                    }
                    rules = rs;
                },
                Policy::Skippable => {
                    rules = Vec::new();
                    proof {
                        assert(views_of(rules@) =~= Seq::<Seq<u8>>::empty());
                    }
                },
            }
        },
    }
    let skippable = match policy {
        Policy::Basic => false,
        Policy::Skippable => true,
    };
    if skippable && rules.len() == 0 && !any_field_has_skip(fields) {
        return Err(GenError::MissingExclusionConfiguration);
    }
    let mut entries: Vec<ClassifiedField> = Vec::new();
    let mut i: usize = 0;
    while i < fields.len()
        invariant
            i <= fields@.len(),
            entries_view(entries@) == classified_of(
                fields_view(fields@),
                views_of(rules@),
            ).take(i as int),
        decreases fields@.len() - i,
    {
        let f = &fields[i];
        let treatment = classify_field(f, &rules);
        let entry = ClassifiedField { field: clone_descriptor(f), treatment };
        let ghost pre = entries@;
        entries.push(entry);
        proof {
            let fs = fields_view(fields@);
            let rs = views_of(rules@);
            let target = classified_of(fs, rs);
            assert(fs.len() == fields@.len());
            assert(target.len() == fs.len());
            assert(entries_view(pre).len() == pre.len());
            assert(pre.len() == i as int);
            assert(entries@ == pre.push(entry));
            assert(entries@.len() == i as int + 1);
            assert(fs[i as int] == fields@[i as int]@);
            assert(entry@.field == fs[i as int]);
            assert(entry@.treatment == classify_spec(fs[i as int], rs));
            assert(target[i as int] == ClassifiedModel {
                field: fs[i as int],
                treatment: classify_spec(fs[i as int], rs),
            });
            assert forall|j: int| 0 <= j < i as int + 1 implies #[trigger] entries_view(
                entries@,
            )[j] == target[j] by {
                assert(entries_view(entries@)[j] == entries@[j]@);
                if j < i as int {
                    assert(entries@[j] == pre[j]);
                    assert(entries_view(pre)[j] == pre[j]@);
                    assert(entries_view(pre)[j] == target.take(i as int)[j]);
                } else {
                    assert(entries@[j] == entry);
                }
            }
            assert(entries_view(entries@) =~= target.take(i as int + 1));
        }
        i = i + 1;
    }
    proof {
        assert(classified_of(fields_view(fields@), views_of(rules@)).take(fields@.len() as int)
            =~= classified_of(fields_view(fields@), views_of(rules@)));
    }
    Ok(ComparatorSpec { entries })
}

} // verus!
