//! Field classification: deciding, per field, how the comparator treats it.

use vstd::prelude::*;
use crate::rules::{views_of, UNDERSCORE};
use crate::shape::{is_optional_type, type_is_optional, FieldDescriptor, FieldModel};

verus! {

/// How the synthesized comparator treats one field.
#[derive(Debug, Clone, Copy, PartialEq, Eq, Structural)]
pub enum FieldTreatment {
    /// The two instances' values at the field must be equal.
    Compare,
    /// Only the presence of a value matters; the content is ignored.
    PresenceOnly,
    /// The field contributes no comparison term at all.
    Omit,
}

/// A field name matches a suffix token iff it ends with an underscore
/// followed by the token. The match is purely textual: `created_at`
/// matches the token `at`, while `rate` does not, for want of the
/// underscore.
pub open spec fn suffix_matches(name: Seq<u8>, token: Seq<u8>) -> bool {
    &&& name.len() >= token.len() + 1
    &&& name[name.len() - token.len() - 1] == UNDERSCORE
    &&& name.subrange(name.len() - token.len(), name.len() as int) == token
}

/// Whether the name matches any token of the rule set.
pub open spec fn matches_any_token(name: Seq<u8>, rules: Seq<Seq<u8>>) -> bool {
    exists|k: int| 0 <= k < rules.len() && suffix_matches(name, rules[k])
}

/// The treatment of one field. The explicit skip marker is checked first
/// and wins outright; next, a suffix match makes an optional field
/// presence-only and omits any other; every remaining field is compared by
/// value.
pub open spec fn classify_spec(f: FieldModel, rules: Seq<Seq<u8>>) -> FieldTreatment {
    if f.has_skip_marker {
        FieldTreatment::Omit
    } else if matches_any_token(f.name, rules) {
        if is_optional_type(f.declared_type) {
            FieldTreatment::PresenceOnly
        } else {
            FieldTreatment::Omit
        }
    } else {
        FieldTreatment::Compare
    }
}

/// Decides [`suffix_matches`] on a field name and one token.
pub fn has_suffix_token(name: &Vec<u8>, token: &Vec<u8>) -> (r: bool)
    ensures
        r == suffix_matches(name@, token@),
{
    if name.len() <= token.len() {
        return false;
    }
    let pos = name.len() - token.len() - 1;
    if name[pos] != UNDERSCORE {
        return false;
    }
    let base = pos + 1;
    let mut j: usize = 0;
    while j < token.len()
        invariant
            name@.len() <= usize::MAX,
            name@.len() >= token@.len() + 1,
            base == name@.len() - token@.len(),
            j <= token@.len(),
            forall|k: int| 0 <= k < j ==> name@[base + k] == token@[k],
            name@[name@.len() - token@.len() - 1] == UNDERSCORE,
        decreases token@.len() - j,
    {
        if name[base + j] != token[j] {
            proof {
                if suffix_matches(name@, token@) {
                    assert(name@.subrange(
                        name@.len() - token@.len(),
                        name@.len() as int,
                    )[j as int] == name@[base + j]);
                }
            }
            return false;
        }
        j = j + 1;
    }
    proof {
        assert(name@.subrange(name@.len() - token@.len(), name@.len() as int) =~= token@);
    }
    true
}

/// Decides [`matches_any_token`] against a parsed rule set.
pub fn matches_any(name: &Vec<u8>, rules: &Vec<Vec<u8>>) -> (r: bool)
    ensures
        r == matches_any_token(name@, views_of(rules@)),
{
    let mut k: usize = 0;
    while k < rules.len()
        invariant
            k <= rules@.len(),
            forall|m: int| 0 <= m < k ==> !suffix_matches(name@, #[trigger] views_of(rules@)[m]),
        decreases rules@.len() - k,
    {
        if has_suffix_token(name, &rules[k]) {
            proof {
                assert(suffix_matches(name@, views_of(rules@)[k as int]));
            }
            return true;
        }
        k = k + 1;
    }
    false
}

/// Computes the treatment of one field, as [`classify_spec`] states it.
pub fn classify_field(f: &FieldDescriptor, rules: &Vec<Vec<u8>>) -> (t: FieldTreatment)
    ensures
        t == classify_spec(f@, views_of(rules@)),
{
    if f.has_skip_marker {
        FieldTreatment::Omit
    } else if matches_any(&f.name, rules) {
        if type_is_optional(&f.declared_type) {
            FieldTreatment::PresenceOnly
        } else {
            FieldTreatment::Omit
        }
    } else {
        FieldTreatment::Compare
    }
}

} // verus!
