//! Record shapes: the static description of an annotated type.

use vstd::prelude::*;

verus! {

/// One named field of a record type: its name, the rendered name of its
/// declared type, and whether it carries an explicit skip marker.
pub struct FieldDescriptor {
    pub name: Vec<u8>,
    pub declared_type: Vec<u8>,
    pub has_skip_marker: bool,
}

/// Mathematical model of a [`FieldDescriptor`].
pub ghost struct FieldModel {
    pub name: Seq<u8>,
    pub declared_type: Seq<u8>,
    pub has_skip_marker: bool,
}

impl View for FieldDescriptor {
    type V = FieldModel;

    open spec fn view(&self) -> FieldModel {
        FieldModel {
            name: self.name@,
            declared_type: self.declared_type@,
            has_skip_marker: self.has_skip_marker,
        }
    }
}

/// The models of a sequence of field descriptors, in order.
pub open spec fn fields_view(fs: Seq<FieldDescriptor>) -> Seq<FieldModel> {
    fs.map_values(|f: FieldDescriptor| f@)
}

/// The shape of the annotated type. Comparator generation supports only
/// named-field records; the remaining shapes exist so that the generator can
/// reject them.
pub enum TypeShape {
    NamedRecord(Vec<FieldDescriptor>),
    TupleRecord,
    EnumType,
    UnitType,
}

/// The bytes of `Option`, the rendered type-name prefix that marks a field
/// as optional.
pub const UPPER_O: u8 = 79;

pub const LOWER_P: u8 = 112;

pub const LOWER_T: u8 = 116;

pub const LOWER_I: u8 = 105;

pub const LOWER_O: u8 = 111;

pub const LOWER_N: u8 = 110;

/// The rendered type-name prefix that marks a field as optional: `Option`.
pub open spec fn optional_marker() -> Seq<u8> {
    seq![UPPER_O, LOWER_P, LOWER_T, LOWER_I, LOWER_O, LOWER_N]
}

/// A field is optional iff its rendered type name starts with `Option`.
/// The check is purely syntactic, so a type merely named `OptionalFoo` is
/// also taken as optional, and an alias for an optional type is not.
pub open spec fn is_optional_type(declared_type: Seq<u8>) -> bool {
    declared_type.len() >= 6 && declared_type.subrange(0, 6) == optional_marker()
}

/// Decides [`is_optional_type`] on a rendered type name.
pub fn type_is_optional(declared_type: &Vec<u8>) -> (r: bool)
    ensures
        r == is_optional_type(declared_type@),
{
    if declared_type.len() < 6 {
        return false;
    }
    let r = declared_type[0] == UPPER_O && declared_type[1] == LOWER_P
        && declared_type[2] == LOWER_T && declared_type[3] == LOWER_I
        && declared_type[4] == LOWER_O && declared_type[5] == LOWER_N;
    proof {
        if r {
            assert(declared_type@.subrange(0, 6) =~= optional_marker());
        } else if is_optional_type(declared_type@) {
            assert(forall|i: int|
                0 <= i < 6 ==> declared_type@[i] == #[trigger] optional_marker()[i]);
        }
    }
    r
}

} // verus!
