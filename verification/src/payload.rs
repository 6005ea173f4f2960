//! Payload values.
//!
//! A payload value is the runtime form of a generated payload type: an
//! empty payload for a kind with no fields, or one value per named
//! field, in declaration order.  The default payload holds every field
//! at its type's zero value.

use vstd::prelude::*;

use crate::schema::{FieldDef, FieldDefModel, FieldShape, FieldType, ShapeModel};

verus! {

/// A payload could not be read back from its encoded form.
#[derive(Clone, Copy, PartialEq, Eq, Structural, Debug)]
pub enum DecodeError {
    /// The input is not the encoding of any payload of the expected
    /// field arrangement.
    Invalid,
}

/// One field value.
#[derive(Clone, Copy, PartialEq, Eq, Structural, Debug)]
pub enum FieldValue {
    Bool(bool),
    U64(u64),
}

/// A named field with its value.
#[derive(Debug, PartialEq)]
pub struct NamedFieldValue {
    pub name: String,
    pub value: FieldValue,
}

/// Spec-level form of a named field value.
pub struct FieldValModel {
    pub name: Seq<char>,
    pub value: FieldValue,
}

impl View for NamedFieldValue {
    type V = FieldValModel;

    open spec fn view(&self) -> FieldValModel {
        FieldValModel { name: self.name@, value: self.value }
    }
}

/// A payload value: empty, or one value per named field.
#[derive(Debug, PartialEq)]
pub enum PayloadValue {
    Empty,
    Named(Vec<NamedFieldValue>),
}

/// Spec-level form of a payload value.
pub enum PayloadModel {
    Empty,
    Named(Seq<FieldValModel>),
}

impl View for PayloadValue {
    type V = PayloadModel;

    open spec fn view(&self) -> PayloadModel {
        match self {
            PayloadValue::Empty => PayloadModel::Empty,
            PayloadValue::Named(vs) => PayloadModel::Named(
                vs@.map_values(|v: NamedFieldValue| v@),
            ),
        }
    }
}

/// Whether a field value carries the declared name and type.
pub open spec fn field_fits(v: FieldValModel, d: FieldDefModel) -> bool {
    &&& v.name == d.name
    &&& match (v.value, d.ty) {
        (FieldValue::Bool(_), FieldType::Bool) => true,
        (FieldValue::U64(_), FieldType::U64) => true,
        _ => false,
    }
}

/// Whether a field list carries exactly the declared names and types.
pub open spec fn fields_fit(vs: Seq<FieldValModel>, ds: Seq<FieldDefModel>) -> bool {
    vs.len() == ds.len() && (forall|i: int|
        0 <= i < vs.len() ==> field_fits(#[trigger] vs[i], ds[i]))
}

/// Whether a payload value has exactly the declared field arrangement.
pub open spec fn fits(p: PayloadModel, s: ShapeModel) -> bool {
    match (p, s) {
        (PayloadModel::Empty, ShapeModel::NoFields) => true,
        (PayloadModel::Named(vs), ShapeModel::Named(ds)) => fields_fit(vs, ds),
        _ => false,
    }
}

/// The zero value of a field type.
pub open spec fn default_field(d: FieldDefModel) -> FieldValModel {
    FieldValModel {
        name: d.name,
        value: match d.ty {
            FieldType::Bool => FieldValue::Bool(false),
            FieldType::U64 => FieldValue::U64(0),
        },
    }
}

/// The default payload of a field arrangement: every field at its
/// type's zero value.
pub open spec fn default_of(s: ShapeModel) -> PayloadModel {
    match s {
        ShapeModel::NoFields => PayloadModel::Empty,
        ShapeModel::Named(ds) => PayloadModel::Named(
            ds.map_values(|d: FieldDefModel| default_field(d)),
        ),
        ShapeModel::Unnamed(_) => PayloadModel::Empty,
    }
}

/// The default payload fits its own field arrangement.
pub proof fn lemma_default_fits(s: ShapeModel)
    requires
        !(s is Unnamed),
    ensures
        fits(default_of(s), s),
{
}

/// Builds the default payload value of a field arrangement.
#[verifier::loop_isolation(false)]
pub fn default_payload(shape: &FieldShape) -> (r: PayloadValue)
    ensures
        r@ == default_of(shape@),
{
    match shape {
        FieldShape::NoFields => PayloadValue::Empty,
        FieldShape::UnnamedFields(_) => PayloadValue::Empty,
        FieldShape::NamedFields(ds) => {
            let ghost dm = ds@.map_values(|d: FieldDef| d@);
            let mut vs: Vec<NamedFieldValue> = Vec::new();
            let n = ds.len();
            let mut i: usize = 0;
            while i < n
                invariant
                    i <= n,
                    vs@.len() == i,
                    forall|j: int|
                        0 <= j < i ==> #[trigger] vs@[j]@ == default_field(dm[j]),
                decreases n - i,
            {
                let d = &ds[i];
                let value = match d.ty {
                    FieldType::Bool => FieldValue::Bool(false),
                    FieldType::U64 => FieldValue::U64(0),
                };
                let entry = NamedFieldValue { name: String::from_str(d.name.as_str()), value };
                proof {
                    assert(entry@ == default_field(dm[i as int]));
                }
                vs.push(entry);
                i = i + 1;
            }
            let r = PayloadValue::Named(vs);
            proof {
                assert(r@->Named_0 =~= dm.map_values(|d: FieldDefModel| default_field(d)));
            }
            r
        },
    }
}

} // verus!
