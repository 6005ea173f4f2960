//! The compact binary payload encoding.
//!
//! A payload with no fields encodes as the empty byte string; a payload
//! with named fields encodes as the concatenation of its field values
//! in declaration order, a boolean as one byte (`0` or `1`) and a
//! number as eight little-endian bytes.  Decoding is directed by the
//! declared field arrangement and succeeds exactly on the encodings of
//! payloads of that arrangement.

use vstd::prelude::*;

use vstd::bytes::{lemma_auto_spec_u64_to_from_le_bytes, spec_u64_from_le_bytes,
    spec_u64_to_le_bytes, u64_from_le_bytes, u64_to_le_bytes};
use vstd::slice::{slice_index_get, slice_subrange};

use crate::payload::{fields_fit, field_fits, fits, DecodeError, FieldValModel, FieldValue,
    NamedFieldValue, PayloadModel, PayloadValue};
use crate::schema::{FieldDef, FieldDefModel, FieldShape, FieldType, ShapeModel};

verus! {

/// The binary encoding of one field value.
pub open spec fn fval_bytes(v: FieldValue) -> Seq<u8> {
    match v {
        FieldValue::Bool(b) => seq![if b { 1u8 } else { 0u8 }],
        FieldValue::U64(x) => spec_u64_to_le_bytes(x),
    }
}

/// The binary encoding of a field list.
pub open spec fn bytes_fields(fs: Seq<FieldValModel>) -> Seq<u8>
    decreases fs.len(),
{
    if fs.len() == 0 {
        Seq::empty()
    } else {
        fval_bytes(fs[0].value) + bytes_fields(fs.drop_first())
    }
}

/// The binary encoding of a payload value.
pub open spec fn bytes_of(p: PayloadModel) -> Seq<u8> {
    match p {
        PayloadModel::Empty => Seq::empty(),
        PayloadModel::Named(fs) => bytes_fields(fs),
    }
}

impl PayloadValue {
    /// Encodes the payload as bytes.
    #[verifier::loop_isolation(false)]
    pub fn to_bytes(&self) -> (r: Vec<u8>)
        ensures
            r@ == bytes_of(self@),
    {
        match self {
            PayloadValue::Empty => Vec::new(),
            PayloadValue::Named(vs) => {
                let ghost fm = vs@.map_values(|v: NamedFieldValue| v@);
                let mut out: Vec<u8> = Vec::new();
                let n = vs.len();
                let mut i: usize = 0;
                proof {
                    assert(fm.skip(0) =~= fm);
                }
                while i < n
                    invariant
                        0 <= i <= n,
                        n == vs@.len(),
                        bytes_of(self@) == out@ + bytes_fields(fm.skip(i as int)),
                    decreases n - i,
                {
                    let ghost before = out@;
                    let ghost rest = fm.skip(i as int);
                    match &vs[i].value {
                        FieldValue::Bool(b) => {
                            out.push(if *b {
                                1u8
                            } else {
                                0u8
                            });
                        },
                        FieldValue::U64(x) => {
                            let mut piece = u64_to_le_bytes(*x);
                            out.append(&mut piece);
                        },
                    }
                    proof {
                        assert(rest[0] == fm[i as int]);
                        assert(rest.drop_first() =~= fm.skip(i + 1));
                        assert(out@ =~= before + fval_bytes(fm[i as int].value));
                        assert(before + bytes_fields(rest) =~= out@ + bytes_fields(
                            fm.skip(i + 1),
                        ));
                    }
                    i = i + 1;
                }
                proof {
                    assert(fm.skip(n as int) =~= Seq::<FieldValModel>::empty());
                    assert(out@ + bytes_fields(fm.skip(n as int)) =~= out@);
                }
                out
            },
        }
    }

    /// Reads a payload of the given field arrangement back from its
    /// binary encoding.  The read succeeds exactly when the input is
    /// the encoding of a payload of that arrangement, and then returns
    /// that payload.
    pub fn from_binary(shape: &FieldShape, bytes: &[u8]) -> (r: Result<PayloadValue, DecodeError>)
        ensures
            match r {
                Ok(p) => fits(p@, shape@) && bytes_of(p@) == bytes@,
                Err(_) => forall|p: PayloadModel| fits(p, shape@) ==> bytes_of(p) != bytes@,
            },
    {
        match shape {
            FieldShape::UnnamedFields(_) => Err(DecodeError::Invalid),
            FieldShape::NoFields => {
                if bytes.len() == 0 {
                    proof {
                        assert(bytes@ =~= Seq::<u8>::empty());
                    }
                    Ok(PayloadValue::Empty)
                } else {
                    Err(DecodeError::Invalid)
                }
            },
            FieldShape::NamedFields(ds) => {
                let ghost dm = ds@.map_values(|d: FieldDef| d@);
                match read_fields(ds, 0, bytes, 0) {
                    Ok(vs) => {
                        let p = PayloadValue::Named(vs);
                        proof {
                            assert(dm.skip(0) =~= dm);
                            assert(bytes@.skip(0) =~= bytes@);
                        }
                        Ok(p)
                    },
                    Err(e) => {
                        proof {
                            assert forall|p: PayloadModel|
                                fits(p, shape@) implies bytes_of(p) != bytes@ by {
                                let fm = p->Named_0;
                                assert(dm.skip(0) =~= dm);
                                assert(bytes@.skip(0) =~= bytes@);
                            }
                        }
                        Err(e)
                    },
                }
            },
        }
    }
}

/// Reads the fields `k` and later of the declared arrangement from the
/// bytes at position `i` and later; succeeds exactly when those bytes
/// are the encoding of a fitting field list, and then returns it.
fn read_fields(ds: &Vec<FieldDef>, k: usize, bytes: &[u8], i: usize) -> (r: Result<
    Vec<NamedFieldValue>,
    DecodeError,
>)
    requires
        k <= ds@.len(),
        i <= bytes@.len(),
    ensures
        match r {
            Ok(vs) => fields_fit(
                vs@.map_values(|v: NamedFieldValue| v@),
                ds@.map_values(|d: FieldDef| d@).skip(k as int),
            ) && bytes@.skip(i as int) == bytes_fields(vs@.map_values(|v: NamedFieldValue| v@)),
            Err(_) => forall|fm: Seq<FieldValModel>|
                fields_fit(fm, ds@.map_values(|d: FieldDef| d@).skip(k as int))
                    ==> bytes_fields(fm) != bytes@.skip(i as int),
        },
    decreases ds@.len() - k,
{
    let ghost dm = ds@.map_values(|d: FieldDef| d@);
    let ghost dk = dm.skip(k as int);
    let ghost tail = bytes@.skip(i as int);
    let n = bytes.len();
    if k == ds.len() {
        if i == n {
            let vs: Vec<NamedFieldValue> = Vec::new();
            proof {
                assert(vs@.map_values(|v: NamedFieldValue| v@) =~= Seq::<FieldValModel>::empty());
                assert(tail =~= Seq::<u8>::empty());
            }
            Ok(vs)
        } else {
            proof {
                assert forall|fm: Seq<FieldValModel>| fields_fit(fm, dk) implies bytes_fields(fm)
                    != tail by {
                    assert(fm.len() == 0);
                    assert(bytes_fields(fm) =~= Seq::<u8>::empty());
                    assert(tail.len() > 0);
                }
            }
            Err(DecodeError::Invalid)
        }
    } else {
        let d = &ds[k];
        proof {
            assert(dk[0] == dm[k as int]);
            assert(dm[k as int] == d@);
        }
        match d.ty {
            FieldType::Bool => {
                if i >= n {
                    proof {
                        assert forall|fm: Seq<FieldValModel>|
                            fields_fit(fm, dk) implies bytes_fields(fm) != tail by {
                            assert(field_fits(fm[0], dk[0]));
                            assert(fval_bytes(fm[0].value).len() == 1);
                            assert(bytes_fields(fm).len() >= 1);
                            assert(tail.len() == 0);
                        }
                    }
                    return Err(DecodeError::Invalid);
                }
                let b: u8 = *slice_index_get(bytes, i);
                if b > 1 {
                    proof {
                        assert forall|fm: Seq<FieldValModel>|
                            fields_fit(fm, dk) implies bytes_fields(fm) != tail by {
                            assert(field_fits(fm[0], dk[0]));
                            if bytes_fields(fm) == tail {
                                assert(bytes_fields(fm)[0] == fval_bytes(fm[0].value)[0]);
                                assert(tail[0] == bytes@[i as int]);
                                assert(fval_bytes(fm[0].value)[0] == 0 || fval_bytes(
                                    fm[0].value,
                                )[0] == 1);
                            }
                        }
                    }
                    return Err(DecodeError::Invalid);
                }
                let value = FieldValue::Bool(b == 1);
                proof {
                    assert(fval_bytes(value) =~= seq![bytes@[i as int]]);
                }
                match read_fields(ds, k + 1, bytes, i + 1) {
                    Ok(rest) => {
                        let ghost rm = rest@.map_values(|v: NamedFieldValue| v@);
                        let mut vs = rest;
                        let entry = NamedFieldValue {
                            name: String::from_str(d.name.as_str()),
                            value,
                        };
                        vs.insert(0, entry);
                        proof {
                            let fm = vs@.map_values(|v: NamedFieldValue| v@);
                            assert(fm =~= seq![entry@] + rm);
                            assert(fm.drop_first() =~= rm);
                            assert(dm.skip(k + 1) =~= dk.drop_first());
                            assert(bytes_fields(fm) == fval_bytes(value) + bytes_fields(rm));
                            assert(tail =~= seq![bytes@[i as int]] + bytes@.skip(i + 1));
                            assert(fields_fit(fm, dk));
                        }
                        Ok(vs)
                    },
                    Err(e) => {
                        proof {
                            assert forall|fm: Seq<FieldValModel>|
                                fields_fit(fm, dk) implies bytes_fields(fm) != tail by {
                                assert(field_fits(fm[0], dk[0]));
                                if bytes_fields(fm) == tail {
                                    let v0 = fm[0].value;
                                    assert(fval_bytes(v0).len() == 1);
                                    assert(tail =~= seq![bytes@[i as int]] + bytes@.skip(i + 1));
                                    assert(fval_bytes(v0)[0] == tail[0]);
                                    assert(v0 == value);
                                    assert(bytes_fields(fm) == fval_bytes(v0) + bytes_fields(
                                        fm.drop_first(),
                                    ));
                                    assert(bytes_fields(fm.drop_first()) =~= tail.skip(1));
                                    assert(tail.skip(1) =~= bytes@.skip(i + 1));
                                    assert(dm.skip(k + 1) =~= dk.drop_first());
                                    assert(fields_fit(fm.drop_first(), dm.skip(k + 1)));
                                }
                            }
                        }
                        Err(e)
                    },
                }
            },
            FieldType::U64 => {
                proof {
                    lemma_auto_spec_u64_to_from_le_bytes();
                }
                if n - i < 8 {
                    proof {
                        assert forall|fm: Seq<FieldValModel>|
                            fields_fit(fm, dk) implies bytes_fields(fm) != tail by {
                            assert(field_fits(fm[0], dk[0]));
                            assert(fval_bytes(fm[0].value).len() == 8);
                            assert(bytes_fields(fm).len() >= 8);
                            assert(tail.len() < 8);
                        }
                    }
                    return Err(DecodeError::Invalid);
                }
                let sub = slice_subrange(bytes, i, i + 8);
                let x = u64_from_le_bytes(sub);
                let value = FieldValue::U64(x);
                proof {
                    assert(fval_bytes(value) == spec_u64_to_le_bytes(x));
                    assert(spec_u64_to_le_bytes(spec_u64_from_le_bytes(sub@)) == sub@);
                    assert(sub@ =~= tail.take(8));
                }
                match read_fields(ds, k + 1, bytes, i + 8) {
                    Ok(rest) => {
                        let ghost rm = rest@.map_values(|v: NamedFieldValue| v@);
                        let mut vs = rest;
                        let entry = NamedFieldValue {
                            name: String::from_str(d.name.as_str()),
                            value,
                        };
                        vs.insert(0, entry);
                        proof {
                            let fm = vs@.map_values(|v: NamedFieldValue| v@);
                            assert(fm =~= seq![entry@] + rm);
                            assert(fm.drop_first() =~= rm);
                            assert(dm.skip(k + 1) =~= dk.drop_first());
                            assert(bytes_fields(fm) == fval_bytes(value) + bytes_fields(rm));
                            assert(tail =~= tail.take(8) + bytes@.skip(i + 8));
                            assert(bytes_fields(fm) =~= tail);
                            assert(fields_fit(fm, dk));
                        }
                        Ok(vs)
                    },
                    Err(e) => {
                        proof {
                            assert forall|fm: Seq<FieldValModel>|
                                fields_fit(fm, dk) implies bytes_fields(fm) != tail by {
                                assert(field_fits(fm[0], dk[0]));
                                if bytes_fields(fm) == tail {
                                    let v0 = fm[0].value;
                                    assert(fval_bytes(v0).len() == 8);
                                    assert(tail =~= tail.take(8) + bytes@.skip(i + 8));
                                    assert(fval_bytes(v0) =~= tail.take(8));
                                    assert(spec_u64_to_le_bytes(v0->U64_0) == sub@);
                                    assert(spec_u64_from_le_bytes(spec_u64_to_le_bytes(
                                        v0->U64_0,
                                    )) == v0->U64_0);
                                    assert(v0 == value);
                                    assert(bytes_fields(fm) == fval_bytes(v0) + bytes_fields(
                                        fm.drop_first(),
                                    ));
                                    assert(fval_bytes(v0).len() == 8);
                                    assert(bytes_fields(fm.drop_first()) =~= tail.skip(8));
                                    assert(tail.skip(8) =~= bytes@.skip(i + 8));
                                    assert(dm.skip(k + 1) =~= dk.drop_first());
                                    assert(fields_fit(fm.drop_first(), dm.skip(k + 1)));
                                }
                            }
                        }
                        Err(e)
                    },
                }
            },
        }
    }
}

/// The binary encoding is lossless: two payloads of one field
/// arrangement with the same encoding are the same payload.  Together
/// with the encoder's and decoder's contracts, reading an encoded
/// payload back yields exactly the payload that was encoded.
pub proof fn lemma_binary_lossless(p: PayloadModel, q: PayloadModel, s: ShapeModel)
    requires
        fits(p, s),
        fits(q, s),
        bytes_of(p) == bytes_of(q),
    ensures
        p == q,
{
    match s {
        ShapeModel::NoFields => {
            assert(p is Empty && q is Empty);
        },
        ShapeModel::Named(ds) => {
            lemma_bytes_fields_inj(p->Named_0, q->Named_0, ds);
        },
        ShapeModel::Unnamed(_) => {
            assert(false);
        },
    }
}

proof fn lemma_bytes_fields_inj(fs: Seq<FieldValModel>, gs: Seq<FieldValModel>, ds: Seq<
    FieldDefModel,
>)
    requires
        fields_fit(fs, ds),
        fields_fit(gs, ds),
        bytes_fields(fs) == bytes_fields(gs),
    ensures
        fs == gs,
    decreases fs.len(),
{
    lemma_auto_spec_u64_to_from_le_bytes();
    if fs.len() == 0 {
        assert(fs =~= gs);
    } else {
        let vf = fval_bytes(fs[0].value);
        let vg = fval_bytes(gs[0].value);
        assert(field_fits(fs[0], ds[0]) && field_fits(gs[0], ds[0]));
        assert(vf.len() == vg.len());
        let w = vf.len() as int;
        let whole = bytes_fields(fs);
        assert(vf =~= whole.take(w));
        assert(vg =~= whole.take(w));
        match ds[0].ty {
            FieldType::Bool => {
                assert(vf[0] == vg[0]);
                assert(fs[0].value == gs[0].value);
            },
            FieldType::U64 => {
                let x = fs[0].value->U64_0;
                let y = gs[0].value->U64_0;
                assert(spec_u64_to_le_bytes(x) == spec_u64_to_le_bytes(y));
                assert(spec_u64_from_le_bytes(spec_u64_to_le_bytes(x)) == x);
                assert(spec_u64_from_le_bytes(spec_u64_to_le_bytes(y)) == y);
                assert(fs[0].value == gs[0].value);
            },
        }
        assert(fs[0] == gs[0]);
        assert(bytes_fields(fs.drop_first()) =~= whole.skip(w));
        assert(bytes_fields(gs.drop_first()) =~= whole.skip(w));
        assert(forall|i: int|
            0 <= i < fs.drop_first().len() ==> field_fits(
                #[trigger] fs.drop_first()[i],
                ds.drop_first()[i],
            ));
        assert(forall|i: int|
            0 <= i < gs.drop_first().len() ==> field_fits(
                #[trigger] gs.drop_first()[i],
                ds.drop_first()[i],
            ));
        lemma_bytes_fields_inj(fs.drop_first(), gs.drop_first(), ds.drop_first());
        assert forall|i: int| 0 <= i < fs.len() implies fs[i] == gs[i] by {
            if i > 0 {
                assert(fs.drop_first()[i - 1] == fs[i]);
                assert(gs.drop_first()[i - 1] == gs[i]);
            }
        }
        assert(fs =~= gs);
    }
}

} // verus!
