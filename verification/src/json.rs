//! The textual payload encoding.
//!
//! A payload with no fields encodes as `null`; a payload with named
//! fields encodes as an object literal whose keys appear in field
//! declaration order, booleans as `true`/`false` and numbers as
//! canonical decimal numerals, with no whitespace.  The key order is
//! deterministic, so encoding is a function of the payload value, and
//! two payloads of one field arrangement encode equally only if they
//! are equal.  Decoding is directed by the declared field arrangement
//! and accepts exactly the canonical text.

use vstd::prelude::*;

use crate::numeral::{dec_chars, dec_val, digit_char, digit_val, append_dec, is_digit,
    lemma_dec_chars_digits, lemma_dec_val_of_chars};
use crate::payload::{fields_fit, fits, field_fits, DecodeError, FieldValModel, FieldValue,
    NamedFieldValue, PayloadModel, PayloadValue};
use crate::schema::{FieldDef, FieldDefModel, FieldShape, FieldType, ShapeModel};

verus! {

/// The textual encoding of one field value.
pub open spec fn fval_chars(v: FieldValue) -> Seq<char> {
    match v {
        FieldValue::Bool(b) => if b {
            seq!['t', 'r', 'u', 'e']
        } else {
            seq!['f', 'a', 'l', 's', 'e']
        },
        FieldValue::U64(x) => dec_chars(x as nat),
    }
}

/// The textual encoding of a field list, from the first key to the
/// closing brace.
pub open spec fn json_fields(fs: Seq<FieldValModel>) -> Seq<char>
    decreases fs.len(),
{
    if fs.len() == 0 {
        seq!['}']
    } else {
        let head = seq!['"'] + fs[0].name + seq!['"', ':'] + fval_chars(fs[0].value);
        if fs.len() == 1 {
            head + seq!['}']
        } else {
            head + seq![','] + json_fields(fs.drop_first())
        }
    }
}

/// The textual encoding of a payload value.
pub open spec fn json_of(p: PayloadModel) -> Seq<char> {
    match p {
        PayloadModel::Empty => seq!['n', 'u', 'l', 'l'],
        PayloadModel::Named(fs) => seq!['{'] + json_fields(fs),
    }
}

/// Whether a field value carries the declared type.
pub open spec fn type_matches(v: FieldValue, ty: FieldType) -> bool {
    match (v, ty) {
        (FieldValue::Bool(_), FieldType::Bool) => true,
        (FieldValue::U64(_), FieldType::U64) => true,
        _ => false,
    }
}

impl PayloadValue {
    /// Encodes the payload as text.
    #[verifier::loop_isolation(false)]
    pub fn to_json(&self) -> (r: String)
        ensures
            r@ == json_of(self@),
    {
        match self {
            PayloadValue::Empty => {
                proof {
                    reveal_strlit("null");
                }
                let r = String::from_str("null");
                proof {
                    assert(r@ =~= seq!['n', 'u', 'l', 'l']);
                }
                r
            },
            PayloadValue::Named(vs) => {
                let ghost fm = vs@.map_values(|v: NamedFieldValue| v@);
                let mut out = String::new();
                proof {
                    reveal_strlit("{");
                    reveal_strlit("}");
                    reveal_strlit("\"");
                    reveal_strlit("\":");
                    reveal_strlit(",");
                    reveal_strlit("true");
                    reveal_strlit("false");
                }
                out.append("{");
                let n = vs.len();
                if n == 0 {
                    out.append("}");
                    proof {
                        assert(out@ =~= json_of(self@));
                    }
                    return out;
                }
                let mut i: usize = 0;
                proof {
                    assert(out@ =~= seq!['{']);
                    assert(fm.skip(0) =~= fm);
                    assert(seq!['{'] + json_fields(fm) =~= out@ + json_fields(fm.skip(0)));
                }
                while i < n
                    invariant
                        0 <= i <= n,
                        n == vs@.len(),
                        i < n ==> json_of(self@) == out@ + json_fields(fm.skip(i as int)),
                        i == n ==> out@ == json_of(self@),
                    decreases n - i,
                {
                    let ghost before = out@;
                    let ghost rest = fm.skip(i as int);
                    let v = &vs[i];
                    out.append("\"");
                    out.append(v.name.as_str());
                    out.append("\":");
                    match &v.value {
                        FieldValue::Bool(b) => {
                            if *b {
                                out.append("true");
                            } else {
                                out.append("false");
                            }
                        },
                        FieldValue::U64(x) => {
                            append_dec(&mut out, *x);
                        },
                    }
                    proof {
                        assert(rest[0] == fm[i as int]);
                        assert(out@ =~= before + (seq!['"'] + fm[i as int].name + seq!['"', ':']
                            + fval_chars(fm[i as int].value)));
                    }
                    if i + 1 == n {
                        out.append("}");
                        proof {
                            assert(rest.len() == 1);
                            assert(json_fields(rest) =~= (seq!['"'] + fm[i as int].name + seq![
                                '"',
                                ':',
                            ] + fval_chars(fm[i as int].value)) + seq!['}']);
                            assert(before + json_fields(rest) =~= out@);
                        }
                    } else {
                        out.append(",");
                        proof {
                            assert(rest.drop_first() =~= fm.skip(i + 1));
                            assert(json_fields(rest) =~= (seq!['"'] + fm[i as int].name + seq![
                                '"',
                                ':',
                            ] + fval_chars(fm[i as int].value)) + seq![','] + json_fields(
                                fm.skip(i + 1),
                            ));
                            assert(before + json_fields(rest) =~= out@ + json_fields(
                                fm.skip(i + 1),
                            ));
                        }
                    }
                    i = i + 1;
                }
                out
            },
        }
    }

    /// Reads a payload of the given field arrangement back from its
    /// textual encoding.  Exactly the canonical text is accepted: the
    /// read succeeds precisely when the input is the encoding of a
    /// payload of that arrangement, and then returns that payload.
    pub fn from_json(shape: &FieldShape, json: &str) -> (r: Result<PayloadValue, DecodeError>)
        ensures
            match r {
                Ok(p) => fits(p@, shape@) && json_of(p@) == json@,
                Err(_) => forall|p: PayloadModel| fits(p, shape@) ==> json_of(p) != json@,
            },
    {
        let n: usize = json.unicode_len();
        match shape {
            FieldShape::UnnamedFields(_) => Err(DecodeError::Invalid),
            FieldShape::NoFields => {
                proof {
                    reveal_strlit("null");
                }
                let expected = String::from_str("null");
                let given = String::from_str(json);
                if given == expected {
                    proof {
                        assert(json@ =~= seq!['n', 'u', 'l', 'l']);
                    }
                    Ok(PayloadValue::Empty)
                } else {
                    proof {
                        assert(json_of(PayloadModel::Empty) =~= "null"@);
                    }
                    Err(DecodeError::Invalid)
                }
            },
            FieldShape::NamedFields(ds) => {
                let ghost dm = ds@.map_values(|d: FieldDef| d@);
                if ds.len() == 0 {
                    proof {
                        reveal_strlit("{}");
                    }
                    let expected = String::from_str("{}");
                    let given = String::from_str(json);
                    if given == expected {
                        let p = PayloadValue::Named(Vec::new());
                        proof {
                            assert(p@->Named_0 =~= Seq::<FieldValModel>::empty());
                            assert(json_of(p@) =~= "{}"@);
                        }
                        Ok(p)
                    } else {
                        proof {
                            assert forall|p: PayloadModel| fits(p, shape@) implies json_of(p)
                                != json@ by {
                                assert(p->Named_0.len() == 0);
                                assert(json_of(p) =~= "{}"@);
                            }
                        }
                        Err(DecodeError::Invalid)
                    }
                } else {
                    match expect_lit(json, n, 0, "{") {
                        None => {
                            proof {
                                reveal_strlit("{");
                                assert forall|p: PayloadModel| fits(p, shape@) implies json_of(p)
                                    != json@ by {
                                    if json_of(p) == json@ {
                                        assert(json@[0] == '{');
                                        assert(json@.subrange(0, 1) =~= "{"@);
                                    }
                                }
                            }
                            Err(DecodeError::Invalid)
                        },
                        Some(start) => {
                            match read_json_fields(ds, 0, json, start) {
                                Ok(vs) => {
                                    let p = PayloadValue::Named(vs);
                                    proof {
                                        reveal_strlit("{");
                                        assert(dm.skip(0) =~= dm);
                                        assert(p@->Named_0 =~= vs@.map_values(
                                            |v: NamedFieldValue| v@,
                                        ));
                                        assert(json@.subrange(0, 1)[0] == json@[0]);
                                        assert(json_of(p@) =~= json@);
                                    }
                                    Ok(p)
                                },
                                Err(e) => {
                                    proof {
                                        reveal_strlit("{");
                                        assert(dm.skip(0) =~= dm);
                                        assert forall|p: PayloadModel|
                                            fits(p, shape@) implies json_of(p) != json@ by {
                                            if json_of(p) == json@ {
                                                let fm = p->Named_0;
                                                assert(json_of(p) == seq!['{'] + json_fields(fm));
                                                assert(json_fields(fm) =~= json@.skip(1));
                                            }
                                        }
                                    }
                                    Err(e)
                                },
                            }
                        },
                    }
                }
            },
        }
    }
}

/// Where each part of a fitting field list's encoding stands in the
/// text: the key, the value, and what follows the value.
proof fn lemma_fields_layout(fm: Seq<FieldValModel>, dk: Seq<FieldDefModel>, tail: Seq<char>)
    requires
        fields_fit(fm, dk),
        dk.len() > 0,
        json_fields(fm) == tail,
    ensures
        ({
            let pre = seq!['"'] + dk[0].name + seq!['"', ':'];
            let w = fval_chars(fm[0].value).len() as int;
            &&& fm.len() == dk.len()
            &&& fm[0].name == dk[0].name
            &&& tail.len() > pre.len() + w
            &&& tail.take(pre.len() as int) == pre
            &&& tail.subrange(pre.len() as int, pre.len() + w) == fval_chars(fm[0].value)
            &&& tail.skip(pre.len() + w) == (if fm.len() == 1 {
                seq!['}']
            } else {
                seq![','] + json_fields(fm.drop_first())
            })
        }),
{
    let pre = seq!['"'] + dk[0].name + seq!['"', ':'];
    let v0 = fval_chars(fm[0].value);
    let w = v0.len() as int;
    assert(field_fits(fm[0], dk[0]));
    let head = seq!['"'] + fm[0].name + seq!['"', ':'] + v0;
    assert(head =~= pre + v0);
    let after: Seq<char> = if fm.len() == 1 {
        seq!['}']
    } else {
        seq![','] + json_fields(fm.drop_first())
    };
    if fm.len() == 1 {
        assert(json_fields(fm) == head + seq!['}']);
    } else {
        assert(json_fields(fm) == head + seq![','] + json_fields(fm.drop_first()));
        assert(json_fields(fm) =~= head + (seq![','] + json_fields(fm.drop_first())));
    }
    assert(tail =~= head + after);
    assert(after.len() > 0);
    assert(tail.take(pre.len() as int) =~= pre);
    assert(tail.subrange(pre.len() as int, pre.len() + w) =~= v0);
    assert(tail.skip(pre.len() + w) =~= after);
}

/// Reads the field value of the given type at position `j3` of `s`.
/// A successful read returns the value whose encoding stands there; no
/// other value of that type has its encoding there followed by a
/// closing character.
fn read_value(ty: FieldType, s: &str, n: usize, j3: usize) -> (r: Option<(FieldValue, usize)>)
    requires
        n == s@.len(),
        j3 <= n,
    ensures
        match r {
            Some(p) => j3 < p.1 <= n && type_matches(p.0, ty) && s@.subrange(
                j3 as int,
                p.1 as int,
            ) == fval_chars(p.0) && (forall|v: FieldValue, w: int|
                #![trigger fval_chars(v), s@.subrange(j3 as int, w)]
                type_matches(v, ty) && j3 <= w <= n && s@.subrange(j3 as int, w) == fval_chars(v)
                    && w < n && is_term(s@[w]) ==> v == p.0 && w == p.1),
            None => forall|v: FieldValue, w: int|
                #![trigger fval_chars(v), s@.subrange(j3 as int, w)]
                type_matches(v, ty) && j3 <= w <= n ==> !(s@.subrange(j3 as int, w) == fval_chars(
                    v,
                ) && w < n && is_term(s@[w])),
        },
{
    proof {
        reveal_strlit("true");
        reveal_strlit("false");
        assert("true"@ =~= seq!['t', 'r', 'u', 'e']);
        assert("false"@ =~= seq!['f', 'a', 'l', 's', 'e']);
    }
    match ty {
        FieldType::Bool => {
            match expect_lit(s, n, j3, "true") {
                Some(j) => {
                    let p = (FieldValue::Bool(true), j);
                    proof {
                        assert forall|v: FieldValue, w: int|
                            type_matches(v, ty) && j3 <= w <= n && s@.subrange(j3 as int, w)
                            == fval_chars(v) && w < n && is_term(s@[w]) implies v == p.0 && w
                            == p.1 by {
                            if !(v->Bool_0) {
                                assert(s@.subrange(j3 as int, w)[0] == s@[j3 as int]);
                                assert(s@.subrange(j3 as int, j as int)[0] == s@[j3 as int]);
                                assert(false);
                            }
                        }
                    }
                    Some(p)
                },
                None => {
                    match expect_lit(s, n, j3, "false") {
                        Some(j) => {
                            let p = (FieldValue::Bool(false), j);
                            proof {
                                assert forall|v: FieldValue, w: int|
                                    type_matches(v, ty) && j3 <= w <= n && s@.subrange(
                                    j3 as int,
                                    w,
                                ) == fval_chars(v) && w < n && is_term(s@[w]) implies v == p.0
                                    && w == p.1 by {
                                    if v->Bool_0 {
                                        assert(s@.subrange(j3 as int, w)[0] == s@[j3 as int]);
                                        assert(s@.subrange(j3 as int, j as int)[0] == s@[
                                        j3 as int]);
                                        assert(false);
                                    }
                                }
                            }
                            Some(p)
                        },
                        None => {
                            proof {
                                assert forall|v: FieldValue, w: int|
                                    type_matches(v, ty) && j3 <= w <= n implies !(s@.subrange(
                                    j3 as int,
                                    w,
                                ) == fval_chars(v) && w < n && is_term(s@[w])) by {
                                    if s@.subrange(j3 as int, w) == fval_chars(v) {
                                        assert(v is Bool);
                                    }
                                }
                            }
                            None
                        },
                    }
                },
            }
        },
        FieldType::U64 => {
            proof {
                assert(!is_digit(',') && !is_digit('}'));
            }
            match parse_u64(s, n, j3) {
                Some((x, j)) => {
                    let p = (FieldValue::U64(x), j);
                    proof {
                        lemma_dec_chars_digits(x as nat);
                        assert forall|v: FieldValue, w: int|
                            type_matches(v, ty) && j3 <= w <= n && s@.subrange(j3 as int, w)
                            == fval_chars(v) && w < n && is_term(s@[w]) implies v == p.0 && w
                            == p.1 by {
                            let x0 = v->U64_0;
                            lemma_dec_chars_digits(x0 as nat);
                            assert(!is_digit(s@[w]));
                            if j < w {
                                assert(j < n);
                                assert(!is_digit(s@[j as int]));
                                assert(s@[j as int] == s@.subrange(j3 as int, w)[j - j3]);
                                assert(is_digit(dec_chars(x0 as nat)[j - j3]));
                                assert(false);
                            }
                            if w < j {
                                assert(s@[w] == s@.subrange(j3 as int, j as int)[w - j3]);
                                assert(is_digit(dec_chars(x as nat)[w - j3]));
                                assert(false);
                            }
                            assert(dec_chars(x as nat) == dec_chars(x0 as nat));
                            lemma_dec_val_of_chars(x as nat);
                            crate::numeral::lemma_dec_val_of_chars(x0 as nat);
                        }
                    }
                    Some(p)
                },
                None => {
                    proof {
                        assert forall|v: FieldValue, w: int|
                            type_matches(v, ty) && j3 <= w <= n implies !(s@.subrange(
                            j3 as int,
                            w,
                        ) == fval_chars(v) && w < n && is_term(s@[w])) by {
                            if s@.subrange(j3 as int, w) == fval_chars(v) && w < n && is_term(
                                s@[w],
                            ) {
                                assert(v is U64);
                                assert(!is_digit(s@[w]));
                                assert(s@.subrange(j3 as int, w) == dec_chars(v->U64_0 as nat));
                                assert(false);
                            }
                        }
                    }
                    None
                },
            }
        },
    }
}

/// What the text at position `i` and later must be for the fields `k`
/// and later of a declared arrangement: the encoding of a fitting
/// field list, through the closing brace and to the very end of the
/// text.
#[verifier::rlimit(100)]
fn read_json_fields(ds: &Vec<FieldDef>, k: usize, s: &str, i: usize) -> (r: Result<
    Vec<NamedFieldValue>,
    DecodeError,
>)
    requires
        k < ds@.len(),
        i <= s@.len(),
    ensures
        match r {
            Ok(vs) => fields_fit(
                vs@.map_values(|v: NamedFieldValue| v@),
                ds@.map_values(|d: FieldDef| d@).skip(k as int),
            ) && s@.skip(i as int) == json_fields(vs@.map_values(|v: NamedFieldValue| v@)),
            Err(_) => forall|fm: Seq<FieldValModel>|
                fields_fit(fm, ds@.map_values(|d: FieldDef| d@).skip(k as int))
                    ==> json_fields(fm) != s@.skip(i as int),
        },
    decreases ds@.len() - k,
{
    let ghost dm = ds@.map_values(|d: FieldDef| d@);
    let ghost dk = dm.skip(k as int);
    let ghost tail = s@.skip(i as int);
    let n = s.unicode_len();
    let m = ds.len();
    let d = &ds[k];
    proof {
        reveal_strlit("\"");
        reveal_strlit("\":");
        reveal_strlit("true");
        reveal_strlit("false");
        reveal_strlit(",");
        reveal_strlit("}");
        assert(dk[0] == d@);
        assert("\""@ =~= seq!['"']);
        assert("\":"@ =~= seq!['"', ':']);
        assert("true"@ =~= seq!['t', 'r', 'u', 'e']);
        assert("false"@ =~= seq!['f', 'a', 'l', 's', 'e']);
        assert(","@ =~= seq![',']);
        assert("}"@ =~= seq!['}']);
        assert(tail.len() == n - i);
        assert(forall|t: int| 0 <= t < tail.len() ==> #[trigger] tail[t] == s@[i + t]);
    }
    let ghost pre = seq!['"'] + d@.name + seq!['"', ':'];
    proof {
        assert(pre.len() == d@.name.len() + 3);
        assert(pre[0] == '"');
    }
    let j1 = match expect_lit(s, n, i, "\"") {
        Some(j) => j,
        None => {
            proof {
                assert forall|fm: Seq<FieldValModel>| fields_fit(fm, dk) implies json_fields(fm)
                    != tail by {
                    if json_fields(fm) == tail {
                        lemma_fields_layout(fm, dk, tail);
                        assert(tail[0] == pre[0]);
                        assert(s@.subrange(i as int, i + 1) =~= seq!['"']);
                        assert(false);
                    }
                }
            }
            return Err(DecodeError::Invalid);
        },
    };
    let j2 = match expect_lit(s, n, j1, d.name.as_str()) {
        Some(j) => j,
        None => {
            proof {
                let nm = d@.name;
                assert forall|fm: Seq<FieldValModel>| fields_fit(fm, dk) implies json_fields(fm)
                    != tail by {
                    if json_fields(fm) == tail {
                        lemma_fields_layout(fm, dk, tail);
                        assert(tail.take(pre.len() as int) == pre);
                        assert(j1 + nm.len() <= n);
                        assert forall|t: int|
                            0 <= t < nm.len() implies s@.subrange(j1 as int, j1 + nm.len())[t]
                            == nm[t] by {
                            assert(tail[1 + t] == s@[j1 + t]);
                            assert(tail.take(pre.len() as int)[1 + t] == pre[1 + t]);
                            assert(pre[1 + t] == nm[t]);
                        }
                        assert(s@.subrange(j1 as int, j1 + nm.len()) =~= nm);
                        assert(false);
                    }
                }
            }
            return Err(DecodeError::Invalid);
        },
    };
    let j3 = match expect_lit(s, n, j2, "\":") {
        Some(j) => j,
        None => {
            proof {
                let nm = d@.name;
                assert forall|fm: Seq<FieldValModel>| fields_fit(fm, dk) implies json_fields(fm)
                    != tail by {
                    if json_fields(fm) == tail {
                        lemma_fields_layout(fm, dk, tail);
                        assert(tail.take(pre.len() as int) == pre);
                        assert(pre[nm.len() as int + 1] == '"' && pre[nm.len() as int + 2] == ':');
                        assert(j2 + 2 <= n);
                        assert(s@[j2 as int] == tail[nm.len() as int + 1]);
                        assert(s@[j2 + 1] == tail[nm.len() as int + 2]);
                        assert(tail.take(pre.len() as int)[nm.len() as int + 1] == pre[nm.len() as int + 1]);
                        assert(tail.take(pre.len() as int)[nm.len() as int + 2] == pre[nm.len() as int + 2]);
                        assert(s@.subrange(j2 as int, j2 + 2) =~= seq!['"', ':']);
                        assert(false);
                    }
                }
            }
            return Err(DecodeError::Invalid);
        },
    };
    proof {
        assert(j3 == i + pre.len());
        assert forall|fm: Seq<FieldValModel>|
            fields_fit(fm, dk) && json_fields(fm) == tail implies s@.subrange(
            j3 as int,
            j3 + fval_chars(fm[0].value).len(),
        ) == fval_chars(fm[0].value) && j3 + fval_chars(fm[0].value).len() < n && is_term(
            s@[j3 + fval_chars(fm[0].value).len()],
        ) && type_matches(fm[0].value, d@.ty) by {
            lemma_fields_layout(fm, dk, tail);
            let w = fval_chars(fm[0].value).len() as int;
            assert(tail.subrange(pre.len() as int, pre.len() + w) == fval_chars(fm[0].value));
            assert(s@.subrange(j3 as int, j3 + w) =~= tail.subrange(
                pre.len() as int,
                pre.len() + w,
            ));
            let after = tail.skip(pre.len() + w);
            assert(s@[j3 + w] == tail[pre.len() + w]);
            assert(tail[pre.len() + w] == after[0]);
            assert(is_term(after[0]));
            assert(field_fits(fm[0], dk[0]));
        }
    }
    let parsed = match read_value(d.ty, s, n, j3) {
        Some(p) => p,
        None => {
            proof {
                assert forall|fm: Seq<FieldValModel>| fields_fit(fm, dk) implies json_fields(fm)
                    != tail by {
                    if json_fields(fm) == tail {
                        let w0 = j3 + fval_chars(fm[0].value).len();
                        assert(s@.subrange(j3 as int, w0 as int) == fval_chars(fm[0].value));
                        assert(w0 < n && is_term(s@[w0 as int]));
                        assert(type_matches(fm[0].value, d@.ty));
                        assert(false);
                    }
                }
            }
            return Err(DecodeError::Invalid);
        },
    };
    let value = parsed.0;
    let jv = parsed.1;
    proof {
        assert forall|fm: Seq<FieldValModel>|
            fields_fit(fm, dk) && json_fields(fm) == tail implies fm[0].value == value
            && jv as int == j3 + fval_chars(fm[0].value).len() by {
            let w0 = j3 + fval_chars(fm[0].value).len();
            assert(s@.subrange(j3 as int, w0 as int) == fval_chars(fm[0].value));
            assert(w0 < n && is_term(s@[w0 as int]));
            assert(type_matches(fm[0].value, d@.ty));
        }
    }
    proof {
        assert forall|fm: Seq<FieldValModel>|
            fields_fit(fm, dk) && json_fields(fm) == tail implies s@.skip(jv as int) == (
        if fm.len() == 1 {
            seq!['}']
        } else {
            seq![','] + json_fields(fm.drop_first())
        }) by {
            lemma_fields_layout(fm, dk, tail);
            let w = fval_chars(fm[0].value).len() as int;
            assert(fm[0].value == value);
            assert(jv == j3 + w);
            assert(s@.skip(jv as int) =~= tail.skip(pre.len() + w));
        }
    }
    let entry = NamedFieldValue { name: String::from_str(d.name.as_str()), value };
    proof {
        assert(field_fits(entry@, dk[0]));
    }
    if k + 1 == m {
        let jc = match expect_lit(s, n, jv, "}") {
            Some(j) => j,
            None => {
                proof {
                    assert forall|fm: Seq<FieldValModel>| fields_fit(
                        fm,
                        dk,
                    ) implies json_fields(fm) != tail by {
                        if json_fields(fm) == tail {
                            lemma_fields_layout(fm, dk, tail);
                            assert(fm.len() == 1);
                            assert(s@.skip(jv as int) == seq!['}']);
                            assert(s@[jv as int] == s@.skip(jv as int)[0]);
                            assert(jv + 1 <= n);
                            assert(s@.subrange(jv as int, jv + 1) =~= seq!['}']);
                            assert(false);
                        }
                    }
                }
                return Err(DecodeError::Invalid);
            },
        };
        if jc != n {
            proof {
                assert forall|fm: Seq<FieldValModel>| fields_fit(fm, dk) implies json_fields(fm)
                    != tail by {
                    if json_fields(fm) == tail {
                        lemma_fields_layout(fm, dk, tail);
                        assert(fm.len() == 1);
                        assert(s@.skip(jv as int) == seq!['}']);
                        assert(s@.skip(jv as int).len() == n - jv);
                        assert(false);
                    }
                }
            }
            return Err(DecodeError::Invalid);
        }
        let mut vs: Vec<NamedFieldValue> = Vec::new();
        vs.push(entry);
        proof {
            let fm = vs@.map_values(|v: NamedFieldValue| v@);
            assert(fm =~= seq![entry@]);
            assert(json_fields(fm) == (seq!['"'] + entry@.name + seq!['"', ':'] + fval_chars(
                value,
            )) + seq!['}']);
            assert(entry@.name == d@.name);
            assert(s@.subrange(jv as int, jc as int) == seq!['}']);
            assert(tail =~= (seq!['"'] + entry@.name + seq!['"', ':'] + fval_chars(value))
                + seq!['}']);
            assert(fields_fit(fm, dk));
        }
        Ok(vs)
    } else {
        let jc = match expect_lit(s, n, jv, ",") {
            Some(j) => j,
            None => {
                proof {
                    assert forall|fm: Seq<FieldValModel>| fields_fit(
                        fm,
                        dk,
                    ) implies json_fields(fm) != tail by {
                        if json_fields(fm) == tail {
                            lemma_fields_layout(fm, dk, tail);
                            assert(fm.len() > 1);
                            assert(s@.skip(jv as int) == seq![','] + json_fields(
                                fm.drop_first(),
                            ));
                            assert(s@[jv as int] == s@.skip(jv as int)[0]);
                            assert(jv + 1 <= n);
                            assert(s@.subrange(jv as int, jv + 1) =~= seq![',']);
                            assert(false);
                        }
                    }
                }
                return Err(DecodeError::Invalid);
            },
        };
        match read_json_fields(ds, k + 1, s, jc) {
            Ok(rest) => {
                let ghost rm = rest@.map_values(|v: NamedFieldValue| v@);
                let mut vs = rest;
                vs.insert(0, entry);
                proof {
                    let fm = vs@.map_values(|v: NamedFieldValue| v@);
                    assert(fm =~= seq![entry@] + rm);
                    assert(fm.drop_first() =~= rm);
                    assert(dm.skip(k + 1) =~= dk.drop_first());
                    assert(rm.len() == dm.skip(k + 1).len());
                    assert(fm.len() >= 2);
                    assert(json_fields(fm) == (seq!['"'] + entry@.name + seq!['"', ':']
                        + fval_chars(value)) + seq![','] + json_fields(rm));
                    assert(entry@.name == d@.name);
                    assert(s@.skip(jc as int) == json_fields(rm));
                    assert(s@.subrange(jv as int, jc as int) == seq![',']);
                    assert(tail =~= ((seq!['"'] + entry@.name + seq!['"', ':'] + fval_chars(
                        value,
                    )) + seq![',']) + json_fields(rm));
                    assert(fields_fit(fm, dk));
                }
                Ok(vs)
            },
            Err(e) => {
                proof {
                    assert(dm.skip(k + 1) =~= dk.drop_first());
                    assert forall|fm: Seq<FieldValModel>| fields_fit(fm, dk) implies json_fields(
                        fm,
                    ) != tail by {
                        if json_fields(fm) == tail {
                            lemma_fields_layout(fm, dk, tail);
                            assert(fm.len() > 1);
                            assert(s@.skip(jv as int) == seq![','] + json_fields(
                                fm.drop_first(),
                            ));
                            assert((seq![','] + json_fields(fm.drop_first())).skip(1)
                                =~= json_fields(fm.drop_first()));
                            assert(s@.skip(jv as int).skip(1) =~= s@.skip(jc as int));
                            assert(json_fields(fm.drop_first()) =~= s@.skip(jc as int));
                            assert(fields_fit(fm.drop_first(), dm.skip(k + 1)));
                        }
                    }
                }
                Err(e)
            },
        }
    }
}


/// Matches the characters of `lit` at position `i` of `s`, returning
/// the position just past them.
#[verifier::loop_isolation(false)]
fn expect_lit(s: &str, n: usize, i: usize, lit: &str) -> (r: Option<usize>)
    requires
        n == s@.len(),
        i <= n,
    ensures
        match r {
            Some(j) => i + lit@.len() == j && j <= n && s@.subrange(i as int, j as int) == lit@,
            None => !(i + lit@.len() <= n && s@.subrange(i as int, i + lit@.len()) == lit@),
        },
{
    let m = lit.unicode_len();
    if n - i < m {
        return None;
    }
    let mut k: usize = 0;
    while k < m
        invariant
            0 <= k <= m,
            forall|t: int| 0 <= t < k ==> s@[i + t] == lit@[t],
        decreases m - k,
    {
        if s.get_char(i + k) != lit.get_char(k) {
            proof {
                assert(s@.subrange(i as int, i + m)[k as int] == s@[i + k]);
            }
            return None;
        }
        k = k + 1;
    }
    proof {
        assert(s@.subrange(i as int, i + m) =~= lit@);
    }
    Some(i + m)
}

/// The value of a digit character, if it is one.
fn digit_of(c: char) -> (r: Option<u64>)
    ensures
        match r {
            Some(d) => is_digit(c) && d == digit_val(c),
            None => !is_digit(c),
        },
{
    match c {
        '0' => Some(0),
        '1' => Some(1),
        '2' => Some(2),
        '3' => Some(3),
        '4' => Some(4),
        '5' => Some(5),
        '6' => Some(6),
        '7' => Some(7),
        '8' => Some(8),
        '9' => Some(9),
        _ => None,
    }
}

/// Reads the canonical decimal numeral at position `i` of `s`: a
/// maximal run of digits with no leading zero whose value fits the
/// field type.  The read succeeds exactly when such a numeral stands
/// there, and returns its value and the position just past it.
#[verifier::loop_isolation(false)]
fn parse_u64(s: &str, n: usize, i: usize) -> (r: Option<(u64, usize)>)
    requires
        n == s@.len(),
        i <= n,
    ensures
        match r {
            Some(p) => i < p.1 <= n && s@.subrange(i as int, p.1 as int) == dec_chars(
                p.0 as nat,
            ) && (p.1 == n || !is_digit(s@[p.1 as int])),
            None => forall|x: u64, j: int|
                #![trigger s@.subrange(i as int, j), dec_chars(x as nat)]
                i <= j <= n ==> !(s@.subrange(i as int, j) == dec_chars(x as nat) && (j == n
                    || !is_digit(s@[j]))),
        },
{
    proof {
        assert forall|x: u64| #![trigger dec_chars(x as nat)] dec_chars(x as nat).len() >= 1
            && is_digit(dec_chars(x as nat)[0]) by {
            lemma_dec_chars_digits(x as nat);
        }
    }
    if i >= n {
        return None;
    }
    let d0 = match digit_of(s.get_char(i)) {
        Some(d) => d,
        None => {
            proof {
                assert forall|x: u64, j: int|
                    #![trigger s@.subrange(i as int, j), dec_chars(x as nat)]
                    i <= j <= n implies !(s@.subrange(i as int, j) == dec_chars(x as nat) && (j
                    == n || !is_digit(s@[j]))) by {
                    if s@.subrange(i as int, j) == dec_chars(x as nat) {
                        assert(s@[i as int] == dec_chars(x as nat)[0]);
                    }
                }
            }
            return None;
        },
    };
    if d0 == 0 {
        if i + 1 < n {
            match digit_of(s.get_char(i + 1)) {
                Some(_) => {
                    proof {
                        assert forall|x: u64, j: int|
                            #![trigger s@.subrange(i as int, j), dec_chars(x as nat)]
                            i <= j <= n implies !(s@.subrange(i as int, j) == dec_chars(
                            x as nat,
                        ) && (j == n || !is_digit(s@[j]))) by {
                            if s@.subrange(i as int, j) == dec_chars(x as nat) && (j == n
                                || !is_digit(s@[j])) {
                                crate::numeral::lemma_dec_chars_leading(x as nat);
                                assert(dec_chars(x as nat)[0] == s@[i as int]);
                                assert(s@[i as int] == '0');
                                assert(x == 0);
                                assert(dec_chars(0).len() == 1);
                                assert(j == i + 1);
                                assert(is_digit(s@[i + 1]));
                                assert(false);
                            }
                        }
                    }
                    return None;
                },
                None => {
                },
            }
        }
        proof {
            assert(s@[i as int] == '0');
            assert(s@.subrange(i as int, i + 1) =~= seq!['0']);
            assert(dec_chars(0) == seq![digit_char(0)]);
        }
        return Some((0, i + 1));
    }
    let mut j: usize = i + 1;
    let mut acc: u64 = d0;
    proof {
        assert(s@.subrange(i as int, i + 1) =~= seq![s@[i as int]]);
        assert(s@.subrange(i as int, i + 1).drop_last() =~= Seq::<char>::empty());
        assert(dec_val(Seq::<char>::empty()) == 0);
        assert(dec_val(s@.subrange(i as int, i + 1)) == digit_val(s@[i as int]));
    }
    loop
        invariant
            i < j <= n,
            acc == dec_val(s@.subrange(i as int, j as int)),
            forall|t: int| i <= t < j ==> is_digit(#[trigger] s@[t]),
            s@[i as int] != '0',
        decreases n - j,
    {
        if j >= n {
            proof {
                let run = s@.subrange(i as int, j as int);
                assert(run[0] == s@[i as int]);
                crate::numeral::lemma_dec_canonical(run);
            }
            return Some((acc, j));
        }
        let d = match digit_of(s.get_char(j)) {
            Some(d) => d,
            None => {
                proof {
                    let run = s@.subrange(i as int, j as int);
                    assert(run[0] == s@[i as int]);
                    crate::numeral::lemma_dec_canonical(run);
                }
                return Some((acc, j));
            },
        };
        if acc > (u64::MAX - d) / 10 {
            proof {
                assert(acc * 10 + d > u64::MAX) by (nonlinear_arith)
                    requires
                        acc > (u64::MAX - d) / 10,
                        0 <= d <= 9,
                ;
                assert forall|x: u64, jx: int|
                    #![trigger s@.subrange(i as int, jx), dec_chars(x as nat)]
                    i <= jx <= n implies !(s@.subrange(i as int, jx) == dec_chars(x as nat) && (
                jx == n || !is_digit(s@[jx]))) by {
                    if s@.subrange(i as int, jx) == dec_chars(x as nat) && (jx == n
                        || !is_digit(s@[jx])) {
                        if jx <= j {
                            assert(jx > i);
                            assert(jx < n);
                            assert(is_digit(s@[jx]));
                            assert(false);
                        } else {
                            let run = s@.subrange(i as int, jx);
                            lemma_dec_chars_digits(x as nat);
                            crate::numeral::lemma_dec_val_prefix(run, j + 1 - i);
                            crate::numeral::lemma_dec_val_of_chars(x as nat);
                            assert(run.take(j + 1 - i) =~= s@.subrange(i as int, j + 1));
                            assert(s@.subrange(i as int, j + 1).drop_last() =~= s@.subrange(
                                i as int,
                                j as int,
                            ));
                            assert(dec_val(s@.subrange(i as int, j + 1)) == acc * 10 + digit_val(
                                s@[j as int],
                            ));
                            assert(dec_val(run) == x);
                            assert(x <= u64::MAX);
                            assert(false);
                        }
                    }
                }
            }
            return None;
        }
        proof {
            assert(acc * 10 + d <= u64::MAX) by (nonlinear_arith)
                requires
                    acc <= (u64::MAX - d) / 10,
                    0 <= d <= 9,
            ;
            assert(s@.subrange(i as int, j + 1).drop_last() =~= s@.subrange(i as int, j as int));
            assert(s@.subrange(i as int, j + 1).last() == s@[j as int]);
        }
        acc = acc * 10 + d;
        j = j + 1;
    }
}

/// A character that closes a field value in the textual encoding.
pub open spec fn is_term(c: char) -> bool {
    c == ',' || c == '}'
}

proof fn lemma_cancel<A>(a: Seq<A>, x: Seq<A>, y: Seq<A>)
    requires
        a + x == a + y,
    ensures
        x == y,
{
    assert(x =~= (a + x).skip(a.len() as int));
    assert(y =~= (a + y).skip(a.len() as int));
}

proof fn lemma_tfree(a: Seq<char>, b: Seq<char>, x: Seq<char>, y: Seq<char>)
    requires
        a + x == b + y,
        x.len() > 0,
        y.len() > 0,
        is_term(x[0]),
        is_term(y[0]),
        forall|i: int| 0 <= i < a.len() ==> !is_term(#[trigger] a[i]),
        forall|i: int| 0 <= i < b.len() ==> !is_term(#[trigger] b[i]),
    ensures
        a == b,
        x == y,
{
    if a.len() < b.len() {
        assert((a + x)[a.len() as int] == x[0]);
        assert((b + y)[a.len() as int] == b[a.len() as int]);
        assert(false);
    }
    if b.len() < a.len() {
        assert((b + y)[b.len() as int] == y[0]);
        assert((a + x)[b.len() as int] == a[b.len() as int]);
        assert(false);
    }
    assert(a =~= (a + x).take(a.len() as int));
    assert(b =~= (b + y).take(b.len() as int));
    assert(x =~= (a + x).skip(a.len() as int));
    assert(y =~= (b + y).skip(b.len() as int));
}

proof fn lemma_fval_term_free(v: FieldValue)
    ensures
        fval_chars(v).len() > 0,
        forall|i: int| 0 <= i < fval_chars(v).len() ==> !is_term(#[trigger] fval_chars(v)[i]),
{
    match v {
        FieldValue::Bool(b) => {
        },
        FieldValue::U64(x) => {
            lemma_dec_chars_digits(x as nat);
            assert forall|i: int| 0 <= i < fval_chars(v).len() implies !is_term(
                #[trigger] fval_chars(v)[i],
            ) by {
                assert(is_digit(fval_chars(v)[i]));
            }
        },
    }
}

proof fn lemma_fval_inj(v: FieldValue, w: FieldValue)
    requires
        fval_chars(v) == fval_chars(w),
    ensures
        v == w,
{
    match (v, w) {
        (FieldValue::U64(x), FieldValue::U64(y)) => {
            lemma_dec_val_of_chars(x as nat);
            lemma_dec_val_of_chars(y as nat);
        },
        (FieldValue::Bool(b1), FieldValue::Bool(b2)) => {
            assert(fval_chars(v).len() == if b1 { 4int } else { 5int });
            assert(fval_chars(w).len() == if b2 { 4int } else { 5int });
        },
        (FieldValue::Bool(b), FieldValue::U64(y)) => {
            lemma_dec_chars_digits(y as nat);
            assert(is_digit(fval_chars(w)[0]));
            assert(fval_chars(v)[0] == if b { 't' } else { 'f' });
            assert(false);
        },
        (FieldValue::U64(x), FieldValue::Bool(b)) => {
            lemma_dec_chars_digits(x as nat);
            assert(is_digit(fval_chars(v)[0]));
            assert(fval_chars(w)[0] == if b { 't' } else { 'f' });
            assert(false);
        },
    }
}

proof fn lemma_fields_inj(fs: Seq<FieldValModel>, gs: Seq<FieldValModel>, ds: Seq<FieldDefModel>)
    requires
        fs.len() == ds.len(),
        gs.len() == ds.len(),
        forall|i: int| 0 <= i < fs.len() ==> field_fits(#[trigger] fs[i], ds[i]),
        forall|i: int| 0 <= i < gs.len() ==> field_fits(#[trigger] gs[i], ds[i]),
        json_fields(fs) == json_fields(gs),
    ensures
        fs == gs,
    decreases fs.len(),
{
    if fs.len() == 0 {
        assert(fs =~= gs);
    } else {
        let nm = ds[0].name;
        let pre = seq!['"'] + nm + seq!['"', ':'];
        let vf = fval_chars(fs[0].value);
        let vg = fval_chars(gs[0].value);
        let tailf: Seq<char> = if fs.len() == 1 {
            seq!['}']
        } else {
            seq![','] + json_fields(fs.drop_first())
        };
        let tailg: Seq<char> = if gs.len() == 1 {
            seq!['}']
        } else {
            seq![','] + json_fields(gs.drop_first())
        };
        assert(fs[0].name == nm && gs[0].name == nm);
        assert(json_fields(fs) =~= pre + (vf + tailf));
        assert(json_fields(gs) =~= pre + (vg + tailg));
        lemma_cancel(pre, vf + tailf, vg + tailg);
        lemma_fval_term_free(fs[0].value);
        lemma_fval_term_free(gs[0].value);
        assert(tailf.len() > 0 && is_term(tailf[0]));
        assert(tailg.len() > 0 && is_term(tailg[0]));
        lemma_tfree(vf, vg, tailf, tailg);
        lemma_fval_inj(fs[0].value, gs[0].value);
        assert(fs[0] == gs[0]);
        if fs.len() > 1 {
            lemma_cancel(seq![','], json_fields(fs.drop_first()), json_fields(gs.drop_first()));
            assert(forall|i: int|
                0 <= i < fs.drop_first().len() ==> field_fits(
                    #[trigger] fs.drop_first()[i],
                    ds.drop_first()[i],
                ));
            assert(forall|i: int|
                0 <= i < gs.drop_first().len() ==> field_fits(
                    #[trigger] gs.drop_first()[i],
                    ds.drop_first()[i],
                ));
            lemma_fields_inj(fs.drop_first(), gs.drop_first(), ds.drop_first());
        } else {
            assert(gs.len() == 1);
        }
        assert forall|i: int| 0 <= i < fs.len() implies fs[i] == gs[i] by {
            if i > 0 {
                assert(fs.drop_first()[i - 1] == fs[i]);
                assert(gs.drop_first()[i - 1] == gs[i]);
            }
        }
        assert(fs =~= gs);
    }
}

/// The textual encoding is lossless: two payloads of one field
/// arrangement with the same encoding are the same payload.  Together
/// with the encoder's and decoder's contracts, reading an encoded
/// payload back yields the payload that was encoded.
pub proof fn lemma_json_lossless(p: PayloadModel, q: PayloadModel, s: ShapeModel)
    requires
        fits(p, s),
        fits(q, s),
        json_of(p) == json_of(q),
    ensures
        p == q,
{
    match s {
        ShapeModel::NoFields => {
            assert(p is Empty && q is Empty);
        },
        ShapeModel::Named(ds) => {
            let fs = p->Named_0;
            let gs = q->Named_0;
            lemma_cancel(seq!['{'], json_fields(fs), json_fields(gs));
            lemma_fields_inj(fs, gs, ds);
        },
        ShapeModel::Unnamed(_) => {
            assert(false);
        },
    }
}

} // verus!
