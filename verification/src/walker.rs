//! Schema validation.
//!
//! One pass over the declared kinds, in declaration order.  Each kind
//! must declare exactly one topic template annotation whose argument is
//! a non-empty string, and a supported field arrangement.  The pass
//! stops at the first error: a failing schema yields one diagnostic and
//! no validated kinds at all.

use vstd::prelude::*;

use crate::schema::{
    ErrorModel, FieldShape, KindDeclaration, KindModel, SchemaError, TopicArg, TopicArgModel,
    kinds_view, shape_supported,
};
use crate::template::{normalized_of, placeholders_of};

verus! {

/// The validation error of one kind, if any.
pub open spec fn kind_error(k: KindModel) -> Option<ErrorModel> {
    if k.topics.len() == 0 {
        Some(ErrorModel::Missing(k.name))
    } else if k.topics.len() > 1 {
        Some(ErrorModel::Malformed(k.name))
    } else {
        match k.topics[0] {
            TopicArgModel::NotStr => Some(ErrorModel::Malformed(k.name)),
            TopicArgModel::Str(t) => if t.len() == 0 {
                Some(ErrorModel::Malformed(k.name))
            } else if !shape_supported(k.shape) {
                Some(ErrorModel::Unsupported(k.name))
            } else {
                None
            },
        }
    }
}

/// The topic template of a kind that validated.
pub open spec fn kind_template(k: KindModel) -> Seq<char> {
    match k.topics[0] {
        TopicArgModel::Str(t) => t,
        TopicArgModel::NotStr => Seq::empty(),
    }
}

/// The first validation error of a schema, in declaration order.
pub open spec fn first_error(s: Seq<KindModel>) -> Option<ErrorModel>
    decreases s.len(),
{
    if s.len() == 0 {
        None
    } else if kind_error(s[0]) is Some {
        kind_error(s[0])
    } else {
        first_error(s.drop_first())
    }
}

/// A kind that passed validation, with its parsed template.
#[derive(Debug)]
pub struct ValidatedKind {
    /// The declaration as it stood in the schema.
    pub decl: KindDeclaration,
    /// The kind's topic template.
    pub template: String,
    /// The template with each placeholder span replaced by `{}`.
    pub normalized: String,
    /// The placeholder names, in first-occurrence order.
    pub placeholders: Vec<String>,
}

/// Spec-level form of a validated kind.
pub struct ValidatedModel {
    pub decl: KindModel,
    pub template: Seq<char>,
    pub normalized: Seq<char>,
    pub placeholders: Seq<Seq<char>>,
}

impl View for ValidatedKind {
    type V = ValidatedModel;

    open spec fn view(&self) -> ValidatedModel {
        ValidatedModel {
            decl: self.decl@,
            template: self.template@,
            normalized: self.normalized@,
            placeholders: self.placeholders.deep_view(),
        }
    }
}

/// What validation guarantees of each entry it returns.
pub open spec fn validated_ok(v: ValidatedModel, k: KindModel) -> bool {
    &&& v.decl == k
    &&& kind_error(k) is None
    &&& v.template == kind_template(k)
    &&& v.normalized == normalized_of(v.template)
    &&& v.placeholders == placeholders_of(v.template)
}

/// Validates a schema: returns one entry per kind, each with its parsed
/// template, or the first schema error in declaration order.  An
/// erring schema produces no validated kinds at all.
#[verifier::loop_isolation(false)]
pub fn walk(schema: Vec<KindDeclaration>) -> (r: Result<Vec<ValidatedKind>, SchemaError>)
    ensures
        match r {
            Ok(v) => {
                &&& first_error(kinds_view(schema@)) is None
                &&& v@.len() == schema@.len()
                &&& forall|i: int|
                    0 <= i < v@.len() ==> validated_ok(#[trigger] v@[i]@, kinds_view(schema@)[i])
            },
            Err(e) => first_error(kinds_view(schema@)) == Some(e@),
        },
{
    let ghost all = kinds_view(schema@);
    let mut rest = schema;
    let mut out: Vec<ValidatedKind> = Vec::new();
    proof {
        assert(kinds_view(rest@) =~= all);
        assert(all.skip(0) =~= all);
    }
    while rest.len() > 0
        invariant
            out@.len() + rest@.len() == all.len(),
            kinds_view(rest@) =~= all.skip(out@.len() as int),
            first_error(all) == first_error(kinds_view(rest@)),
            forall|i: int| 0 <= i < out@.len() ==> validated_ok(#[trigger] out@[i]@, all[i]),
        decreases rest@.len(),
    {
        let ghost done = out@.len() as int;
        let ghost remaining = kinds_view(rest@);
        let k = rest.remove(0);
        let ghost km = k@;
        proof {
            assert(remaining[0] == km);
            assert(remaining.drop_first() =~= kinds_view(rest@));
            assert(kinds_view(rest@) =~= all.skip(done + 1));
            assert(all.skip(done)[0] == all[done]);
            assert(km == all[done]);
        }
        let n_topics = k.topics.len();
        if n_topics == 0 {
            proof {
                assert(km.topics.len() == 0);
                assert(first_error(remaining) == kind_error(km));
                assert(first_error(all) == Some(ErrorModel::Missing(km.name)));
            }
            return Err(SchemaError::MissingTopicTemplate(k.name));
        }
        if n_topics > 1 {
            proof {
                assert(km.topics.len() > 1);
                assert(first_error(remaining) == kind_error(km));
            }
            return Err(SchemaError::MalformedTopicTemplate(k.name));
        }
        proof {
            assert(km.topics.len() == 1);
            assert(km.topics[0] == k.topics@[0]@);
        }
        let template: String = match &k.topics[0] {
            TopicArg::StringArg(t) => String::from_str(t.as_str()),
            TopicArg::NotAString => {
                proof {
                    assert(km.topics[0] is NotStr);
                    assert(first_error(remaining) == kind_error(km));
                }
                return Err(SchemaError::MalformedTopicTemplate(k.name));
            },
        };
        if template.as_str().unicode_len() == 0 {
            proof {
                assert(kind_template(km).len() == 0);
                assert(first_error(remaining) == kind_error(km));
            }
            return Err(SchemaError::MalformedTopicTemplate(k.name));
        }
        let supported: bool = match &k.fields {
            FieldShape::NoFields => true,
            FieldShape::NamedFields(_) => true,
            FieldShape::UnnamedFields(_) => false,
        };
        if !supported {
            proof {
                assert(!shape_supported(km.shape));
                assert(first_error(remaining) == kind_error(km));
            }
            return Err(SchemaError::UnsupportedFieldShape(k.name));
        }
        proof {
            assert(kind_error(k@) is None);
            assert(template@ == kind_template(k@));
        }
        let (normalized, placeholders) = crate::template::parse(template.as_str());
        let entry = ValidatedKind { decl: k, template, normalized, placeholders };
        proof {
            assert(validated_ok(entry@, all[done]));
        }
        out.push(entry);
    }
    proof {
        assert(kinds_view(rest@).len() == 0);
        assert(first_error(kinds_view(rest@)) is None);
    }
    Ok(out)
}

} // verus!
