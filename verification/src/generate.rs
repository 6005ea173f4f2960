//! Artifact generation.
//!
//! For each validated kind the generator derives the payload type name
//! `<KindName>Payload`, the message-constructor name `<snake_kind>`, the
//! topic-builder name `<snake_kind>_topic`, the parameter list (the
//! template's placeholders, in extraction order), and the normalized
//! template.  The generated artifact renders topics and builds default
//! payloads at runtime; its arguments feed only the topic, never the
//! payload fields.

use vstd::prelude::*;

use crate::casing::{snake_of, to_snake_case};
use crate::payload::{default_of, default_payload, PayloadValue};
use crate::schema::{kinds_view, FieldShape, KindDeclaration, KindModel, SchemaError, ShapeModel,
    shape_supported};
use crate::template::{marker_count, normalized_of, placeholders_of, render, render_chars};
use crate::walker::{first_error, kind_template, walk, ValidatedKind};

verus! {

/// One generated artifact: the names, parameters, and normalized
/// template derived from a validated kind.
#[derive(Debug)]
pub struct GeneratedKind {
    /// The payload type name, `<KindName>Payload`.
    pub payload_type_name: String,
    /// The message-constructor name, the snake-cased kind name.
    pub message_fn_name: String,
    /// The topic-builder name, `<snake_kind>_topic`.
    pub topic_fn_name: String,
    /// One parameter per placeholder, in extraction order.
    pub params: Vec<String>,
    /// The topic template with placeholders replaced by `{}`.
    pub normalized: String,
    /// The kind's field arrangement, mirrored by the payload type.
    pub shape: FieldShape,
}

/// Spec-level form of a generated artifact.
pub struct GeneratedModel {
    pub payload_type_name: Seq<char>,
    pub message_fn_name: Seq<char>,
    pub topic_fn_name: Seq<char>,
    pub params: Seq<Seq<char>>,
    pub normalized: Seq<char>,
    pub shape: ShapeModel,
}

impl View for GeneratedKind {
    type V = GeneratedModel;

    open spec fn view(&self) -> GeneratedModel {
        GeneratedModel {
            payload_type_name: self.payload_type_name@,
            message_fn_name: self.message_fn_name@,
            topic_fn_name: self.topic_fn_name@,
            params: self.params.deep_view(),
            normalized: self.normalized@,
            shape: self.shape@,
        }
    }
}

/// The artifact a kind declaration determines.
pub open spec fn generated_from(k: KindModel) -> GeneratedModel {
    let t = kind_template(k);
    GeneratedModel {
        payload_type_name: k.name + "Payload"@,
        message_fn_name: snake_of(k.name),
        topic_fn_name: snake_of(k.name) + "_topic"@,
        params: placeholders_of(t),
        normalized: normalized_of(t),
        shape: k.shape,
    }
}

/// Internal consistency of a generated artifact: the normalized
/// template holds one marker per parameter, and the field arrangement
/// is a supported one.
pub open spec fn generated_wf(g: GeneratedModel) -> bool {
    &&& marker_count(g.normalized) == g.params.len()
    &&& shape_supported(g.shape)
}

/// Derives the generated artifact of one validated kind.
pub fn generate(v: ValidatedKind) -> (r: GeneratedKind)
    requires
        crate::walker::validated_ok(v@, v@.decl),
    ensures
        r@ == generated_from(v@.decl),
        generated_wf(r@),
{
    let mut payload_type_name = String::from_str(v.decl.name.as_str());
    payload_type_name.append("Payload");
    let message_fn_name = to_snake_case(v.decl.name.as_str());
    let mut topic_fn_name = String::from_str(message_fn_name.as_str());
    topic_fn_name.append("_topic");
    proof {
        crate::template::lemma_parse_substitution(v@.template);
    }
    GeneratedKind {
        payload_type_name,
        message_fn_name,
        topic_fn_name,
        params: v.placeholders,
        normalized: v.normalized,
        shape: v.decl.fields,
    }
}

impl GeneratedKind {
    /// Renders the kind's topic by substituting the arguments, one per
    /// placeholder, positionally; any argument string is accepted
    /// verbatim.
    pub fn topic(&self, args: &Vec<String>) -> (r: String)
        requires
            generated_wf(self@),
            args.len() == self@.params.len(),
        ensures
            r@ == render_chars(self@.normalized, args.deep_view()),
    {
        render(self.normalized.as_str(), args)
    }

    /// Renders the kind's topic and pairs it with the default payload.
    /// The arguments feed only the topic: the payload is the default
    /// value of the kind's field arrangement, whatever the arguments.
    pub fn message(&self, args: &Vec<String>) -> (r: (String, PayloadValue))
        requires
            generated_wf(self@),
            args.len() == self@.params.len(),
        ensures
            r.0@ == render_chars(self@.normalized, args.deep_view()),
            r.1@ == default_of(self@.shape),
    {
        let topic = self.topic(args);
        let payload = default_payload(&self.shape);
        (topic, payload)
    }
}

/// Validates a schema and derives the artifact of every kind, or fails
/// with the first schema error in declaration order, generating
/// nothing.
#[verifier::loop_isolation(false)]
pub fn generate_all(schema: Vec<KindDeclaration>) -> (r: Result<Vec<GeneratedKind>, SchemaError>)
    ensures
        match r {
            Ok(g) => {
                &&& first_error(kinds_view(schema@)) is None
                &&& g@.len() == schema@.len()
                &&& forall|i: int|
                    0 <= i < g@.len() ==> (#[trigger] g@[i]@) == generated_from(
                        kinds_view(schema@)[i],
                    ) && generated_wf(g@[i]@)
            },
            Err(e) => first_error(kinds_view(schema@)) == Some(e@),
        },
{
    let ghost all = kinds_view(schema@);
    let validated = match walk(schema) {
        Ok(v) => v,
        Err(e) => {
            return Err(e);
        },
    };
    let mut rest = validated;
    let mut out: Vec<GeneratedKind> = Vec::new();
    proof {
        assert(rest@.skip(0) =~= rest@);
    }
    while rest.len() > 0
        invariant
            out@.len() + rest@.len() == all.len(),
            rest@ =~= validated@.skip(out@.len() as int),
            forall|i: int|
                0 <= i < out@.len() ==> (#[trigger] out@[i]@) == generated_from(all[i])
                    && generated_wf(out@[i]@),
        decreases rest@.len(),
    {
        let ghost done = out@.len() as int;
        let v = rest.remove(0);
        proof {
            assert(validated@[done] == v);
            assert(rest@ =~= validated@.skip(done + 1));
            assert(crate::walker::validated_ok(v@, all[done]));
            assert(v@.decl == all[done]);
        }
        let g = generate(v);
        out.push(g);
    }
    Ok(out)
}

} // verus!
