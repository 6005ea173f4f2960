//! The schema data model.
//!
//! A schema is an ordered sequence of kind declarations.  Each kind
//! carries a name in capitalized-word form, the topic template
//! annotations found on it (exactly one is required, and its argument
//! must be a non-empty string), and its declared field arrangement.
//! Only kinds with no fields or with a flat set of named fields are
//! supported; any other arrangement is a schema error.

use vstd::prelude::*;

verus! {

/// The type of a named payload field.
#[derive(Clone, Copy, PartialEq, Eq, Structural, Debug)]
pub enum FieldType {
    Bool,
    U64,
}

/// One named field declaration: a field name and its type.
#[derive(Debug)]
pub struct FieldDef {
    pub name: String,
    pub ty: FieldType,
}

/// Spec-level form of a field declaration.
pub struct FieldDefModel {
    pub name: Seq<char>,
    pub ty: FieldType,
}

impl View for FieldDef {
    type V = FieldDefModel;

    open spec fn view(&self) -> FieldDefModel {
        FieldDefModel { name: self.name@, ty: self.ty }
    }
}

/// The field arrangement a kind declares.
#[derive(Debug)]
pub enum FieldShape {
    /// The kind has no payload fields.
    NoFields,
    /// The kind has a flat set of named fields, in declaration order.
    NamedFields(Vec<FieldDef>),
    /// The kind has positional fields; this arrangement is not
    /// supported and fails validation.
    UnnamedFields(Vec<FieldType>),
}

/// Spec-level form of a field arrangement.
pub enum ShapeModel {
    NoFields,
    Named(Seq<FieldDefModel>),
    Unnamed(Seq<FieldType>),
}

impl View for FieldShape {
    type V = ShapeModel;

    open spec fn view(&self) -> ShapeModel {
        match self {
            FieldShape::NoFields => ShapeModel::NoFields,
            FieldShape::NamedFields(fs) => ShapeModel::Named(
                fs@.map_values(|f: FieldDef| f@),
            ),
            FieldShape::UnnamedFields(ts) => ShapeModel::Unnamed(ts@),
        }
    }
}

/// Whether a field arrangement is one of the two supported forms.
pub open spec fn shape_supported(s: ShapeModel) -> bool {
    !(s is Unnamed)
}

/// The argument of one topic template annotation.
#[derive(Debug)]
pub enum TopicArg {
    /// A plain string literal argument.
    StringArg(String),
    /// Anything that is not a plain string literal.
    NotAString,
}

/// Spec-level form of a topic annotation argument.
pub enum TopicArgModel {
    Str(Seq<char>),
    NotStr,
}

impl View for TopicArg {
    type V = TopicArgModel;

    open spec fn view(&self) -> TopicArgModel {
        match self {
            TopicArg::StringArg(s) => TopicArgModel::Str(s@),
            TopicArg::NotAString => TopicArgModel::NotStr,
        }
    }
}

/// One kind declaration of the schema.
#[derive(Debug)]
pub struct KindDeclaration {
    /// The kind name, in capitalized-word form.
    pub name: String,
    /// The topic template annotations declared on the kind, in order.
    pub topics: Vec<TopicArg>,
    /// The declared field arrangement.
    pub fields: FieldShape,
}

/// Spec-level form of a kind declaration.
pub struct KindModel {
    pub name: Seq<char>,
    pub topics: Seq<TopicArgModel>,
    pub shape: ShapeModel,
}

impl View for KindDeclaration {
    type V = KindModel;

    open spec fn view(&self) -> KindModel {
        KindModel {
            name: self.name@,
            topics: self.topics@.map_values(|t: TopicArg| t@),
            shape: self.fields@,
        }
    }
}

/// The spec-level form of a whole schema.
pub open spec fn kinds_view(s: Seq<KindDeclaration>) -> Seq<KindModel> {
    s.map_values(|k: KindDeclaration| k@)
}

/// A fatal schema validation failure, attached to the offending kind.
#[derive(Debug, PartialEq)]
pub enum SchemaError {
    /// The kind declares no topic template annotation.
    MissingTopicTemplate(String),
    /// The kind's topic template annotation is unusable: more than one
    /// is declared, the argument is not a plain string literal, or the
    /// template string is empty.
    MalformedTopicTemplate(String),
    /// The kind's field arrangement is neither "no fields" nor a flat
    /// set of named fields.
    UnsupportedFieldShape(String),
}

/// Spec-level form of a schema error.
pub enum ErrorModel {
    Missing(Seq<char>),
    Malformed(Seq<char>),
    Unsupported(Seq<char>),
}

impl View for SchemaError {
    type V = ErrorModel;

    open spec fn view(&self) -> ErrorModel {
        match self {
            SchemaError::MissingTopicTemplate(n) => ErrorModel::Missing(n@),
            SchemaError::MalformedTopicTemplate(n) => ErrorModel::Malformed(n@),
            SchemaError::UnsupportedFieldShape(n) => ErrorModel::Unsupported(n@),
        }
    }
}

/// The human-readable diagnostic text for a schema error.
pub open spec fn message_of(e: ErrorModel) -> Seq<char> {
    match e {
        ErrorModel::Missing(n) => "kind '"@ + n
            + "': the topic template annotation is required; declare exactly one, as in topic(\"system/{id}/start\")"@,
        ErrorModel::Malformed(n) => "kind '"@ + n
            + "': the topic template annotation needs a single non-empty string argument, as in topic(\"system/{id}/start\")"@,
        ErrorModel::Unsupported(n) => "kind '"@ + n
            + "': only kinds with no fields or with a flat set of named fields are supported"@,
    }
}

impl SchemaError {
    /// The name of the kind the error is attached to.
    pub fn kind_name(&self) -> (r: &String)
        ensures
            match self@ {
                ErrorModel::Missing(n) => r@ == n,
                ErrorModel::Malformed(n) => r@ == n,
                ErrorModel::Unsupported(n) => r@ == n,
            },
    {
        match self {
            SchemaError::MissingTopicTemplate(n) => n,
            SchemaError::MalformedTopicTemplate(n) => n,
            SchemaError::UnsupportedFieldShape(n) => n,
        }
    }

    /// The human-readable diagnostic, naming the offending kind and the
    /// expected annotation shape.
    pub fn message(&self) -> (r: String)
        ensures
            r@ == message_of(self@),
    {
        let mut out = String::new();
        out.append("kind '");
        match self {
            SchemaError::MissingTopicTemplate(n) => {
                out.append(n.as_str());
                out.append(
                    "': the topic template annotation is required; declare exactly one, as in topic(\"system/{id}/start\")",
                );
            },
            SchemaError::MalformedTopicTemplate(n) => {
                out.append(n.as_str());
                out.append(
                    "': the topic template annotation needs a single non-empty string argument, as in topic(\"system/{id}/start\")",
                );
            },
            SchemaError::UnsupportedFieldShape(n) => {
                out.append(n.as_str());
                out.append(
                    "': only kinds with no fields or with a flat set of named fields are supported",
                );
            },
        }
        proof {
            assert(out@ =~= message_of(self@));
        }
        out
    }
}

} // verus!
