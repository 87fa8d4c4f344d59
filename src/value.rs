use vstd::prelude::*;
use vstd::string::*;

verus! {

/// A key of a mapping, as the caller supplied it.
#[derive(Debug)]
pub enum Key {
    Text(String),
    Bool(bool),
    Null,
    /// A key of any other kind, with its textual representation.
    Unsupported(String),
}

/// A value that has no JSON shape: its textual representation where it has
/// one, and the name of its type.
#[derive(Debug)]
pub struct Foreign {
    pub repr: Option<String>,
    pub class_name: String,
}

/// A dynamically typed payload.
#[derive(Debug)]
pub enum Value {
    Null,
    Bool(bool),
    Int(i64),
    UInt(u64),
    /// A floating-point number, held as the JSON number text it was formatted
    /// to where it was produced; it is written as it stands.
    Float(String),
    Text(String),
    Sequence(Vec<Value>),
    /// Entries in insertion order.
    Mapping(Vec<(Key, Value)>),
    Foreign(Foreign),
}

/// The kinds of classification failure.
#[derive(Debug, Clone, Copy, PartialEq, Eq, Structural)]
pub enum FailureKind {
    /// A value with no JSON shape, described by its representation.
    ValueNotSerializable,
    /// A value with no JSON shape and no representation, described by its type.
    TypeNotSerializable,
    /// A mapping key that is neither text, a boolean nor null.
    KeyNotText,
}

/// A payload that cannot be written as JSON, with a description of the
/// offending value.
#[derive(Debug)]
pub struct ClassificationError {
    pub kind: FailureKind,
    pub detail: String,
}

/// What a classification failure says, as the contracts see it.
pub ghost struct Failure {
    pub kind: FailureKind,
    pub detail: Seq<char>,
}

impl View for ClassificationError {
    type V = Failure;

    open spec fn view(&self) -> Failure {
        Failure { kind: self.kind, detail: self.detail@ }
    }
}

/// The failure that a foreign value gives.
pub open spec fn foreign_failure(f: Foreign) -> Failure {
    match f.repr {
        Some(r) => Failure { kind: FailureKind::ValueNotSerializable, detail: r@ },
        None => Failure { kind: FailureKind::TypeNotSerializable, detail: f.class_name@ },
    }
}

/// The text that a key stands for in JSON, or the failure it gives.
pub open spec fn key_text(k: Key) -> Result<Seq<char>, Failure> {
    match k {
        Key::Text(s) => Ok(s@),
        Key::Bool(b) => Ok(
            if b {
                "true"@
            } else {
                "false"@
            },
        ),
        Key::Null => Ok("null"@),
        Key::Unsupported(s) => Err(Failure { kind: FailureKind::KeyNotText, detail: s@ }),
    }
}

impl ClassificationError {
    /// A human-readable description of the failure.
    pub fn message(&self) -> (m: String)
        ensures
            m@ == failure_prefix(self.kind) + self.detail@,
    {
        let prefix = match self.kind {
            FailureKind::ValueNotSerializable => String::from_str("Value is not JSON serializable: "),
            FailureKind::TypeNotSerializable => String::from_str("Type is not JSON serializable: "),
            FailureKind::KeyNotText => String::from_str("Dictionary key is not a string: "),
        };
        prefix.concat(self.detail.as_str())
    }
}

/// The words that open the message of each kind of failure.
pub open spec fn failure_prefix(k: FailureKind) -> Seq<char> {
    match k {
        FailureKind::ValueNotSerializable => "Value is not JSON serializable: "@,
        FailureKind::TypeNotSerializable => "Type is not JSON serializable: "@,
        FailureKind::KeyNotText => "Dictionary key is not a string: "@,
    }
}

} // verus!
