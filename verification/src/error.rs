//! Failures: a stable kind tag and a free-text description.
use vstd::prelude::*;
use vstd::string::StringExecFns;

verus! {

/// Kind tag of a failed serialization.
#[derive(Debug, Clone, Copy, PartialEq, Eq, Structural)]
pub enum AeonSerializeErrorCode {
    ConversionFailed,
    SerializationFailed,
}

/// Kind tag of a failed deserialization.
#[derive(Debug, Clone, Copy, PartialEq, Eq, Structural)]
pub enum AeonDeserializeErrorCode {
    ConversionFailed,
    DeserializationFailed,
    LexingFailed,
}

impl AeonSerializeErrorCode {
    /// The tag's name as text.
    pub open spec fn name(self) -> Seq<char> {
        match self {
            AeonSerializeErrorCode::ConversionFailed => "ConversionFailed"@,
            AeonSerializeErrorCode::SerializationFailed => "SerializationFailed"@,
        }
    }

    pub fn variant_name(&self) -> (r: &'static str)
        ensures
            r@ == self.name(),
    {
        match self {
            AeonSerializeErrorCode::ConversionFailed => "ConversionFailed",
            AeonSerializeErrorCode::SerializationFailed => "SerializationFailed",
        }
    }
}

impl AeonDeserializeErrorCode {
    /// The tag's name as text.
    pub open spec fn name(self) -> Seq<char> {
        match self {
            AeonDeserializeErrorCode::ConversionFailed => "ConversionFailed"@,
            AeonDeserializeErrorCode::DeserializationFailed => "DeserializationFailed"@,
            AeonDeserializeErrorCode::LexingFailed => "LexingFailed"@,
        }
    }

    pub fn variant_name(&self) -> (r: &'static str)
        ensures
            r@ == self.name(),
    {
        match self {
            AeonDeserializeErrorCode::ConversionFailed => "ConversionFailed",
            AeonDeserializeErrorCode::DeserializationFailed => "DeserializationFailed",
            AeonDeserializeErrorCode::LexingFailed => "LexingFailed",
        }
    }
}

/// A failed serialization: a stable kind tag and a free-text description.
#[derive(Debug)]
pub struct AeonSerializeError {
    pub code: AeonSerializeErrorCode,
    pub message: String,
}

/// A failed deserialization: a stable kind tag and a free-text description.
#[derive(Debug)]
pub struct AeonDeserializeError {
    pub code: AeonDeserializeErrorCode,
    pub message: String,
}

/// Mathematical model of an [`AeonSerializeError`].
pub struct SerializeFailure {
    pub code: AeonSerializeErrorCode,
    pub message: Seq<char>,
}

/// Mathematical model of an [`AeonDeserializeError`].
pub struct Failure {
    pub code: AeonDeserializeErrorCode,
    pub message: Seq<char>,
}

impl Failure {
    pub open spec fn lexing(message: Seq<char>) -> Failure {
        Failure { code: AeonDeserializeErrorCode::LexingFailed, message }
    }

    pub open spec fn deserialization(message: Seq<char>) -> Failure {
        Failure { code: AeonDeserializeErrorCode::DeserializationFailed, message }
    }

    pub open spec fn conversion(message: Seq<char>) -> Failure {
        Failure { code: AeonDeserializeErrorCode::ConversionFailed, message }
    }

    /// The rendering `<kind>: <description>`.
    pub open spec fn text(self) -> Seq<char> {
        self.code.name() + ": "@ + self.message
    }
}

impl SerializeFailure {
    /// The rendering `<kind>: <description>`.
    pub open spec fn text(self) -> Seq<char> {
        self.code.name() + ": "@ + self.message
    }
}

impl View for AeonSerializeError {
    type V = SerializeFailure;

    open spec fn view(&self) -> SerializeFailure {
        SerializeFailure { code: self.code, message: self.message@ }
    }
}

impl View for AeonDeserializeError {
    type V = Failure;

    open spec fn view(&self) -> Failure {
        Failure { code: self.code, message: self.message@ }
    }
}

impl AeonSerializeError {
    /// Renders the error as `<kind>: <description>`.
    pub fn to_text(&self) -> (r: String)
        ensures
            r@ == self@.text(),
    {
        let mut r = String::from_str(self.code.variant_name());
        r.append(": ");
        r.append(self.message.as_str());
        r
    }
}

impl AeonDeserializeError {
    pub fn lexing(message: String) -> (e: Self)
        ensures
            e@ == Failure::lexing(message@),
    {
        Self { code: AeonDeserializeErrorCode::LexingFailed, message }
    }

    pub fn deserialization(message: String) -> (e: Self)
        ensures
            e@ == Failure::deserialization(message@),
    {
        Self { code: AeonDeserializeErrorCode::DeserializationFailed, message }
    }

    pub fn conversion(message: String) -> (e: Self)
        ensures
            e@ == Failure::conversion(message@),
    {
        Self { code: AeonDeserializeErrorCode::ConversionFailed, message }
    }

    /// Renders the error as `<kind>: <description>`.
    pub fn to_text(&self) -> (r: String)
        ensures
            r@ == self@.text(),
    {
        let mut r = String::from_str(self.code.variant_name());
        r.append(": ");
        r.append(self.message.as_str());
        r
    }
}

} // verus!
