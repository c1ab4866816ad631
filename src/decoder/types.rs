//! The data model: errors, trait values, schema entries, JSON values.
use vstd::prelude::*;

verus! {

/// Every way in which decoding, parsing or matching can fail.
///
/// Each variant maps to a distinct, stable non-zero code (see [`Error::code`]).
#[derive(PartialEq, Eq, Structural, Clone, Copy, Debug)]
pub enum Error {
    ParseInvalidArgCount,
    ParseInvalidDOB0Output,
    ParseInvalidTraitsBase,
    SchemaInsufficientElements,
    SchemaInvalidName,
    SchemaInvalidTraitName,
    SchemaInvalidType,
    SchemaTypeMismatch,
    SchemaInvalidPattern,
    SchemaPatternMismatch,
    SchemaInvalidArgs,
    SchemaInvalidArgsElement,
    SchemaInvalidParsedTraitType,
    DecodeInvalidOptionArgs,
    DecodeInvalidRawValue,
    DecodeBadUTF8Format,
    DecodeBadColorCodeFormat,
}

/// The numeric code that the hosting process reports for an error.
pub open spec fn error_code(e: Error) -> u64 {
    match e {
        Error::ParseInvalidArgCount => 1,
        Error::ParseInvalidDOB0Output => 2,
        Error::ParseInvalidTraitsBase => 3,
        Error::SchemaInsufficientElements => 4,
        Error::SchemaInvalidName => 5,
        Error::SchemaInvalidTraitName => 6,
        Error::SchemaInvalidType => 7,
        Error::SchemaTypeMismatch => 8,
        Error::SchemaInvalidPattern => 9,
        Error::SchemaPatternMismatch => 10,
        Error::SchemaInvalidArgs => 11,
        Error::SchemaInvalidArgsElement => 12,
        Error::SchemaInvalidParsedTraitType => 13,
        Error::DecodeInvalidOptionArgs => 14,
        Error::DecodeInvalidRawValue => 15,
        Error::DecodeBadUTF8Format => 16,
        Error::DecodeBadColorCodeFormat => 17,
    }
}

impl Error {
    /// The error's numeric code; codes are distinct and never zero.
    pub fn code(&self) -> (r: u64)
        ensures
            r == error_code(*self),
            r != 0,
    {
        match self {
            Error::ParseInvalidArgCount => 1,
            Error::ParseInvalidDOB0Output => 2,
            Error::ParseInvalidTraitsBase => 3,
            Error::SchemaInsufficientElements => 4,
            Error::SchemaInvalidName => 5,
            Error::SchemaInvalidTraitName => 6,
            Error::SchemaInvalidType => 7,
            Error::SchemaTypeMismatch => 8,
            Error::SchemaInvalidPattern => 9,
            Error::SchemaPatternMismatch => 10,
            Error::SchemaInvalidArgs => 11,
            Error::SchemaInvalidArgsElement => 12,
            Error::SchemaInvalidParsedTraitType => 13,
            Error::DecodeInvalidOptionArgs => 14,
            Error::DecodeInvalidRawValue => 15,
            Error::DecodeBadUTF8Format => 16,
            Error::DecodeBadColorCodeFormat => 17,
        }
    }
}

/// Two different errors never share a code.
pub proof fn lemma_error_codes_distinct(a: Error, b: Error)
    requires
        a != b,
    ensures
        error_code(a) != error_code(b),
{
}

/// A resolved scalar trait value, as a mathematical value.
pub enum ScalarView {
    Str(Seq<char>),
    Num(u64),
}

/// A resolved scalar trait value: a string or an unsigned integer.
#[derive(Clone, Debug, PartialEq, Eq)]
pub enum ParsedTrait {
    String(String),
    Number(u64),
}

impl View for ParsedTrait {
    type V = ScalarView;

    open spec fn view(&self) -> ScalarView {
        match self {
            ParsedTrait::String(s) => ScalarView::Str(s@),
            ParsedTrait::Number(n) => ScalarView::Num(*n),
        }
    }
}

impl ParsedTrait {
    /// The string held, or `SchemaInvalidParsedTraitType` for a number.
    pub fn get_string(&self) -> (r: Result<&String, Error>)
        ensures
            match self@ {
                ScalarView::Str(s) => r matches Ok(v) && v@ == s,
                ScalarView::Num(_) => r == Err::<&String, Error>(Error::SchemaInvalidParsedTraitType),
            },
    {
        if let ParsedTrait::String(value) = self {
            Ok(value)
        } else {
            Err(Error::SchemaInvalidParsedTraitType)
        }
    }

    /// The number held, or `SchemaInvalidParsedTraitType` for a string.
    pub fn get_number(&self) -> (r: Result<u64, Error>)
        ensures
            match self@ {
                ScalarView::Num(n) => r == Ok::<u64, Error>(n),
                ScalarView::Str(_) => r == Err::<u64, Error>(Error::SchemaInvalidParsedTraitType),
            },
    {
        if let ParsedTrait::Number(value) = self {
            Ok(*value)
        } else {
            Err(Error::SchemaInvalidParsedTraitType)
        }
    }
}


/// The entries of one trait output, as a mathematical value.
pub struct OutputView {
    pub name: Seq<char>,
    pub traits: Seq<ScalarView>,
}

/// One named trait of the resolved trait output, with its ordered values.
#[derive(Clone, Debug)]
pub struct DOB0Output {
    pub name: String,
    pub traits: Vec<ParsedTrait>,
}

impl View for DOB0Output {
    type V = OutputView;

    open spec fn view(&self) -> OutputView {
        OutputView { name: self.name@, traits: self.traits@.map_values(|t: ParsedTrait| t@) }
    }
}

/// The views of a sequence of trait outputs.
pub open spec fn outputs_view(outs: Seq<DOB0Output>) -> Seq<OutputView> {
    outs.map_values(|o: DOB0Output| o@)
}

/// How the matched content of a layer is interpreted downstream.
#[derive(PartialEq, Eq, Structural, Clone, Copy, Debug)]
pub enum ImageType {
    ColorCode,
    URI,
    RawImage,
}

/// The matching rule of a layer.
#[derive(PartialEq, Eq, Structural, Clone, Copy, Debug)]
pub enum Pattern {
    Options,
    Range,
    Raw,
}

/// A match-table key, as a mathematical value.
pub enum KeyView {
    Str(Seq<char>),
    Num(u64),
    Range(u64, u64),
    Any,
}

/// A key of a match table: an exact string, an exact number, an inclusive
/// numeric range, or the wildcard that matches every value.
#[derive(Clone, Debug, PartialEq, Eq)]
pub enum DOB0TraitValue {
    String(String),
    Number(u64),
    Range(u64, u64),
    Any,
}

impl View for DOB0TraitValue {
    type V = KeyView;

    open spec fn view(&self) -> KeyView {
        match self {
            DOB0TraitValue::String(s) => KeyView::Str(s@),
            DOB0TraitValue::Number(n) => KeyView::Num(*n),
            DOB0TraitValue::Range(a, b) => KeyView::Range(*a, *b),
            DOB0TraitValue::Any => KeyView::Any,
        }
    }
}

/// A match table, in declared order, as a sequence of (key, content) pairs.
pub open spec fn table_view(t: Seq<(DOB0TraitValue, String)>) -> Seq<(KeyView, Seq<char>)> {
    t.map_values(|p: (DOB0TraitValue, String)| (p.0@, p.1@))
}

/// A schema entry, as a mathematical value.
pub struct SchemaView {
    pub name: Seq<char>,
    pub type_: ImageType,
    pub dob0_trait: Seq<char>,
    pub pattern: Pattern,
    pub args: Option<Seq<(KeyView, Seq<char>)>>,
}

/// One layer rule: the image it belongs to, how its content is interpreted,
/// the trait it reads, its matching rule and its ordered match table.
#[derive(Clone, Debug, PartialEq, Eq)]
pub struct TraitSchema {
    pub name: String,
    pub type_: ImageType,
    pub dob0_trait: String,
    pub pattern: Pattern,
    pub args: Option<Vec<(DOB0TraitValue, String)>>,
}

impl View for TraitSchema {
    type V = SchemaView;

    open spec fn view(&self) -> SchemaView {
        SchemaView {
            name: self.name@,
            type_: self.type_,
            dob0_trait: self.dob0_trait@,
            pattern: self.pattern,
            args: match self.args {
                Some(t) => Some(table_view(t@)),
                None => None,
            },
        }
    }
}

/// The views of a sequence of schema entries.
pub open spec fn schemas_view(s: Seq<TraitSchema>) -> Seq<SchemaView> {
    s.map_values(|e: TraitSchema| e@)
}

/// The fully decoded pipeline input: the resolved traits and the schema.
#[derive(Clone, Debug)]
pub struct Parameters {
    pub dob0_output: Vec<DOB0Output>,
    pub images_base: Vec<TraitSchema>,
}

/// One rendered image of the final output.
#[derive(Clone, Debug)]
pub struct Image {
    pub name: String,
    pub type_: String,
    pub content: String,
}

/// The final output: the trait output it was made from and the images.
#[derive(Clone, Debug)]
pub struct DOB1Output {
    pub traits: Vec<DOB0Output>,
    pub images: Vec<Image>,
}

/// A JSON value as far as the schema decoder reads it. A number is kept
/// when it is a non-negative integer that fits `u64`; any other number
/// is `OtherNumber`.
#[derive(Debug)]
pub enum JsonValue {
    Null,
    Bool(bool),
    Number(u64),
    OtherNumber,
    String(String),
    Array(Vec<JsonValue>),
    Object(Vec<(String, JsonValue)>),
}

} // verus!
