use vstd::prelude::*;

verus! {

/// The precise way in which the tree failed to match the one expected
/// function / let-binding / record shape.
#[derive(Clone, Copy, PartialEq, Eq, Structural, Debug)]
pub enum StructureFault {
    RootNotFunction,
    BodyNotLetBinding,
    NotRecordPattern,
}

/// Everything that can go wrong during an extraction run. Every failure is
/// fatal: the pipeline never produces partial output.
#[derive(Clone, Copy, PartialEq, Eq, Structural, Debug)]
pub enum ExtractError {
    /// The input file could not be read (raised by the caller, never by the
    /// tree pipeline itself).
    IoError,
    /// The source text is not syntactically valid (raised by the caller that
    /// runs the parser).
    ParseError,
    /// The tree does not match the expected function / let / record shape.
    StructureError(StructureFault),
    /// No binding in the top-level let matches the marker identifier.
    NotFound,
    /// A record field lacks a key.
    MissingKey,
    /// A record field has no preceding documentation comment.
    NoComment,
}

pub open spec fn message_spec(e: ExtractError) -> Seq<char> {
    match e {
        ExtractError::IoError => "could not read the input"@,
        ExtractError::ParseError => "could not parse the input"@,
        ExtractError::StructureError(f) => match f {
            StructureFault::RootNotFunction => "root is not a function"@,
            StructureFault::BodyNotLetBinding => "body is not a let-binding"@,
            StructureFault::NotRecordPattern => "not a record pattern"@,
        },
        ExtractError::NotFound => "no binding matches the marker identifier"@,
        ExtractError::MissingKey => "a record field lacks a key"@,
        ExtractError::NoComment => "a record field has no preceding comment"@,
    }
}

impl ExtractError {
    /// A human-readable description of the failure.
    pub fn message(&self) -> (r: String)
        ensures
            r@ == message_spec(*self),
    {
        match self {
            ExtractError::IoError => "could not read the input".to_owned(),
            ExtractError::ParseError => "could not parse the input".to_owned(),
            ExtractError::StructureError(f) => match f {
                StructureFault::RootNotFunction => "root is not a function".to_owned(),
                StructureFault::BodyNotLetBinding => "body is not a let-binding".to_owned(),
                StructureFault::NotRecordPattern => "not a record pattern".to_owned(),
            },
            ExtractError::NotFound => "no binding matches the marker identifier".to_owned(),
            ExtractError::MissingKey => "a record field lacks a key".to_owned(),
            ExtractError::NoComment => "a record field has no preceding comment".to_owned(),
        }
    }
}

} // verus!
