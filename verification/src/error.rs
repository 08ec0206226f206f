//! Error and warning types.

use vstd::prelude::*;

verus! {

/// Why a DXF stream could not be read.
#[derive(Debug, Clone)]
pub enum CadError {
    /// Reading the underlying stream failed; the message says why.
    Io(String),
    InvalidGroupCode { line: usize, got: String },
    UnexpectedEof { expected: &'static str, line: usize },
    InvalidValue { code: i32, value: String, line: usize, expected: &'static str },
    UnsupportedVersion { found: String },
    SemanticInconsistency(String),
    Extract(String),
    Synthesize(String),
}

pub enum CadErrorV {
    Io(Seq<char>),
    InvalidGroupCode { line: usize, got: Seq<char> },
    UnexpectedEof { expected: Seq<char>, line: usize },
    InvalidValue { code: i32, value: Seq<char>, line: usize, expected: Seq<char> },
    UnsupportedVersion { found: Seq<char> },
    SemanticInconsistency(Seq<char>),
    Extract(Seq<char>),
    Synthesize(Seq<char>),
}

impl View for CadError {
    type V = CadErrorV;

    open spec fn view(&self) -> CadErrorV {
        match self {
            CadError::Io(m) => CadErrorV::Io(m@),
            CadError::InvalidGroupCode { line, got } => CadErrorV::InvalidGroupCode {
                line: *line,
                got: got@,
            },
            CadError::UnexpectedEof { expected, line } => CadErrorV::UnexpectedEof {
                expected: expected@,
                line: *line,
            },
            CadError::InvalidValue { code, value, line, expected } => CadErrorV::InvalidValue {
                code: *code,
                value: value@,
                line: *line,
                expected: expected@,
            },
            CadError::UnsupportedVersion { found } => CadErrorV::UnsupportedVersion {
                found: found@,
            },
            CadError::SemanticInconsistency(m) => CadErrorV::SemanticInconsistency(m@),
            CadError::Extract(m) => CadErrorV::Extract(m@),
            CadError::Synthesize(m) => CadErrorV::Synthesize(m@),
        }
    }
}

/// A non-fatal parsing issue: a value that should have been a number and
/// was not, so that `0` stands in its place. The parser is lenient because
/// real-world DXF files are messy, but every lenience is recorded here.
#[derive(Debug, Clone)]
pub struct ParseWarning {
    pub code: i32,
    pub value: String,
    pub kind: &'static str,
    pub entity: &'static str,
}

pub struct WarningV {
    pub code: i32,
    pub value: Seq<char>,
    pub kind: Seq<char>,
    pub entity: Seq<char>,
}

impl View for ParseWarning {
    type V = WarningV;

    open spec fn view(&self) -> WarningV {
        WarningV { code: self.code, value: self.value@, kind: self.kind@, entity: self.entity@ }
    }
}

pub open spec fn warnings_view(v: Seq<ParseWarning>) -> Seq<WarningV> {
    v.map_values(|w: ParseWarning| w@)
}

} // verus!
