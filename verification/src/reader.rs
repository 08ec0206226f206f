//! Group-code pair reader.
//!
//! A DXF stream is a sequence of line pairs: a line with an integer group
//! code, then a line with the value. The reader works on the lines of the
//! stream; it keeps one pair of look-ahead that the parser may push back.

use vstd::prelude::*;

use crate::error::{CadError, CadErrorV};
use crate::numeric::{parse_i32, spec_parse_i32};
use crate::text::{trim, trim_seq};

verus! {

/// One group-code pair, with the number of the line that held the code.
#[derive(Debug, Clone)]
pub struct Pair {
    pub code: i32,
    pub value: String,
    pub line_no: usize,
}

pub struct PairV {
    pub code: i32,
    pub value: Seq<char>,
    pub line_no: usize,
}

impl View for Pair {
    type V = PairV;

    open spec fn view(&self) -> PairV {
        PairV { code: self.code, value: self.value@, line_no: self.line_no }
    }
}

pub open spec fn pair_seq_view(v: Seq<Pair>) -> Seq<PairV> {
    v.map_values(|p: Pair| p@)
}

/// Reads group-code pairs from the lines of a DXF stream.
pub struct PairReader {
    lines: Vec<String>,
    /// The failure met when reading the line after the last one, if any.
    read_error: Option<String>,
    line_no: usize,
    pushback: Option<Pair>,
}

impl PairReader {
    pub closed spec fn lines(&self) -> Seq<Seq<char>> {
        self.lines@.map_values(|s: String| s@)
    }

    pub closed spec fn read_error(&self) -> Option<Seq<char>> {
        match self.read_error {
            Some(m) => Some(m@),
            None => None,
        }
    }

    /// Number of lines read so far.
    pub closed spec fn position(&self) -> nat {
        self.line_no as nat
    }

    pub closed spec fn pending(&self) -> Option<PairV> {
        match self.pushback {
            Some(p) => Some(p@),
            None => None,
        }
    }

    pub closed spec fn wf(&self) -> bool {
        self.line_no <= self.lines@.len()
    }

    /// A reader is well formed exactly when its position lies within its
    /// lines.
    pub proof fn lemma_wf(&self)
        ensures
            self.wf() == (self.position() <= self.lines().len()),
    {
    }

    /// A reader over `lines`, which end where the stream ended.
    pub fn new(lines: Vec<String>) -> (r: Self)
        ensures
            r.wf(),
            r.lines() == lines@.map_values(|s: String| s@),
            r.read_error() is None,
            r.position() == 0,
            r.pending() is None,
    {
        PairReader { lines, read_error: None, line_no: 0, pushback: None }
    }

    /// A reader over `lines`, where reading the line after them failed
    /// with `message`.
    pub fn with_read_error(lines: Vec<String>, message: String) -> (r: Self)
        ensures
            r.wf(),
            r.lines() == lines@.map_values(|s: String| s@),
            r.read_error() == Some(message@),
            r.position() == 0,
            r.pending() is None,
    {
        PairReader { lines, read_error: Some(message), line_no: 0, pushback: None }
    }

    /// Number of lines read so far.
    pub fn line_no(&self) -> (n: usize)
        ensures
            n == self.position(),
    {
        self.line_no
    }

    /// Push a pair back so the next `read_pair` returns it. At most one pair
    /// can be held.
    pub fn push_back(&mut self, pair: Pair)
        requires
            old(self).pending() is None,
        ensures
            final(self).pending() == Some(pair@),
            final(self).lines() == old(self).lines(),
            final(self).read_error() == old(self).read_error(),
            final(self).position() == old(self).position(),
            final(self).wf() == old(self).wf(),
    {
        self.pushback = Some(pair);
    }

    /// The next line, trimmed, or `None` at the end of the stream.
    fn read_line_trimmed(&mut self) -> (r: Result<Option<String>, CadError>)
        requires
            old(self).wf(),
        ensures
            final(self).wf(),
            final(self).lines() == old(self).lines(),
            final(self).read_error() == old(self).read_error(),
            final(self).pending() == old(self).pending(),
            old(self).position() < old(self).lines().len() ==> {
                &&& r matches Ok(Some(s))
                &&& s@ == trim_seq(old(self).lines()[old(self).position() as int])
                &&& final(self).position() == old(self).position() + 1
            },
            old(self).position() >= old(self).lines().len() ==> {
                &&& final(self).position() == old(self).position()
                &&& match old(self).read_error() {
                    Some(m) => r matches Err(CadError::Io(e)) && e@ == m,
                    None => r matches Ok(None),
                }
            },
    {
        if self.line_no < self.lines.len() {
            let s = trim(self.lines[self.line_no].as_str());
            self.line_no = self.line_no + 1;
            Ok(Some(s))
        } else {
            match &self.read_error {
                Some(m) => Err(CadError::Io(m.clone())),
                None => Ok(None),
            }
        }
    }

    /// Read the next group-code pair, or return `None` at the end of the
    /// stream.
    pub fn read_pair(&mut self) -> (r: Result<Option<Pair>, CadError>)
        requires
            old(self).wf(),
        ensures
            final(self).wf(),
            final(self).lines() == old(self).lines(),
            final(self).read_error() == old(self).read_error(),
            final(self).pending() is None,
            (read_view(r), final(self).position()) == read_result(
                old(self).lines(),
                old(self).read_error(),
                old(self).position(),
                old(self).pending(),
            ),
    {
        if self.pushback.is_some() {
            let p = self.pushback.take();
            return Ok(p);
        }
        let ghost k = self.line_no as int;
        let code_line = match self.read_line_trimmed()? {
            Some(s) => s,
            None => return Ok(None),
        };
        let code = match parse_i32(code_line.as_str()) {
            Some(c) => c,
            None => {
                return Err(CadError::InvalidGroupCode { line: self.line_no, got: code_line });
            },
        };
        let line_of_pair = self.line_no;
        let value_line = match self.read_line_trimmed()? {
            Some(s) => s,
            None => {
                return Err(CadError::UnexpectedEof { expected: "group value", line: self.line_no });
            },
        };
        Ok(Some(Pair { code, value: value_line, line_no: line_of_pair }))
    }
}

pub open spec fn read_view(r: Result<Option<Pair>, CadError>) -> Result<Option<PairV>, CadErrorV> {
    match r {
        Ok(Some(p)) => Ok(Some(p@)),
        Ok(None) => Ok(None),
        Err(e) => Err(e@),
    }
}

/// What a read at line position `pos` gives, and where the reader stands
/// afterwards: the pending pair if one was pushed back; otherwise the code
/// line parsed as an `i32` (an error if it is not one) and the value line,
/// both trimmed; at the end of the lines, the end of the stream, or the
/// failure that ended it.
pub open spec fn read_result(
    lines: Seq<Seq<char>>,
    err: Option<Seq<char>>,
    pos: nat,
    pending: Option<PairV>,
) -> (Result<Option<PairV>, CadErrorV>, nat) {
    match pending {
        Some(p) => (Ok(Some(p)), pos),
        None => if pos >= lines.len() {
            (
                match err {
                    Some(m) => Err(CadErrorV::Io(m)),
                    None => Ok(None),
                },
                pos,
            )
        } else {
            let code_text = trim_seq(lines[pos as int]);
            match spec_parse_i32(code_text) {
                None => (
                    Err(CadErrorV::InvalidGroupCode { line: (pos + 1) as usize, got: code_text }),
                    pos + 1,
                ),
                Some(code) => if pos + 1 >= lines.len() {
                    (
                        match err {
                            Some(m) => Err(CadErrorV::Io(m)),
                            None => Err(
                                CadErrorV::UnexpectedEof {
                                    expected: "group value"@,
                                    line: (pos + 1) as usize,
                                },
                            ),
                        },
                        pos + 1,
                    )
                } else {
                    (
                        Ok(
                            Some(
                                PairV {
                                    code,
                                    value: trim_seq(lines[pos + 1 as int]),
                                    line_no: (pos + 1) as usize,
                                },
                            ),
                        ),
                        pos + 2,
                    )
                },
            }
        },
    }
}

} // verus!
