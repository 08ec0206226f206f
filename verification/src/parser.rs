//! Streaming DXF parser.
//!
//! A state machine over group-code pairs. It reports HEADER variables,
//! top-level entities of the ENTITIES section and block definitions of the
//! BLOCKS section; TABLES, CLASSES, OBJECTS and other sections are skipped.
//! Each call of `next_event` reads pairs until it has one event to report.

use vstd::prelude::*;

use crate::builders::{
    Recipe, build_entity, entity_warnings, last_value_of, int_of, int_or_zero, last_value,
    point_field, point_field_of, props_of, scan_groups, spec_build_entity, text_field,
    text_field_of, warnings_of,
};
use crate::entity::{
    BlockDef, BlockV, Entity, EntityV, NumPoint, PointV, clone_entity, clone_point, opt_view,
};
use crate::error::{CadError, CadErrorV, ParseWarning, WarningV, warnings_view};
use crate::reader::{Pair, PairReader, PairV, pair_seq_view, read_result, read_view};
use crate::text::text_eq;

verus! {

#[derive(Debug, Clone, Copy, PartialEq, Eq, Structural)]
pub enum SectionKind {
    Header,
    Classes,
    Tables,
    Blocks,
    Entities,
    Objects,
    Thumbnail,
    AcdsData,
    Unknown,
}

pub open spec fn section_kind(s: Seq<char>) -> SectionKind {
    if s == "HEADER"@ {
        SectionKind::Header
    } else if s == "CLASSES"@ {
        SectionKind::Classes
    } else if s == "TABLES"@ {
        SectionKind::Tables
    } else if s == "BLOCKS"@ {
        SectionKind::Blocks
    } else if s == "ENTITIES"@ {
        SectionKind::Entities
    } else if s == "OBJECTS"@ {
        SectionKind::Objects
    } else if s == "THUMBNAILIMAGE"@ {
        SectionKind::Thumbnail
    } else if s == "ACDSDATA"@ {
        SectionKind::AcdsData
    } else {
        SectionKind::Unknown
    }
}

impl SectionKind {
    /// The section that a section name (group 2 after `0/SECTION`) opens.
    pub fn from_name(s: &str) -> (k: Self)
        ensures
            k == section_kind(s@),
    {
        if text_eq(s, "HEADER") {
            SectionKind::Header
        } else if text_eq(s, "CLASSES") {
            SectionKind::Classes
        } else if text_eq(s, "TABLES") {
            SectionKind::Tables
        } else if text_eq(s, "BLOCKS") {
            SectionKind::Blocks
        } else if text_eq(s, "ENTITIES") {
            SectionKind::Entities
        } else if text_eq(s, "OBJECTS") {
            SectionKind::Objects
        } else if text_eq(s, "THUMBNAILIMAGE") {
            SectionKind::Thumbnail
        } else if text_eq(s, "ACDSDATA") {
            SectionKind::AcdsData
        } else {
            SectionKind::Unknown
        }
    }
}

/// Where the parser stands.
#[derive(Debug, Clone, Copy, PartialEq, Eq, Structural)]
pub enum State {
    Initial,
    InSection(SectionKind),
    /// In ENTITIES, reading the groups of a top-level entity.
    AccumulatingEntity,
    /// In BLOCKS, reading a block header (after `0/BLOCK`).
    InBlockHeader,
    /// In BLOCKS, reading the groups of an entity inside a block.
    InBlockEntity,
    Done,
}

/// One event of the DXF stream.
#[derive(Debug, Clone)]
pub enum ParseEvent {
    SectionStart(SectionKind),
    SectionEnd,
    /// A HEADER variable such as `$INSUNITS`.
    HeaderVariable { name: String, value: String },
    /// A top-level entity of the ENTITIES section.
    Entity(Entity),
    /// A block definition started; its first entity follows.
    BlockDefinitionStart { name: String, base_point: NumPoint },
    /// An entity inside the current block.
    EntityInBlock(Entity),
    /// A block definition ended; it carries the whole block.
    BlockDefinitionEnd(BlockDef),
    Eof,
}

pub enum EventV {
    SectionStart(SectionKind),
    SectionEnd,
    HeaderVariable { name: Seq<char>, value: Seq<char> },
    Entity(EntityV),
    BlockDefinitionStart { name: Seq<char>, base_point: PointV },
    EntityInBlock(EntityV),
    BlockDefinitionEnd(BlockV),
    Eof,
}

impl View for ParseEvent {
    type V = EventV;

    open spec fn view(&self) -> EventV {
        match self {
            ParseEvent::SectionStart(k) => EventV::SectionStart(*k),
            ParseEvent::SectionEnd => EventV::SectionEnd,
            ParseEvent::HeaderVariable { name, value } => EventV::HeaderVariable {
                name: name@,
                value: value@,
            },
            ParseEvent::Entity(e) => EventV::Entity(e@),
            ParseEvent::BlockDefinitionStart { name, base_point } => EventV::BlockDefinitionStart {
                name: name@,
                base_point: base_point@,
            },
            ParseEvent::EntityInBlock(e) => EventV::EntityInBlock(e@),
            ParseEvent::BlockDefinitionEnd(b) => EventV::BlockDefinitionEnd(b@),
            ParseEvent::Eof => EventV::Eof,
        }
    }
}

pub open spec fn event_opt_view(e: Option<ParseEvent>) -> Option<EventV> {
    match e {
        Some(ev) => Some(ev@),
        None => None,
    }
}

pub open spec fn outcome_view(r: Result<Option<ParseEvent>, CadError>) -> Result<
    Option<EventV>,
    CadErrorV,
> {
    match r {
        Ok(e) => Ok(event_opt_view(e)),
        Err(e) => Err(e@),
    }
}

/// The parser's state by view: the reader (its lines, the failure at
/// their end, its position and pushed-back pair), the machine state, the
/// pending HEADER variable name, the entity being read (type and groups),
/// the block header groups, the block being assembled and the warnings.
#[verifier::ext_equal]
pub struct PV {
    pub lines: Seq<Seq<char>>,
    pub err: Option<Seq<char>>,
    pub pos: nat,
    pub pending: Option<PairV>,
    pub state: State,
    pub header_var: Option<Seq<char>>,
    pub kind: Option<Seq<char>>,
    pub groups: Seq<PairV>,
    pub header_groups: Seq<PairV>,
    pub block: Option<BlockV>,
    pub warnings: Seq<WarningV>,
}

/// The header of a block definition: name (2), layer (8), base point
/// (10/20/30), flags (70) and common groups; no entities yet.
pub open spec fn spec_block_header(gs: Seq<PairV>) -> BlockV {
    BlockV {
        name: text_field(gs, 2, seq![]),
        layer: text_field(gs, 8, seq!['0']),
        base_point: point_field(gs, 10, 20, 30),
        flags: match last_value(gs, 70) {
            Some(v) => int_or_zero(v),
            None => 0,
        },
        entities: seq![],
        props: props_of(Recipe::Block, gs),
    }
}

/// The top-level entity being read is complete.
pub open spec fn spec_flush_top(s: PV) -> (PV, Option<EventV>) {
    match s.kind {
        None => (s, None),
        Some(k) => (
            PV {
                kind: None,
                groups: seq![],
                warnings: s.warnings + entity_warnings(k, s.groups),
                ..s
            },
            Some(EventV::Entity(spec_build_entity(k, s.groups))),
        ),
    }
}

/// The entity being read inside a block is complete; the block keeps it.
pub open spec fn spec_flush_block_entity(s: PV) -> (PV, Option<EventV>) {
    match s.kind {
        None => (s, None),
        Some(k) => {
            let e = spec_build_entity(k, s.groups);
            (
                PV {
                    kind: None,
                    groups: seq![],
                    warnings: s.warnings + entity_warnings(k, s.groups),
                    block: match s.block {
                        Some(b) => Some(BlockV { entities: b.entities.push(e), ..b }),
                        None => None,
                    },
                    ..s
                },
                Some(EventV::EntityInBlock(e)),
            )
        },
    }
}

/// Whatever is being read is complete (at a section boundary or the end).
pub open spec fn spec_flush_anything(s: PV) -> (PV, Option<EventV>) {
    if s.groups.len() > 0 || s.kind is Some {
        match s.state {
            State::AccumulatingEntity => spec_flush_top(s),
            State::InBlockEntity => spec_flush_block_entity(s),
            _ => (s, None),
        }
    } else {
        (s, None)
    }
}

pub open spec fn spec_finalize_block_header(s: PV) -> PV {
    PV {
        header_groups: seq![],
        block: Some(spec_block_header(s.header_groups)),
        warnings: s.warnings + warnings_of(Recipe::Block, s.header_groups),
        ..s
    }
}

/// `0/ENDBLK`: the block being assembled is complete.
pub open spec fn spec_close_block(s: PV) -> (PV, Option<EventV>) {
    let s1 = if s.state == State::InBlockHeader {
        spec_finalize_block_header(s)
    } else {
        s
    };
    match s1.block {
        Some(b) => (
            PV { block: None, state: State::InSection(SectionKind::Blocks), ..s1 },
            Some(EventV::BlockDefinitionEnd(b)),
        ),
        None => (s1, None),
    }
}

/// What one pair does: the parser goes on reading, reports an event, or
/// fails.
pub enum Step {
    Continue(PV),
    Emit(PV, EventV),
    Fail(PV, CadErrorV),
}

/// A boundary pair ends what is being read first: the event for that is
/// reported, and the boundary pair is read again on the next call.
pub open spec fn flush_or(s: PV, p: PairV, then: spec_fn(PV) -> Step) -> Step {
    let (s1, ev) = spec_flush_anything(s);
    match ev {
        Some(e) => Step::Emit(PV { pending: Some(p), ..s1 }, e),
        None => then(s1),
    }
}

/// `0/SECTION` (nothing pending): the next pair names the section.
pub open spec fn spec_open_section(s: PV) -> Step {
    let (r, pos2) = read_result(s.lines, s.err, s.pos, s.pending);
    let s2 = PV { pos: pos2, pending: None, ..s };
    match r {
        Ok(Some(np)) => if np.code != 2 {
            Step::Fail(
                s2,
                CadErrorV::InvalidValue {
                    code: np.code,
                    value: np.value,
                    line: np.line_no,
                    expected: "section name (group code 2)"@,
                },
            )
        } else {
            let k = section_kind(np.value);
            Step::Emit(PV { state: State::InSection(k), ..s2 }, EventV::SectionStart(k))
        },
        Ok(None) => Step::Fail(
            s2,
            CadErrorV::UnexpectedEof { expected: "section name (group 2)"@, line: pos2 as usize },
        ),
        Err(e) => Step::Fail(s2, e),
    }
}

/// `0/<type>` in ENTITIES: the entity before it is complete, a new one
/// starts.
pub open spec fn spec_start_top_entity(s: PV, p: PairV) -> Step {
    let (s1, prev) = spec_flush_top(s);
    let s2 = PV { kind: Some(p.value), groups: seq![], state: State::AccumulatingEntity, ..s1 };
    match prev {
        Some(e) => Step::Emit(s2, e),
        None => Step::Continue(s2),
    }
}

pub open spec fn is_marker(p: PairV, word: Seq<char>) -> bool {
    p.code == 0 && p.value == word
}

/// What the pair `p`, just read, does in state `s`.
pub open spec fn spec_step(s: PV, p: PairV) -> Step {
    if is_marker(p, "EOF"@) {
        flush_or(s, p, |s1: PV| Step::Emit(PV { state: State::Done, ..s1 }, EventV::Eof))
    } else if is_marker(p, "SECTION"@) {
        flush_or(s, p, |s1: PV| spec_open_section(s1))
    } else if is_marker(p, "ENDSEC"@) {
        flush_or(
            s,
            p,
            |s1: PV| Step::Emit(PV { state: State::Initial, ..s1 }, EventV::SectionEnd),
        )
    } else if is_marker(p, "BLOCK"@) && s.state == State::InSection(SectionKind::Blocks) {
        Step::Continue(PV { header_groups: seq![], state: State::InBlockHeader, ..s })
    } else if is_marker(p, "ENDBLK"@) && s.state == State::InBlockHeader {
        // A block with no entities is announced first; the end marker is
        // read again on the next call, which closes the block.
        let s1 = spec_finalize_block_header(s);
        let b = spec_block_header(s.header_groups);
        Step::Emit(
            PV { state: State::InBlockEntity, pending: Some(p), ..s1 },
            EventV::BlockDefinitionStart { name: b.name, base_point: b.base_point },
        )
    } else if is_marker(p, "ENDBLK"@) {
        let (s1, ev) = spec_flush_block_entity(s);
        match ev {
            Some(e) => Step::Emit(PV { pending: Some(p), ..s1 }, e),
            None => {
                let (s2, ev2) = spec_close_block(s1);
                match ev2 {
                    Some(e) => Step::Emit(s2, e),
                    None => Step::Continue(s2),
                }
            },
        }
    } else {
        match s.state {
            State::InSection(SectionKind::Header) => if p.code == 9 {
                Step::Continue(PV { header_var: Some(p.value), ..s })
            } else {
                match s.header_var {
                    Some(name) => Step::Emit(
                        PV { header_var: None, ..s },
                        EventV::HeaderVariable { name, value: p.value },
                    ),
                    None => Step::Continue(s),
                }
            },
            State::InSection(SectionKind::Entities) => if p.code == 0 {
                spec_start_top_entity(s, p)
            } else {
                Step::Continue(s)
            },
            State::AccumulatingEntity => if p.code == 0 {
                spec_start_top_entity(s, p)
            } else {
                Step::Continue(PV { groups: s.groups.push(p), ..s })
            },
            State::InBlockHeader => if p.code == 0 {
                let s1 = spec_finalize_block_header(s);
                let s2 = PV { kind: Some(p.value), groups: seq![], state: State::InBlockEntity, ..s1 };
                match s2.block {
                    Some(b) => Step::Emit(
                        s2,
                        EventV::BlockDefinitionStart { name: b.name, base_point: b.base_point },
                    ),
                    None => Step::Continue(s2),
                }
            } else {
                Step::Continue(PV { header_groups: s.header_groups.push(p), ..s })
            },
            State::InBlockEntity => if p.code == 0 {
                let (s1, prev) = spec_flush_block_entity(s);
                let s2 = PV { kind: Some(p.value), groups: seq![], ..s1 };
                match prev {
                    Some(e) => Step::Emit(s2, e),
                    None => Step::Continue(s2),
                }
            } else {
                Step::Continue(PV { groups: s.groups.push(p), ..s })
            },
            _ => Step::Continue(s),
        }
    }
}

/// A measure of the work left: it falls with every pair read and with
/// every event reported.
pub open spec fn measure(s: PV) -> nat {
    (4 * (s.lines.len() - s.pos) + (if s.pending is Some { 2int } else { 0 }) + (if s.kind is Some {
        1int
    } else {
        0
    }) + (if s.state != State::Done { 1int } else { 0 }) + (if s.state == State::InBlockHeader {
        1int
    } else {
        0
    })) as nat
}

pub open spec fn pv_wf(s: PV) -> bool {
    s.pos <= s.lines.len()
}

pub proof fn lemma_step_continue(s: PV, p: PairV)
    requires
        spec_step(s, p) is Continue,
    ensures
        ({
            let s2 = spec_step(s, p)->Continue_0;
            &&& s2.lines == s.lines
            &&& s2.pos == s.pos
            &&& s2.pending == s.pending
            &&& s2.err == s.err
        }),
{
}

/// A step from a state in which nothing is pushed back adds at most one to
/// the measure, and keeps the parser within its lines.
pub proof fn lemma_step_measure(s: PV, p: PairV)
    requires
        pv_wf(s),
        s.pending is None,
        s.state != State::Done,
    ensures
        match spec_step(s, p) {
            Step::Continue(s2) => {
                &&& s2.lines == s.lines
                &&& s2.err == s.err
                &&& s2.pos == s.pos
                &&& s2.pending is None
                &&& s2.state != State::Done
                &&& measure(s2) <= measure(s) + 1
            },
            Step::Emit(s2, _) => pv_wf(s2) && measure(s2) <= measure(s) + 1,
            Step::Fail(_, _) => true,
        },
{
    let (r, pos2) = read_result(s.lines, s.err, s.pos, s.pending);
    assert(pos2 <= s.lines.len());
}

/// Reading on from a state before the end marker reports an event (or
/// fails); an event leaves the parser within its lines and with a smaller
/// measure.
pub proof fn lemma_run_measure(s: PV)
    requires
        pv_wf(s),
        s.state != State::Done,
    ensures
        !(spec_run(s).1 matches Ok(None)),
        spec_run(s).1 matches Ok(Some(_)) ==> pv_wf(spec_run(s).0) && measure(spec_run(s).0)
            < measure(s),
    decreases 4 * (s.lines.len() - s.pos) + (if s.pending is Some { 2int } else { 0 }),
{
    let (r, pos2) = read_result(s.lines, s.err, s.pos, s.pending);
    let s1 = PV { pos: pos2, pending: None, ..s };
    match r {
        Ok(Some(p)) => {
            lemma_step_measure(s1, p);
            match spec_step(s1, p) {
                Step::Continue(s2) => {
                    lemma_step_continue(s1, p);
                    lemma_run_measure(s2);
                },
                _ => {},
            }
        },
        _ => {},
    }
}

/// A step never ends the stream but with the end event, and the end event
/// always ends it.
proof fn lemma_step_end(s: PV, p: PairV)
    requires
        s.state != State::Done,
    ensures
        match spec_step(s, p) {
            Step::Continue(s2) => s2.state != State::Done,
            Step::Emit(s2, e) => (e == EventV::Eof) == (s2.state == State::Done),
            Step::Fail(_, _) => true,
        },
{
}

proof fn lemma_run_end(s: PV)
    requires
        pv_wf(s),
        s.state != State::Done,
    ensures
        spec_run(s).1 matches Ok(Some(e)) ==> (e == EventV::Eof) == (spec_run(s).0.state
            == State::Done),
    decreases 4 * (s.lines.len() - s.pos) + (if s.pending is Some { 2int } else { 0 }),
{
    let (r, pos2) = read_result(s.lines, s.err, s.pos, s.pending);
    let s1 = PV { pos: pos2, pending: None, ..s };
    match r {
        Ok(Some(p)) => {
            lemma_step_end(s1, p);
            lemma_step_measure(s1, p);
            match spec_step(s1, p) {
                Step::Continue(s2) => {
                    lemma_step_continue(s1, p);
                    lemma_run_end(s2);
                },
                _ => {},
            }
        },
        _ => {},
    }
}

/// The end of the stream is reported exactly once. Before it, each call
/// reports an event other than the end or fails, and leaves the parser
/// with a smaller measure, so that the end (or a failure) comes; the call
/// that reports the end leaves the parser done; once done, every call
/// reports nothing and leaves the parser as it was, reading no further.
pub proof fn lemma_end_reported_once(s: PV)
    requires
        pv_wf(s),
    ensures
        s.state == State::Done ==> spec_next_event(s) == (s, Ok::<Option<EventV>, CadErrorV>(None)),
        s.state != State::Done ==> !(spec_next_event(s).1 matches Ok(None)),
        s.state != State::Done ==> (spec_next_event(s).1 matches Ok(Some(e)) ==> {
            &&& (e == EventV::Eof) == (spec_next_event(s).0.state == State::Done)
            &&& pv_wf(spec_next_event(s).0)
            &&& measure(spec_next_event(s).0) < measure(s)
        }),
{
    if s.state != State::Done {
        lemma_run_measure(s);
        lemma_run_end(s);
    }
}

/// Reading on from state `s` until the next event.
pub open spec fn spec_run(s: PV) -> (PV, Result<Option<EventV>, CadErrorV>)
    decreases 4 * (s.lines.len() - s.pos) + (if s.pending is Some { 2int } else { 0 }),
    when pv_wf(s)
{
    let (r, pos2) = read_result(s.lines, s.err, s.pos, s.pending);
    let s1 = PV { pos: pos2, pending: None, ..s };
    match r {
        Ok(Some(p)) => match spec_step(s1, p) {
            Step::Continue(s2) => {
                proof {
                    lemma_step_continue(s1, p);
                }
                spec_run(s2)
            },
            Step::Emit(s2, e) => (s2, Ok(Some(e))),
            Step::Fail(s2, e) => (s2, Err(e)),
        },
        Ok(None) => {
            let (s2, ev) = spec_flush_anything(s1);
            match ev {
                Some(e) => (s2, Ok(Some(e))),
                None => (PV { state: State::Done, ..s2 }, Ok(Some(EventV::Eof))),
            }
        },
        Err(e) => (s1, Err(e)),
    }
}

/// What `next_event` does from state `s`: after the end marker, nothing.
pub open spec fn spec_next_event(s: PV) -> (PV, Result<Option<EventV>, CadErrorV>) {
    if s.state == State::Done {
        (s, Ok(None))
    } else {
        spec_run(s)
    }
}

pub open spec fn block_opt_view(b: Option<BlockDef>) -> Option<BlockV> {
    match b {
        Some(d) => Some(d@),
        None => None,
    }
}

/// The state of a parser that has read nothing of `lines` yet.
pub open spec fn initial_pv(lines: Seq<Seq<char>>, err: Option<Seq<char>>) -> PV {
    PV {
        lines,
        err,
        pos: 0,
        pending: None,
        state: State::Initial,
        header_var: None,
        kind: None,
        groups: seq![],
        header_groups: seq![],
        block: None,
        warnings: seq![],
    }
}

/// Builds the header of a block definition from the groups between
/// `0/BLOCK` and its first entity, recording a warning for each value that
/// should have been a number and was not.
fn block_def_from_groups(groups: &[Pair], warnings: &mut Vec<ParseWarning>) -> (b: BlockDef)
    ensures
        b@ == spec_block_header(pair_seq_view(groups@)),
        warnings_view(final(warnings)@) == warnings_view(old(warnings)@) + warnings_of(
            Recipe::Block,
            pair_seq_view(groups@),
        ),
{
    let props = scan_groups(Recipe::Block, groups, warnings);
    let flags = match last_value_of(groups, 70) {
        Some(v) => int_of(v.as_str()),
        None => 0,
    };
    let layer_default = "0".to_owned();
    proof {
        reveal_strlit("0");
    }
    let b = BlockDef {
        name: text_field_of(groups, 2, String::new()),
        layer: text_field_of(groups, 8, layer_default),
        base_point: point_field_of(groups, 10, 20, 30),
        flags,
        entities: Vec::new(),
        props,
    };
    assert(b@ =~= spec_block_header(pair_seq_view(groups@)));
    b
}

/// Streaming DXF parser: each call of `next_event` reads group-code pairs
/// until it has one event to report.
pub struct StreamingParser {
    reader: PairReader,
    state: State,
    /// The name of a HEADER variable (group 9) whose value comes next.
    pending_header_var: Option<String>,
    /// The type of the entity being read and its groups, at top level or
    /// inside a block.
    entity_kind: Option<String>,
    entity_groups: Vec<Pair>,
    /// The groups between `0/BLOCK` and the block's first entity.
    block_header_groups: Vec<Pair>,
    /// The block being assembled.
    current_block: Option<BlockDef>,
    /// Values that should have been numbers and were not.
    parse_warnings: Vec<ParseWarning>,
}

impl View for StreamingParser {
    type V = PV;

    closed spec fn view(&self) -> PV {
        PV {
            lines: self.reader.lines(),
            err: self.reader.read_error(),
            pos: self.reader.position(),
            pending: self.reader.pending(),
            state: self.state,
            header_var: opt_view(self.pending_header_var),
            kind: opt_view(self.entity_kind),
            groups: pair_seq_view(self.entity_groups@),
            header_groups: pair_seq_view(self.block_header_groups@),
            block: block_opt_view(self.current_block),
            warnings: warnings_view(self.parse_warnings@),
        }
    }
}

/// What one pair did to the parser.
enum StepOut {
    Continue,
    Emit(ParseEvent),
    Fail(CadError),
}

impl StreamingParser {
    /// A parser over the lines of a DXF stream.
    pub fn new(lines: Vec<String>) -> (p: Self)
        ensures
            p@ == initial_pv(lines@.map_values(|s: String| s@), None),
    {
        let p = StreamingParser {
            reader: PairReader::new(lines),
            state: State::Initial,
            pending_header_var: None,
            entity_kind: None,
            entity_groups: Vec::new(),
            block_header_groups: Vec::new(),
            current_block: None,
            parse_warnings: Vec::new(),
        };
        assert(p@ =~= initial_pv(lines@.map_values(|s: String| s@), None));
        p
    }

    /// A parser over the lines of a DXF stream whose reading failed after
    /// them with `message`.
    pub fn with_read_error(lines: Vec<String>, message: String) -> (p: Self)
        ensures
            p@ == initial_pv(lines@.map_values(|s: String| s@), Some(message@)),
    {
        let p = StreamingParser {
            reader: PairReader::with_read_error(lines, message),
            state: State::Initial,
            pending_header_var: None,
            entity_kind: None,
            entity_groups: Vec::new(),
            block_header_groups: Vec::new(),
            current_block: None,
            parse_warnings: Vec::new(),
        };
        assert(p@ =~= initial_pv(lines@.map_values(|s: String| s@), Some(message@)));
        p
    }

    /// Hands out the warnings recorded so far and forgets them.
    pub fn take_warnings(&mut self) -> (w: Vec<ParseWarning>)
        ensures
            warnings_view(w@) == old(self)@.warnings,
            final(self)@ == (PV { warnings: seq![], ..old(self)@ }),
    {
        let mut w: Vec<ParseWarning> = Vec::new();
        std::mem::swap(&mut w, &mut self.parse_warnings);
        assert(self@ =~= (PV { warnings: seq![], ..old(self)@ }));
        w
    }

    fn flush_top_entity(&mut self) -> (r: Option<ParseEvent>)
        ensures
            (final(self)@, event_opt_view(r)) == spec_flush_top(old(self)@),
    {
        match self.entity_kind.take() {
            None => None,
            Some(kind) => {
                let mut groups: Vec<Pair> = Vec::new();
                std::mem::swap(&mut groups, &mut self.entity_groups);
                let e = build_entity(kind.as_str(), groups.as_slice(), &mut self.parse_warnings);
                let ghost s0 = old(self)@;
                assert(self@ =~= (PV {
                    kind: None,
                    groups: seq![],
                    warnings: s0.warnings + entity_warnings(kind@, s0.groups),
                    ..s0
                }));
                Some(ParseEvent::Entity(e))
            },
        }
    }

    fn flush_block_entity(&mut self) -> (r: Option<ParseEvent>)
        ensures
            (final(self)@, event_opt_view(r)) == spec_flush_block_entity(old(self)@),
    {
        match self.entity_kind.take() {
            None => None,
            Some(kind) => {
                let ghost s0 = old(self)@;
                let mut groups: Vec<Pair> = Vec::new();
                std::mem::swap(&mut groups, &mut self.entity_groups);
                let e = build_entity(kind.as_str(), groups.as_slice(), &mut self.parse_warnings);
                let blk = self.current_block.take();
                match blk {
                    Some(mut b) => {
                        let ghost b0 = b@;
                        b.entities.push(clone_entity(&e));
                        assert(b@ =~= BlockV { entities: b0.entities.push(e@), ..b0 });
                        self.current_block = Some(b);
                    },
                    None => {},
                }
                assert(self@ =~= (PV {
                    kind: None,
                    groups: seq![],
                    warnings: s0.warnings + entity_warnings(kind@, s0.groups),
                    block: match s0.block {
                        Some(b) => Some(BlockV { entities: b.entities.push(e@), ..b }),
                        None => None,
                    },
                    ..s0
                }));
                Some(ParseEvent::EntityInBlock(e))
            },
        }
    }

    fn flush_anything(&mut self) -> (r: Option<ParseEvent>)
        ensures
            (final(self)@, event_opt_view(r)) == spec_flush_anything(old(self)@),
    {
        if self.entity_groups.len() > 0 || self.entity_kind.is_some() {
            match self.state {
                State::AccumulatingEntity => self.flush_top_entity(),
                State::InBlockEntity => self.flush_block_entity(),
                _ => None,
            }
        } else {
            None
        }
    }

    fn finalize_block_header(&mut self)
        ensures
            final(self)@ == spec_finalize_block_header(old(self)@),
    {
        let ghost s0 = old(self)@;
        let mut groups: Vec<Pair> = Vec::new();
        std::mem::swap(&mut groups, &mut self.block_header_groups);
        let b = block_def_from_groups(groups.as_slice(), &mut self.parse_warnings);
        self.current_block = Some(b);
        assert(self@ =~= spec_finalize_block_header(s0));
    }

    fn close_block(&mut self) -> (r: Option<ParseEvent>)
        ensures
            (final(self)@, event_opt_view(r)) == spec_close_block(old(self)@),
    {
        if self.state == State::InBlockHeader {
            self.finalize_block_header();
        }
        match self.current_block.take() {
            Some(b) => {
                self.state = State::InSection(SectionKind::Blocks);
                Some(ParseEvent::BlockDefinitionEnd(b))
            },
            None => None,
        }
    }
}

spec fn step_matches(st: Step, s: PV, out: StepOut) -> bool {
    match out {
        StepOut::Continue => st == Step::Continue(s),
        StepOut::Emit(e) => st == Step::Emit(s, e@),
        StepOut::Fail(e) => st == Step::Fail(s, e@),
    }
}

impl StreamingParser {
    /// The parser's position lies within its lines.
    pub open spec fn wf(&self) -> bool {
        pv_wf(self@)
    }

    proof fn lemma_wf(&self)
        ensures
            self.wf() == self.reader.wf(),
    {
        self.reader.lemma_wf();
    }

    /// `0/SECTION`: the next pair names the section.
    fn open_section(&mut self) -> (out: StepOut)
        requires
            old(self).wf(),
        ensures
            final(self).wf(),
            step_matches(spec_open_section(old(self)@), final(self)@, out),
    {
        proof {
            self.lemma_wf();
        }
        let r = self.reader.read_pair();
        proof {
            self.lemma_wf();
        }
        match r {
            Err(e) => StepOut::Fail(e),
            Ok(None) => StepOut::Fail(
                CadError::UnexpectedEof {
                    expected: "section name (group 2)",
                    line: self.reader.line_no(),
                },
            ),
            Ok(Some(np)) => {
                if np.code != 2 {
                    StepOut::Fail(
                        CadError::InvalidValue {
                            code: np.code,
                            value: np.value,
                            line: np.line_no,
                            expected: "section name (group code 2)",
                        },
                    )
                } else {
                    let k = SectionKind::from_name(np.value.as_str());
                    self.state = State::InSection(k);
                    StepOut::Emit(ParseEvent::SectionStart(k))
                }
            },
        }
    }

    /// `0/<type>` in ENTITIES: the entity before it is complete.
    fn start_top_entity(&mut self, pair: Pair) -> (out: StepOut)
        requires
            old(self).wf(),
        ensures
            final(self).wf(),
            step_matches(spec_start_top_entity(old(self)@, pair@), final(self)@, out),
    {
        let prev = self.flush_top_entity();
        self.entity_kind = Some(pair.value);
        self.entity_groups = Vec::new();
        self.state = State::AccumulatingEntity;
        proof {
            assert(pair_seq_view(self.entity_groups@) =~= Seq::<PairV>::empty());
        }
        match prev {
            Some(e) => StepOut::Emit(e),
            None => StepOut::Continue,
        }
    }

    /// A boundary pair (`0/EOF`, `0/SECTION`, `0/ENDSEC`) ends what is
    /// being read; its event is reported and the pair is read again.
    fn push_back_pair(&mut self, pair: Pair)
        requires
            old(self).wf(),
            old(self)@.pending is None,
        ensures
            final(self).wf(),
            final(self)@ == (PV { pending: Some(pair@), ..old(self)@ }),
    {
        proof {
            self.lemma_wf();
        }
        self.reader.push_back(pair);
        proof {
            self.lemma_wf();
        }
    }

    /// What the pair just read does.
    fn step(&mut self, pair: Pair) -> (out: StepOut)
        requires
            old(self).wf(),
            old(self)@.pending is None,
        ensures
            final(self).wf(),
            step_matches(spec_step(old(self)@, pair@), final(self)@, out),
    {
        let zero = pair.code == 0;
        if zero && text_eq(pair.value.as_str(), "EOF") {
            match self.flush_anything() {
                Some(e) => {
                    self.push_back_pair(pair);
                    StepOut::Emit(e)
                },
                None => {
                    self.state = State::Done;
                    StepOut::Emit(ParseEvent::Eof)
                },
            }
        } else if zero && text_eq(pair.value.as_str(), "SECTION") {
            match self.flush_anything() {
                Some(e) => {
                    self.push_back_pair(pair);
                    StepOut::Emit(e)
                },
                None => self.open_section(),
            }
        } else if zero && text_eq(pair.value.as_str(), "ENDSEC") {
            match self.flush_anything() {
                Some(e) => {
                    self.push_back_pair(pair);
                    StepOut::Emit(e)
                },
                None => {
                    self.state = State::Initial;
                    StepOut::Emit(ParseEvent::SectionEnd)
                },
            }
        } else if zero && text_eq(pair.value.as_str(), "BLOCK") && self.state == State::InSection(
            SectionKind::Blocks,
        ) {
            self.block_header_groups = Vec::new();
            self.state = State::InBlockHeader;
            proof {
                assert(pair_seq_view(self.block_header_groups@) =~= Seq::<PairV>::empty());
            }
            StepOut::Continue
        } else if zero && text_eq(pair.value.as_str(), "ENDBLK") && self.state
            == State::InBlockHeader {
            self.finalize_block_header();
            self.state = State::InBlockEntity;
            let ev = match &self.current_block {
                Some(b) => ParseEvent::BlockDefinitionStart {
                    name: b.name.clone(),
                    base_point: clone_point(&b.base_point),
                },
                None => ParseEvent::Eof,
            };
            self.push_back_pair(pair);
            StepOut::Emit(ev)
        } else if zero && text_eq(pair.value.as_str(), "ENDBLK") {
            match self.flush_block_entity() {
                Some(e) => {
                    self.push_back_pair(pair);
                    StepOut::Emit(e)
                },
                None => match self.close_block() {
                    Some(e) => StepOut::Emit(e),
                    None => StepOut::Continue,
                },
            }
        } else {
            match self.state {
                State::InSection(SectionKind::Header) => {
                    if pair.code == 9 {
                        self.pending_header_var = Some(pair.value);
                        StepOut::Continue
                    } else {
                        match self.pending_header_var.take() {
                            Some(name) => StepOut::Emit(
                                ParseEvent::HeaderVariable { name, value: pair.value },
                            ),
                            None => StepOut::Continue,
                        }
                    }
                },
                State::InSection(SectionKind::Entities) => {
                    if pair.code == 0 {
                        self.start_top_entity(pair)
                    } else {
                        StepOut::Continue
                    }
                },
                State::AccumulatingEntity => {
                    if pair.code == 0 {
                        self.start_top_entity(pair)
                    } else {
                        let ghost g0 = self.entity_groups@;
                        self.entity_groups.push(pair);
                        proof {
                            assert(pair_seq_view(self.entity_groups@) =~= pair_seq_view(g0).push(
                                self.entity_groups@.last()@,
                            ));
                        }
                        StepOut::Continue
                    }
                },
                State::InBlockHeader => {
                    if pair.code == 0 {
                        self.finalize_block_header();
                        self.entity_kind = Some(pair.value);
                        self.entity_groups = Vec::new();
                        self.state = State::InBlockEntity;
                        proof {
                            assert(pair_seq_view(self.entity_groups@) =~= Seq::<PairV>::empty());
                        }
                        match &self.current_block {
                            Some(b) => StepOut::Emit(
                                ParseEvent::BlockDefinitionStart {
                                    name: b.name.clone(),
                                    base_point: clone_point(&b.base_point),
                                },
                            ),
                            None => StepOut::Continue,
                        }
                    } else {
                        let ghost g0 = self.block_header_groups@;
                        self.block_header_groups.push(pair);
                        proof {
                            assert(pair_seq_view(self.block_header_groups@) =~= pair_seq_view(
                                g0,
                            ).push(self.block_header_groups@.last()@));
                        }
                        StepOut::Continue
                    }
                },
                State::InBlockEntity => {
                    if pair.code == 0 {
                        let prev = self.flush_block_entity();
                        self.entity_kind = Some(pair.value);
                        self.entity_groups = Vec::new();
                        proof {
                            assert(pair_seq_view(self.entity_groups@) =~= Seq::<PairV>::empty());
                        }
                        match prev {
                            Some(e) => StepOut::Emit(e),
                            None => StepOut::Continue,
                        }
                    } else {
                        let ghost g0 = self.entity_groups@;
                        self.entity_groups.push(pair);
                        proof {
                            assert(pair_seq_view(self.entity_groups@) =~= pair_seq_view(g0).push(
                                self.entity_groups@.last()@,
                            ));
                        }
                        StepOut::Continue
                    }
                },
                _ => StepOut::Continue,
            }
        }
    }

    /// Reads until the next event and reports it. After `Eof` has been
    /// reported, every call returns `Ok(None)`.
    pub fn next_event(&mut self) -> (r: Result<Option<ParseEvent>, CadError>)
        requires
            old(self).wf(),
        ensures
            final(self).wf(),
            (final(self)@, outcome_view(r)) == spec_next_event(old(self)@),
    {
        if self.state == State::Done {
            return Ok(None);
        }
        let ghost target = spec_run(self@);
        loop
            invariant
                self.wf(),
                spec_run(self@) == target,
                target == spec_next_event(old(self)@),
            decreases 4 * (self@.lines.len() - self@.pos) + (if self@.pending is Some {
                2int
            } else {
                0
            }),
        {
            proof {
                self.lemma_wf();
            }
            let r = self.reader.read_pair();
            proof {
                self.lemma_wf();
            }
            match r {
                Err(e) => {
                    return Err(e);
                },
                Ok(None) => {
                    match self.flush_anything() {
                        Some(e) => {
                            return Ok(Some(e));
                        },
                        None => {
                            self.state = State::Done;
                            return Ok(Some(ParseEvent::Eof));
                        },
                    }
                },
                Ok(Some(p)) => {
                    let ghost s1 = self@;
                    let ghost pv = p@;
                    match self.step(p) {
                        StepOut::Continue => {
                            proof {
                                lemma_step_continue(s1, pv);
                            }
                        },
                        StepOut::Emit(e) => {
                            return Ok(Some(e));
                        },
                        StepOut::Fail(e) => {
                            return Err(e);
                        },
                    }
                },
            }
        }
    }
}

} // verus!
