//! An in-memory DXF document: HEADER variables, top-level entities, block
//! definitions and the warnings met while reading them.

use vstd::prelude::*;

use crate::entity::{BlockDef, BlockV, Entity, EntityV, entities_view};
use crate::error::{CadError, CadErrorV, ParseWarning, WarningV, warnings_view};
use crate::parser::{
    EventV, PV, ParseEvent, State, StreamingParser, initial_pv, lemma_run_measure, measure,
    pv_wf, spec_next_event,
};
use crate::text::text_eq;

verus! {

/// The map that a list of (name, value) entries stands for; a later entry
/// for a name replaces an earlier one.
pub open spec fn map_of(es: Seq<(Seq<char>, Seq<char>)>) -> Map<Seq<char>, Seq<char>>
    decreases es.len(),
{
    if es.len() == 0 {
        Map::empty()
    } else {
        map_of(es.drop_last()).insert(es.last().0, es.last().1)
    }
}

pub open spec fn keys_distinct(es: Seq<(Seq<char>, Seq<char>)>) -> bool {
    forall|i: int, j: int| 0 <= i < j < es.len() ==> es[i].0 != es[j].0
}

proof fn lemma_map_of_absent(es: Seq<(Seq<char>, Seq<char>)>, k: Seq<char>)
    requires
        forall|i: int| 0 <= i < es.len() ==> es[i].0 != k,
    ensures
        !map_of(es).dom().contains(k),
    decreases es.len(),
{
    if es.len() > 0 {
        lemma_map_of_absent(es.drop_last(), k);
    }
}

proof fn lemma_map_of_at(es: Seq<(Seq<char>, Seq<char>)>, i: int)
    requires
        keys_distinct(es),
        0 <= i < es.len(),
    ensures
        map_of(es).dom().contains(es[i].0),
        map_of(es)[es[i].0] == es[i].1,
    decreases es.len(),
{
    if i < es.len() - 1 {
        lemma_map_of_at(es.drop_last(), i);
    }
}

proof fn lemma_map_of_len(es: Seq<(Seq<char>, Seq<char>)>)
    requires
        keys_distinct(es),
    ensures
        map_of(es).dom().finite(),
        map_of(es).dom().len() == es.len(),
    decreases es.len(),
{
    if es.len() > 0 {
        let init = es.drop_last();
        lemma_map_of_len(init);
        lemma_map_of_absent(init, es.last().0);
        assert(map_of(es).dom() =~= map_of(init).dom().insert(es.last().0));
    }
}

proof fn lemma_map_of_update(es: Seq<(Seq<char>, Seq<char>)>, i: int, v: Seq<char>)
    requires
        keys_distinct(es),
        0 <= i < es.len(),
    ensures
        map_of(es.update(i, (es[i].0, v))) == map_of(es).insert(es[i].0, v),
    decreases es.len(),
{
    let k = es[i].0;
    let u = es.update(i, (k, v));
    let init = es.drop_last();
    if i == es.len() - 1 {
        assert(u.drop_last() =~= init);
        assert(map_of(u) =~= map_of(es).insert(k, v));
    } else {
        assert(u.drop_last() =~= init.update(i, (k, v)));
        lemma_map_of_update(init, i, v);
        assert(map_of(u) =~= map_of(es).insert(k, v));
    }
}

/// HEADER variables by name, such as `$INSUNITS`. The names are kept in
/// a vector with no name twice, viewed as a map: vstd's specification of
/// std's hash map holds only for keys of integer or bool type, and a name
/// is text.
#[derive(Debug)]
pub struct HeaderVars {
    entries: Vec<(String, String)>,
}

pub open spec fn entry_view(e: (String, String)) -> (Seq<char>, Seq<char>) {
    (e.0@, e.1@)
}

impl HeaderVars {
    spec fn entries_view(&self) -> Seq<(Seq<char>, Seq<char>)> {
        self.entries@.map_values(|e: (String, String)| entry_view(e))
    }

    #[verifier::type_invariant]
    spec fn names_distinct(&self) -> bool {
        keys_distinct(self.entries_view())
    }
}

impl View for HeaderVars {
    type V = Map<Seq<char>, Seq<char>>;

    closed spec fn view(&self) -> Map<Seq<char>, Seq<char>> {
        map_of(self.entries_view())
    }
}

impl HeaderVars {
    /// No variables.
    pub fn new() -> (h: Self)
        ensures
            h@ == Map::<Seq<char>, Seq<char>>::empty(),
    {
        let h = HeaderVars { entries: Vec::new() };
        assert(h.entries_view() =~= Seq::<(Seq<char>, Seq<char>)>::empty());
        h
    }

    /// Where the variable `name` is held.
    fn find(&self, name: &str) -> (r: Option<usize>)
        ensures
            match r {
                Some(i) => i < self.entries_view().len() && self.entries_view()[i as int].0
                    == name@,
                None => forall|i: int|
                    0 <= i < self.entries_view().len() ==> self.entries_view()[i].0 != name@,
            },
    {
        let mut i: usize = 0;
        while i < self.entries.len()
            invariant
                i <= self.entries@.len(),
                forall|j: int| 0 <= j < i ==> self.entries_view()[j].0 != name@,
            decreases self.entries@.len() - i,
        {
            if text_eq(self.entries[i].0.as_str(), name) {
                return Some(i);
            }
            i = i + 1;
        }
        None
    }

    /// The value of the variable `name`.
    pub fn get(&self, name: &str) -> (r: Option<&String>)
        ensures
            match r {
                Some(v) => self@.contains_key(name@) && self@[name@] == v@,
                None => !self@.contains_key(name@),
            },
    {
        proof {
            use_type_invariant(self);
        }
        match self.find(name) {
            Some(i) => {
                proof {
                    lemma_map_of_at(self.entries_view(), i as int);
                }
                Some(&self.entries[i].1)
            },
            None => {
                proof {
                    lemma_map_of_absent(self.entries_view(), name@);
                }
                None
            },
        }
    }

    /// Whether the variable `name` is held.
    pub fn contains_key(&self, name: &str) -> (b: bool)
        ensures
            b == self@.contains_key(name@),
    {
        self.get(name).is_some()
    }

    /// The number of variables held.
    pub fn len(&self) -> (n: usize)
        ensures
            n == self@.len(),
    {
        proof {
            use_type_invariant(self);
            lemma_map_of_len(self.entries_view());
        }
        self.entries.len()
    }

    /// Sets the variable `name` to `value`, and gives back the value it
    /// had, if any.
    pub fn insert(&mut self, name: String, value: String) -> (r: Option<String>)
        ensures
            final(self)@ == old(self)@.insert(name@, value@),
            match r {
                Some(v) => old(self)@.contains_key(name@) && old(self)@[name@] == v@,
                None => !old(self)@.contains_key(name@),
            },
    {
        proof {
            use_type_invariant(&*self);
        }
        let ghost es = self.entries_view();
        match self.find(name.as_str()) {
            Some(i) => {
                proof {
                    lemma_map_of_at(es, i as int);
                    lemma_map_of_update(es, i as int, value@);
                }
                let mut entries: Vec<(String, String)> = Vec::new();
                std::mem::swap(&mut entries, &mut self.entries);
                let old_value = entries[i].1.clone();
                entries.set(i, (name, value));
                proof {
                    assert(entries@.map_values(|e: (String, String)| entry_view(e)) =~= es.update(
                        i as int,
                        (es[i as int].0, value@),
                    ));
                }
                self.entries = entries;
                Some(old_value)
            },
            None => {
                proof {
                    lemma_map_of_absent(es, name@);
                }
                let ghost k = name@;
                let mut entries: Vec<(String, String)> = Vec::new();
                std::mem::swap(&mut entries, &mut self.entries);
                entries.push((name, value));
                proof {
                    let ne = entries@.map_values(|e: (String, String)| entry_view(e));
                    assert(ne =~= es.push((k, value@)));
                    assert(ne.drop_last() =~= es);
                }
                self.entries = entries;
                None
            },
        }
    }
}

/// A parsed DXF file.
#[derive(Debug)]
pub struct DxfDocument {
    /// HEADER section variables.
    pub header: HeaderVars,
    /// The top-level entities of the ENTITIES section, in file order.
    pub entities: Vec<Entity>,
    /// The block definitions of the BLOCKS section, in file order.
    pub blocks: Vec<BlockDef>,
    /// Values that should have been numbers and were not (each read as 0).
    /// Empty for a well-formed file.
    pub parse_warnings: Vec<ParseWarning>,
}

#[verifier::ext_equal]
pub struct DocV {
    pub header: Map<Seq<char>, Seq<char>>,
    pub entities: Seq<EntityV>,
    pub blocks: Seq<BlockV>,
    pub warnings: Seq<WarningV>,
}

pub open spec fn blocks_view(v: Seq<BlockDef>) -> Seq<BlockV> {
    v.map_values(|b: BlockDef| b@)
}

impl View for DxfDocument {
    type V = DocV;

    open spec fn view(&self) -> DocV {
        DocV {
            header: self.header@,
            entities: entities_view(self.entities@),
            blocks: blocks_view(self.blocks@),
            warnings: warnings_view(self.parse_warnings@),
        }
    }
}

pub open spec fn empty_doc() -> DocV {
    DocV { header: Map::empty(), entities: seq![], blocks: seq![], warnings: seq![] }
}

/// What one event adds to a document: a HEADER variable, a top-level
/// entity or a complete block definition; other events add nothing.
pub open spec fn apply_v(d: DocV, e: EventV) -> DocV {
    match e {
        EventV::HeaderVariable { name, value } => DocV { header: d.header.insert(name, value), ..d },
        EventV::Entity(x) => DocV { entities: d.entities.push(x), ..d },
        EventV::BlockDefinitionEnd(b) => DocV { blocks: d.blocks.push(b), ..d },
        _ => d,
    }
}

/// Reading events from parser state `s` into `d` until the stream ends or
/// fails: the parser's last state, and the document or the failure.
pub open spec fn spec_drive(s: PV, d: DocV) -> (PV, Result<DocV, CadErrorV>)
    decreases measure(s),
    when pv_wf(s)
{
    let (s2, r) = spec_next_event(s);
    match r {
        Ok(Some(e)) => {
            proof {
                lemma_run_measure(s);
            }
            spec_drive(s2, apply_v(d, e))
        },
        Ok(None) => (s2, Ok(d)),
        Err(e) => (s2, Err(e)),
    }
}

/// One event read and taken in.
pub proof fn lemma_drive_unfold(s: PV, d: DocV)
    requires
        pv_wf(s),
    ensures
        spec_drive(s, d) == (match spec_next_event(s).1 {
            Ok(Some(e)) => spec_drive(spec_next_event(s).0, apply_v(d, e)),
            Ok(None) => (spec_next_event(s).0, Ok(d)),
            Err(e) => (spec_next_event(s).0, Err(e)),
        }),
{
    let (s2, r) = spec_next_event(s);
    match r {
        Ok(Some(e)) => {
            lemma_run_measure(s);
            assert(spec_drive(s, d) == spec_drive(s2, apply_v(d, e)));
        },
        Ok(None) => {
            assert(spec_drive(s, d) == (s2, Ok::<DocV, CadErrorV>(d)));
        },
        Err(e) => {
            assert(spec_drive(s, d) == (s2, Err::<DocV, CadErrorV>(e)));
        },
    }
}

/// The document that a whole stream gives, with the warnings met on the
/// way, or the failure that stopped it.
pub open spec fn spec_parse(s: PV) -> Result<DocV, CadErrorV> {
    let (s2, r) = spec_drive(s, empty_doc());
    match r {
        Ok(d) => Ok(DocV { warnings: s2.warnings, ..d }),
        Err(e) => Err(e),
    }
}

pub open spec fn doc_outcome(r: Result<DxfDocument, CadError>) -> Result<DocV, CadErrorV> {
    match r {
        Ok(d) => Ok(d@),
        Err(e) => Err(e@),
    }
}

impl Default for DxfDocument {
    fn default() -> (d: Self)
        ensures
            d@ == empty_doc(),
    {
        let d = DxfDocument {
            header: HeaderVars::new(),
            entities: Vec::new(),
            blocks: Vec::new(),
            parse_warnings: Vec::new(),
        };
        assert(d@.entities =~= Seq::<EntityV>::empty());
        assert(d@.blocks =~= Seq::<BlockV>::empty());
        assert(d@.warnings =~= Seq::<WarningV>::empty());
        d
    }
}

impl DxfDocument {
    /// Applies one parse event to the document.
    pub fn apply(&mut self, event: ParseEvent)
        ensures
            final(self)@ == apply_v(old(self)@, event@),
    {
        let ghost d0 = self@;
        match event {
            ParseEvent::HeaderVariable { name, value } => {
                self.header.insert(name, value);
            },
            ParseEvent::Entity(e) => {
                self.entities.push(e);
                assert(self@.entities =~= d0.entities.push(self.entities@.last()@));
            },
            ParseEvent::BlockDefinitionEnd(b) => {
                self.blocks.push(b);
                assert(self@.blocks =~= d0.blocks.push(self.blocks@.last()@));
            },
            _ => {},
        }
    }
}

/// Runs a parser to the end of its stream and collects what it reports.
pub fn parse_stream(parser: StreamingParser) -> (r: Result<DxfDocument, CadError>)
    requires
        parser.wf(),
    ensures
        doc_outcome(r) == spec_parse(parser@),
{
    let mut p = parser;
    let mut doc = DxfDocument::default();
    let ghost target = spec_drive(p@, doc@);
    loop
        invariant
            p.wf(),
            spec_drive(p@, doc@) == target,
            target == spec_drive(parser@, empty_doc()),
        decreases measure(p@),
    {
        let ghost s0 = p@;
        proof {
            if s0.state != State::Done {
                lemma_run_measure(s0);
            }
        }
        match p.next_event() {
            Err(e) => {
                return Err(e);
            },
            Ok(None) => {
                doc.parse_warnings = p.take_warnings();
                return Ok(doc);
            },
            Ok(Some(ev)) => {
                doc.apply(ev);
            },
        }
    }
}

/// Parses the lines of a whole DXF stream.
pub fn parse_all(lines: Vec<String>) -> (r: Result<DxfDocument, CadError>)
    ensures
        doc_outcome(r) == spec_parse(initial_pv(lines@.map_values(|s: String| s@), None)),
{
    let parser = StreamingParser::new(lines);
    parse_stream(parser)
}

} // verus!
