//! A file that the emitter writes, the parser reads back: its HEADER
//! variables, its block definitions and its entities.

use vstd::prelude::*;

use crate::builders::{Recipe, entity_warnings, spec_build_entity, warnings_of};
use crate::document::{DocV, apply_v, empty_doc, map_of, spec_drive, spec_parse};
use crate::entity::{BlockV, EntityV, PointV};
use crate::error::CadErrorV;
use crate::numeric::int_text;
use crate::parser::{
    EventV, PV, SectionKind, State, Step, initial_pv, pv_wf, section_kind, spec_next_event,
    spec_run, spec_step,
};
use crate::reader::{PairV, read_result};
use crate::roundtrip::{
    block_back, block_head_groups, block_ok, entity_type, lemma_code_text, lemma_emit_shape, lemma_entity_round_trip, read_back, stable, strip,
    writable,
};
use crate::numeric::spec_parse_i64;
use crate::writer::{
    document_groups, blocks_groups, blocks_section, builtin_block_groups, block_groups, emit_groups, entities_groups, block_record_groups, header_section, header_vars_groups, layers_groups, render, tables_section,
};

verus! {

/// The pair at index `j` of `ps`, as the reader gives it: its code line is
/// line `2j + 1`.
pub open spec fn pair_at(ps: Seq<(i32, Seq<char>)>, j: int) -> PairV {
    PairV { code: ps[j].0, value: ps[j].1, line_no: (2 * j + 1) as usize }
}

/// Pairs whose values reading leaves as they are.
pub open spec fn clean(ps: Seq<(i32, Seq<char>)>) -> bool {
    forall|j: int| #![trigger ps[j]] 0 <= j < ps.len() ==> stable(ps[j].1)
}

proof fn lemma_render_index(ps: Seq<(i32, Seq<char>)>)
    ensures
        render(ps).len() == 2 * ps.len(),
        forall|j: int|
            #![trigger ps[j]]
            0 <= j < ps.len() ==> render(ps)[2 * j] == int_text(ps[j].0 as int) && render(ps)[2
                * j + 1] == ps[j].1,
    decreases ps.len(),
{
    if ps.len() > 0 {
        let init = ps.drop_last();
        lemma_render_index(init);
        assert forall|j: int| #![trigger ps[j]] 0 <= j < ps.len() implies render(ps)[2 * j]
            == int_text(ps[j].0 as int) && render(ps)[2 * j + 1] == ps[j].1 by {
            if j < ps.len() - 1 {
                assert(init[j] == ps[j]);
            }
        }
    }
}

/// Reading the lines that a sequence of pairs is written as gives back
/// pair `j` at line `2j`, and the end of the stream after the last pair.
pub proof fn lemma_read_rendered(ps: Seq<(i32, Seq<char>)>, err: Option<Seq<char>>, j: int)
    requires
        clean(ps),
        0 <= j <= ps.len(),
    ensures
        j < ps.len() ==> read_result(render(ps), err, (2 * j) as nat, None) == (
            Ok::<Option<PairV>, CadErrorV>(Some(pair_at(ps, j))),
            (2 * j + 2) as nat,
        ),
        j == ps.len() && err is None ==> read_result(render(ps), err, (2 * j) as nat, None) == (
            Ok::<Option<PairV>, CadErrorV>(None),
            (2 * j) as nat,
        ),
{
    lemma_render_index(ps);
    if j < ps.len() {
        lemma_code_text(ps[j].0 as int);
        assert(stable(ps[j].1));
    }
}

/// The parser stands before pair `j` of `ps`, whose lines it reads,
/// with nothing pushed back.
pub open spec fn at_pair(s: PV, ps: Seq<(i32, Seq<char>)>, j: int) -> bool {
    &&& s.lines == render(ps)
    &&& s.err is None
    &&& s.pos == 2 * j
    &&& s.pending is None
    &&& 0 <= j <= ps.len()
}

/// Pairs `j..j2` of `ps` as the reader gives them.
pub open spec fn pairs_from(ps: Seq<(i32, Seq<char>)>, j: int, j2: int) -> Seq<PairV> {
    Seq::new((j2 - j) as nat, |i: int| pair_at(ps, j + i))
}

/// The state after reading one more pair.
pub open spec fn moved(s: PV, j: int) -> PV {
    PV { pos: (2 * j) as nat, ..s }
}

/// Reading pair `j` and stepping on it.
proof fn lemma_run_read(s: PV, ps: Seq<(i32, Seq<char>)>, j: int)
    requires
        clean(ps),
        at_pair(s, ps, j),
        j < ps.len(),
    ensures
        pv_wf(s),
        spec_run(s) == (match spec_step(moved(s, j + 1), pair_at(ps, j)) {
            Step::Continue(s2) => spec_run(s2),
            Step::Emit(s2, e) => (s2, Ok(Some(e))),
            Step::Fail(s2, e) => (s2, Err(e)),
        }),
{
    lemma_read_rendered(ps, s.err, j);
    lemma_render_index(ps);
    assert(PV { pos: (2 * j + 2) as nat, pending: None, ..s } =~= moved(s, j + 1));
}

/// A pair that ends what the parser is reading in `state`.
pub open spec fn stops(state: State, p: (i32, Seq<char>)) -> bool {
    p.0 == 0 && (p.1 == "EOF"@ || p.1 == "SECTION"@ || p.1 == "ENDSEC"@ || p.1 == "ENDBLK"@ || (
    p.1 == "BLOCK"@ && state == State::InSection(SectionKind::Blocks)))
}

/// In a section whose content is not reported, pairs that end nothing
/// are passed over.
proof fn lemma_run_skip(s: PV, ps: Seq<(i32, Seq<char>)>, j: int, j2: int)
    requires
        clean(ps),
        at_pair(s, ps, j),
        j <= j2 <= ps.len(),
        s.state matches State::InSection(k) && k != SectionKind::Header && k
            != SectionKind::Entities,
        forall|i: int| j <= i < j2 ==> !stops(s.state, #[trigger] ps[i]),
    ensures
        spec_run(s) == spec_run(moved(s, j2)),
    decreases j2 - j,
{
    if j == j2 {
        assert(moved(s, j2) =~= s);
    } else {
        lemma_run_read(s, ps, j);
        assert(!stops(s.state, ps[j]));
        let s1 = moved(s, j + 1);
        assert(spec_step(s1, pair_at(ps, j)) == Step::Continue(s1));
        lemma_run_skip(s1, ps, j + 1, j2);
        assert(moved(s1, j2) =~= moved(s, j2));
    }
}

/// Pairs of an entity after its type pair are collected.
proof fn lemma_run_groups(s: PV, ps: Seq<(i32, Seq<char>)>, j: int, j2: int)
    requires
        clean(ps),
        at_pair(s, ps, j),
        j <= j2 <= ps.len(),
        s.state == State::AccumulatingEntity || s.state == State::InBlockEntity,
        forall|i: int| j <= i < j2 ==> (#[trigger] ps[i]).0 != 0,
    ensures
        spec_run(s) == spec_run(PV { groups: s.groups + pairs_from(ps, j, j2), ..moved(s, j2) }),
    decreases j2 - j,
{
    if j == j2 {
        assert(PV { groups: s.groups + pairs_from(ps, j, j2), ..moved(s, j2) } =~= s);
    } else {
        lemma_run_read(s, ps, j);
        let s1 = moved(s, j + 1);
        let s2 = PV { groups: s.groups.push(pair_at(ps, j)), ..s1 };
        assert(ps[j].0 != 0);
        assert(spec_step(s1, pair_at(ps, j)) == Step::Continue(s2));
        lemma_run_groups(s2, ps, j + 1, j2);
        assert(s2.groups + pairs_from(ps, j + 1, j2) =~= s.groups + pairs_from(ps, j, j2));
        assert(PV { groups: s2.groups + pairs_from(ps, j + 1, j2), ..moved(s2, j2) } =~= PV {
            groups: s.groups + pairs_from(ps, j, j2),
            ..moved(s, j2)
        });
    }
}

/// Pairs of a block header are collected.
proof fn lemma_run_header_groups(s: PV, ps: Seq<(i32, Seq<char>)>, j: int, j2: int)
    requires
        clean(ps),
        at_pair(s, ps, j),
        j <= j2 <= ps.len(),
        s.state == State::InBlockHeader,
        forall|i: int| j <= i < j2 ==> (#[trigger] ps[i]).0 != 0,
    ensures
        spec_run(s) == spec_run(
            PV { header_groups: s.header_groups + pairs_from(ps, j, j2), ..moved(s, j2) },
        ),
    decreases j2 - j,
{
    if j == j2 {
        assert(PV { header_groups: s.header_groups + pairs_from(ps, j, j2), ..moved(s, j2) }
            =~= s);
    } else {
        lemma_run_read(s, ps, j);
        let s1 = moved(s, j + 1);
        let s2 = PV { header_groups: s.header_groups.push(pair_at(ps, j)), ..s1 };
        assert(ps[j].0 != 0);
        assert(spec_step(s1, pair_at(ps, j)) == Step::Continue(s2));
        lemma_run_header_groups(s2, ps, j + 1, j2);
        assert(s2.header_groups + pairs_from(ps, j + 1, j2) =~= s.header_groups + pairs_from(
            ps,
            j,
            j2,
        ));
        assert(PV {
            header_groups: s2.header_groups + pairs_from(ps, j + 1, j2),
            ..moved(s2, j2)
        } =~= PV { header_groups: s.header_groups + pairs_from(ps, j, j2), ..moved(s, j2) });
    }
}

/// The pairs that the reader gives for a part of `ps`, stripped of their
/// line numbers, are that part.
proof fn lemma_pairs_from_strip(ps: Seq<(i32, Seq<char>)>, j: int, j2: int)
    requires
        0 <= j <= j2 <= ps.len(),
    ensures
        strip(pairs_from(ps, j, j2)) == ps.subrange(j, j2),
{
    assert(strip(pairs_from(ps, j, j2)) =~= ps.subrange(j, j2));
}

/// The words of the file structure differ from each other.
pub proof fn lemma_words()
    ensures
        "SECTION"@ != "EOF"@,
        "ENDSEC"@ != "EOF"@ && "ENDSEC"@ != "SECTION"@,
        "BLOCK"@ != "EOF"@ && "BLOCK"@ != "SECTION"@ && "BLOCK"@ != "ENDSEC"@,
        "ENDBLK"@ != "EOF"@ && "ENDBLK"@ != "SECTION"@ && "ENDBLK"@ != "ENDSEC"@ && "ENDBLK"@
            != "BLOCK"@,
        !crate::roundtrip::boundary_word("TABLE"@),
        !crate::roundtrip::boundary_word("ENDTAB"@),
        !crate::roundtrip::boundary_word("LAYER"@),
        !crate::roundtrip::boundary_word("BLOCK_RECORD"@),
        !crate::roundtrip::boundary_word("LINE"@),
        !crate::roundtrip::boundary_word("CIRCLE"@),
        !crate::roundtrip::boundary_word("ARC"@),
        !crate::roundtrip::boundary_word("LWPOLYLINE"@),
        !crate::roundtrip::boundary_word("TEXT"@),
        !crate::roundtrip::boundary_word("MTEXT"@),
        !crate::roundtrip::boundary_word("INSERT"@),
        !crate::roundtrip::boundary_word("DIMENSION"@),
        section_kind("HEADER"@) == SectionKind::Header,
        section_kind("TABLES"@) == SectionKind::Tables,
        section_kind("BLOCKS"@) == SectionKind::Blocks,
        section_kind("ENTITIES"@) == SectionKind::Entities,
{
    reveal_strlit("EOF");
    reveal_strlit("SECTION");
    reveal_strlit("ENDSEC");
    reveal_strlit("BLOCK");
    reveal_strlit("ENDBLK");
    reveal_strlit("TABLE");
    reveal_strlit("ENDTAB");
    reveal_strlit("LAYER");
    reveal_strlit("BLOCK_RECORD");
    reveal_strlit("LINE");
    reveal_strlit("CIRCLE");
    reveal_strlit("ARC");
    reveal_strlit("LWPOLYLINE");
    reveal_strlit("TEXT");
    reveal_strlit("MTEXT");
    reveal_strlit("INSERT");
    reveal_strlit("DIMENSION");
    reveal_strlit("HEADER");
    reveal_strlit("CLASSES");
    reveal_strlit("TABLES");
    reveal_strlit("BLOCKS");
    reveal_strlit("ENTITIES");
    assert("EOF"@.len() == 3 && "EOF"@[0] == 'E');
    assert("SECTION"@.len() == 7 && "SECTION"@[0] == 'S');
    assert("ENDSEC"@.len() == 6 && "ENDSEC"@[0] == 'E' && "ENDSEC"@[3] == 'S');
    assert("BLOCK"@.len() == 5 && "BLOCK"@[0] == 'B');
    assert("ENDBLK"@.len() == 6 && "ENDBLK"@[0] == 'E' && "ENDBLK"@[3] == 'B');
    assert("TABLE"@.len() == 5 && "TABLE"@[0] == 'T');
    assert("ENDTAB"@.len() == 6 && "ENDTAB"@[0] == 'E' && "ENDTAB"@[3] == 'T');
    assert("LAYER"@.len() == 5 && "LAYER"@[0] == 'L');
    assert("BLOCK_RECORD"@.len() == 12);
    assert("LINE"@.len() == 4);
    assert("CIRCLE"@.len() == 6 && "CIRCLE"@[0] == 'C');
    assert("ARC"@.len() == 3 && "ARC"@[0] == 'A');
    assert("LWPOLYLINE"@.len() == 10);
    assert("TEXT"@.len() == 4);
    assert("MTEXT"@.len() == 5 && "MTEXT"@[0] == 'M');
    assert("INSERT"@.len() == 6 && "INSERT"@[0] == 'I');
    assert("DIMENSION"@.len() == 9);
    assert("HEADER"@.len() == 6 && "HEADER"@[0] == 'H');
    assert("CLASSES"@.len() == 7 && "CLASSES"@[0] == 'C');
    assert("TABLES"@.len() == 6 && "TABLES"@[0] == 'T');
    assert("BLOCKS"@.len() == 6 && "BLOCKS"@[0] == 'B');
    assert("ENTITIES"@.len() == 8);
}

/// Nothing is being read: no entity, no groups.
pub open spec fn idle(s: PV) -> bool {
    s.kind is None && s.groups.len() == 0
}

/// `0/SECTION` then `2/<name>` open a section.
proof fn lemma_run_open_section(s: PV, ps: Seq<(i32, Seq<char>)>, j: int)
    requires
        clean(ps),
        at_pair(s, ps, j),
        j + 1 < ps.len(),
        ps[j] == (0i32, "SECTION"@),
        ps[j + 1].0 == 2,
        idle(s),
    ensures
        spec_run(s) == (
            PV { state: State::InSection(section_kind(ps[j + 1].1)), ..moved(s, j + 2) },
            Ok::<Option<EventV>, CadErrorV>(Some(EventV::SectionStart(section_kind(ps[j + 1].1)))),
        ),
{
    lemma_words();
    lemma_run_read(s, ps, j);
    lemma_read_rendered(ps, s.err, j + 1);
    let s1 = moved(s, j + 1);
    assert(crate::parser::spec_flush_anything(s1) == (s1, None::<EventV>));
    assert(PV { pos: (2 * j + 4) as nat, pending: None, ..s1 } =~= moved(s, j + 2));
}

/// `0/ENDSEC` with nothing being read closes the section.
proof fn lemma_run_end_section(s: PV, ps: Seq<(i32, Seq<char>)>, j: int)
    requires
        clean(ps),
        at_pair(s, ps, j),
        j < ps.len(),
        ps[j] == (0i32, "ENDSEC"@),
        idle(s),
    ensures
        spec_run(s) == (
            PV { state: State::Initial, ..moved(s, j + 1) },
            Ok::<Option<EventV>, CadErrorV>(Some(EventV::SectionEnd)),
        ),
{
    lemma_words();
    lemma_run_read(s, ps, j);
    let s1 = moved(s, j + 1);
    assert(crate::parser::spec_flush_anything(s1) == (s1, None::<EventV>));
}

/// `0/EOF` with nothing being read ends the stream.
proof fn lemma_run_eof(s: PV, ps: Seq<(i32, Seq<char>)>, j: int)
    requires
        clean(ps),
        at_pair(s, ps, j),
        j < ps.len(),
        ps[j] == (0i32, "EOF"@),
        idle(s),
    ensures
        spec_run(s) == (
            PV { state: State::Done, ..moved(s, j + 1) },
            Ok::<Option<EventV>, CadErrorV>(Some(EventV::Eof)),
        ),
{
    lemma_run_read(s, ps, j);
    let s1 = moved(s, j + 1);
    assert(crate::parser::spec_flush_anything(s1) == (s1, None::<EventV>));
}

proof fn lemma_at_wf(s: PV, ps: Seq<(i32, Seq<char>)>, j: int)
    requires
        at_pair(s, ps, j),
    ensures
        pv_wf(s),
{
    lemma_render_index(ps);
}

/// Reading on to an event, the document takes it in.
proof fn lemma_drive_event(s: PV, d: DocV, s2: PV, e: EventV)
    requires
        pv_wf(s),
        s.state != State::Done,
        spec_run(s) == (s2, Ok::<Option<EventV>, CadErrorV>(Some(e))),
    ensures
        spec_drive(s, d) == spec_drive(s2, apply_v(d, e)),
{
    crate::document::lemma_drive_unfold(s, d);
}

/// Two states from which reading goes the same way.
proof fn lemma_drive_same(s: PV, s2: PV, d: DocV)
    requires
        pv_wf(s),
        pv_wf(s2),
        s.state != State::Done,
        s2.state != State::Done,
        spec_run(s) == spec_run(s2),
    ensures
        spec_drive(s, d) == spec_drive(s2, d),
{
}

/// `seg` stands in `ps` from index `j` on.
pub open spec fn holds(ps: Seq<(i32, Seq<char>)>, j: int, seg: Seq<(i32, Seq<char>)>) -> bool {
    0 <= j && j + seg.len() <= ps.len() && ps.subrange(j, j + seg.len()) == seg
}

proof fn lemma_holds(ps: Seq<(i32, Seq<char>)>, j: int, seg: Seq<(i32, Seq<char>)>)
    requires
        holds(ps, j, seg),
    ensures
        forall|i: int| #![trigger seg[i]] 0 <= i < seg.len() ==> ps[j + i] == seg[i],
{
    assert forall|i: int| #![trigger seg[i]] 0 <= i < seg.len() implies ps[j + i] == seg[i] by {
        assert(ps.subrange(j, j + seg.len())[i] == ps[j + i]);
    }
}

proof fn lemma_holds_split(
    ps: Seq<(i32, Seq<char>)>,
    j: int,
    a: Seq<(i32, Seq<char>)>,
    b: Seq<(i32, Seq<char>)>,
)
    requires
        holds(ps, j, a + b),
    ensures
        holds(ps, j, a),
        holds(ps, j + a.len(), b),
{
    assert(ps.subrange(j, j + a.len()) =~= (a + b).subrange(0, a.len() as int));
    assert((a + b).subrange(0, a.len() as int) =~= a);
    assert(ps.subrange(j + a.len(), j + a.len() + b.len()) =~= (a + b).subrange(
        a.len() as int,
        (a.len() + b.len()) as int,
    ));
    assert((a + b).subrange(a.len() as int, (a.len() + b.len()) as int) =~= b);
}

/// The group code a HEADER variable's value is written under.
pub open spec fn header_value_code(v: Seq<char>) -> i32 {
    if spec_parse_i64(v) is Some {
        70i32
    } else {
        1i32
    }
}

proof fn lemma_header_vars_index(vars: Seq<(Seq<char>, Seq<char>)>)
    ensures
        header_vars_groups(vars).len() == 2 * vars.len(),
        forall|i: int|
            #![trigger vars[i]]
            0 <= i < vars.len() ==> header_vars_groups(vars)[2 * i] == (9i32, vars[i].0)
                && header_vars_groups(vars)[2 * i + 1] == (header_value_code(vars[i].1), vars[i].1),
    decreases vars.len(),
{
    if vars.len() > 0 {
        let init = vars.drop_last();
        lemma_header_vars_index(init);
        assert forall|i: int| #![trigger vars[i]] 0 <= i < vars.len() implies header_vars_groups(
            vars,
        )[2 * i] == (9i32, vars[i].0) && header_vars_groups(vars)[2 * i + 1] == (
            header_value_code(vars[i].1),
            vars[i].1,
        ) by {
            if i < vars.len() - 1 {
                assert(init[i] == vars[i]);
            }
        }
    }
}

/// The map of HEADER variables after the first `i` of `vars`.
pub open spec fn vars_into(m: Map<Seq<char>, Seq<char>>, vars: Seq<(Seq<char>, Seq<char>)>) -> Map<
    Seq<char>,
    Seq<char>,
>
    decreases vars.len(),
{
    if vars.len() == 0 {
        m
    } else {
        vars_into(m, vars.drop_last()).insert(vars.last().0, vars.last().1)
    }
}

proof fn lemma_map_of_vars_into(vars: Seq<(Seq<char>, Seq<char>)>)
    ensures
        map_of(vars) == vars_into(Map::empty(), vars),
    decreases vars.len(),
{
    if vars.len() > 0 {
        lemma_map_of_vars_into(vars.drop_last());
    }
}

/// Reading the HEADER variables from the `i`-th on.
proof fn lemma_drive_header_vars(
    s: PV,
    ps: Seq<(i32, Seq<char>)>,
    j: int,
    vars: Seq<(Seq<char>, Seq<char>)>,
    i: int,
    d: DocV,
)
    requires
        clean(ps),
        holds(ps, j, header_vars_groups(vars)),
        0 <= i <= vars.len(),
        at_pair(s, ps, j + 2 * i),
        s.state == State::InSection(SectionKind::Header),
        s.header_var is None,
        j + 2 * vars.len() < ps.len(),
    ensures
        spec_drive(s, d) == spec_drive(
            moved(s, j + 2 * vars.len()),
            DocV { header: vars_into(d.header, vars.skip(i)), ..d },
        ),
    decreases vars.len() - i,
{
    if i == vars.len() {
        assert(vars.skip(i) =~= Seq::<(Seq<char>, Seq<char>)>::empty());
        assert(moved(s, j + 2 * vars.len()) =~= s);
        assert(DocV { header: vars_into(d.header, vars.skip(i)), ..d } == d);
    } else {
        lemma_header_vars_index(vars);
        lemma_holds(ps, j, header_vars_groups(vars));
        let hv = header_vars_groups(vars);
        assert(ps[j + 2 * i] == hv[2 * i]);
        assert(ps[j + 2 * i + 1] == hv[2 * i + 1]);
        assert(hv[2 * i] == (9i32, vars[i].0));
        lemma_run_read(s, ps, j + 2 * i);
        let s1 = moved(s, j + 2 * i + 1);
        let s2 = PV { header_var: Some(vars[i].0), ..s1 };
        assert(spec_step(s1, pair_at(ps, j + 2 * i)) == Step::Continue(s2));
        lemma_run_read(s2, ps, j + 2 * i + 1);
        let s3 = moved(s2, j + 2 * i + 2);
        assert(header_value_code(vars[i].1) != 0 && header_value_code(vars[i].1) != 9);
        let e = EventV::HeaderVariable { name: vars[i].0, value: vars[i].1 };
        let s4 = PV { header_var: None, ..s3 };
        assert(spec_step(s3, pair_at(ps, j + 2 * i + 1)) == Step::Emit(s4, e));
        assert(s4 =~= moved(s, j + 2 * i + 2));
        lemma_drive_event(s, d, s4, e);
        let d2 = apply_v(d, e);
        lemma_drive_header_vars(s4, ps, j, vars, i + 1, d2);
        assert(moved(s4, j + 2 * vars.len()) =~= moved(s, j + 2 * vars.len()));
        lemma_vars_into_front(d.header, vars.skip(i));
        assert(vars.skip(i).drop_first() =~= vars.skip(i + 1));
        assert(vars.skip(i)[0] == vars[i]);
    }
}

/// Taking in the first variable, then the rest.
proof fn lemma_vars_into_front(m: Map<Seq<char>, Seq<char>>, vars: Seq<(Seq<char>, Seq<char>)>)
    requires
        vars.len() > 0,
    ensures
        vars_into(m, vars) == vars_into(m.insert(vars[0].0, vars[0].1), vars.drop_first()),
    decreases vars.len(),
{
    if vars.len() == 1 {
        assert(vars.drop_last() =~= Seq::<(Seq<char>, Seq<char>)>::empty());
        assert(vars.drop_first() =~= Seq::<(Seq<char>, Seq<char>)>::empty());
        assert(vars.last() == vars[0]);
        assert(vars_into(m, vars.drop_last()) == m);
        assert(vars_into(m.insert(vars[0].0, vars[0].1), vars.drop_first()) == m.insert(
            vars[0].0,
            vars[0].1,
        ));
    } else {
        assert(vars.drop_last()[0] == vars[0]);
        lemma_vars_into_front(m, vars.drop_last());
        assert(vars.drop_last().drop_first() =~= vars.drop_first().drop_last());
        assert(vars.drop_first().last() == vars.last());
    }
}

/// The HEADER section: its variables go into the document in order.
proof fn lemma_drive_header(
    s: PV,
    ps: Seq<(i32, Seq<char>)>,
    j: int,
    vars: Seq<(Seq<char>, Seq<char>)>,
    d: DocV,
)
    requires
        clean(ps),
        at_pair(s, ps, j),
        holds(ps, j, header_section(vars)),
        j + header_section(vars).len() < ps.len(),
        idle(s),
        s.header_var is None,
        s.state != State::Done,
    ensures
        spec_drive(s, d) == spec_drive(
            PV { state: State::Initial, ..moved(s, j + header_section(vars).len()) },
            DocV { header: vars_into(d.header, vars), ..d },
        ),
{
    lemma_words();
    let hv = header_vars_groups(vars);
    let n = hv.len() as int;
    lemma_header_vars_index(vars);
    let open = seq![(0i32, "SECTION"@), (2i32, "HEADER"@)];
    let close = seq![(0i32, "ENDSEC"@)];
    assert(header_section(vars) =~= open + hv + close);
    lemma_holds_split(ps, j, open + hv, close);
    lemma_holds_split(ps, j, open, hv);
    lemma_holds(ps, j, open);
    lemma_holds(ps, j + 2 + n, close);
    assert(ps[j] == open[0]);
    assert(ps[j + 1] == open[1]);
    assert(ps[j + 2 + n] == close[0]);
    lemma_run_open_section(s, ps, j);
    let s1 = PV { state: State::InSection(SectionKind::Header), ..moved(s, j + 2) };
    lemma_at_wf(s, ps, j);
    lemma_drive_event(s, d, s1, EventV::SectionStart(SectionKind::Header));
    assert(apply_v(d, EventV::SectionStart(SectionKind::Header)) == d);
    lemma_drive_header_vars(s1, ps, j + 2, vars, 0, d);
    assert(vars.skip(0) =~= vars);
    let d2 = DocV { header: vars_into(d.header, vars), ..d };
    let s2 = moved(s1, j + 2 + n);
    lemma_run_end_section(s2, ps, j + 2 + n);
    let s3 = PV { state: State::Initial, ..moved(s2, j + 3 + n) };
    lemma_at_wf(s2, ps, j + 2 + n);
    lemma_drive_event(s2, d2, s3, EventV::SectionEnd);
    assert(s3 =~= PV { state: State::Initial, ..moved(s, j + header_section(vars).len()) });
}

/// A pair that ends nothing, whatever the parser is reading.
pub open spec fn quiet_pair(p: (i32, Seq<char>)) -> bool {
    !(p.0 == 0 && crate::roundtrip::boundary_word(p.1))
}

proof fn lemma_layers_quiet(ls: Seq<crate::writer::LayerV>)
    ensures
        forall|i: int|
            0 <= i < layers_groups(ls).len() ==> quiet_pair(#[trigger] layers_groups(ls)[i]),
    decreases ls.len(),
{
    lemma_words();
    if ls.len() > 0 {
        lemma_layers_quiet(ls.drop_last());
        let a = layers_groups(ls.drop_last());
        let b = crate::writer::layer_groups(ls.last());
        assert(layers_groups(ls) =~= a + b);
        assert forall|i: int| 0 <= i < (a + b).len() implies quiet_pair(#[trigger] (a + b)[i]) by {
            if i >= a.len() {
                assert((a + b)[i] == b[i - a.len()]);
            } else {
                assert((a + b)[i] == a[i]);
            }
        }
    }
}

proof fn lemma_records_quiet(names: Seq<Seq<char>>)
    ensures
        forall|i: int|
            0 <= i < block_record_groups(names).len() ==> quiet_pair(
                #[trigger] block_record_groups(names)[i],
            ),
    decreases names.len(),
{
    lemma_words();
    if names.len() > 0 {
        lemma_records_quiet(names.drop_last());
        let a = block_record_groups(names.drop_last());
        let b = seq![(0i32, "BLOCK_RECORD"@), (2i32, names.last())];
        assert(block_record_groups(names) =~= a + b);
        assert forall|i: int| 0 <= i < (a + b).len() implies quiet_pair(#[trigger] (a + b)[i]) by {
            if i >= a.len() {
                assert((a + b)[i] == b[i - a.len()]);
            } else {
                assert((a + b)[i] == a[i]);
            }
        }
    }
}

/// The TABLES section is passed over.
proof fn lemma_drive_tables(
    s: PV,
    ps: Seq<(i32, Seq<char>)>,
    j: int,
    ls: Seq<crate::writer::LayerV>,
    names: Seq<Seq<char>>,
    d: DocV,
)
    requires
        clean(ps),
        at_pair(s, ps, j),
        holds(ps, j, tables_section(ls, names)),
        j + tables_section(ls, names).len() < ps.len(),
        idle(s),
        s.state != State::Done,
    ensures
        spec_drive(s, d) == spec_drive(
            PV { state: State::Initial, ..moved(s, j + tables_section(ls, names).len()) },
            d,
        ),
{
    lemma_words();
    let t = tables_section(ls, names);
    let n = t.len() as int;
    let open = seq![(0i32, "SECTION"@), (2i32, "TABLES"@)];
    let lg = layers_groups(ls);
    let rg = block_record_groups(seq!["*Model_Space"@, "*Paper_Space"@] + names);
    let mid = seq![(0i32, "TABLE"@), (2i32, "LAYER"@), (70i32, int_text(ls.len() as int))] + lg
        + seq![
        (0i32, "ENDTAB"@),
        (0i32, "TABLE"@),
        (2i32, "BLOCK_RECORD"@),
        (70i32, int_text(names.len() + 2int)),
    ] + rg + seq![(0i32, "ENDTAB"@)];
    let close = seq![(0i32, "ENDSEC"@)];
    assert(t =~= open + mid + close);
    lemma_holds_split(ps, j, open + mid, close);
    lemma_holds_split(ps, j, open, mid);
    lemma_holds(ps, j, open);
    lemma_holds(ps, j + 2, mid);
    lemma_holds(ps, j + 2 + mid.len(), close);
    assert(ps[j] == open[0]);
    assert(ps[j + 1] == open[1]);
    assert(ps[j + 2 + mid.len()] == close[0]);
    lemma_run_open_section(s, ps, j);
    let s1 = PV { state: State::InSection(SectionKind::Tables), ..moved(s, j + 2) };
    lemma_at_wf(s, ps, j);
    lemma_drive_event(s, d, s1, EventV::SectionStart(SectionKind::Tables));
    assert(apply_v(d, EventV::SectionStart(SectionKind::Tables)) == d);
    lemma_layers_quiet(ls);
    lemma_records_quiet(seq!["*Model_Space"@, "*Paper_Space"@] + names);
    assert forall|i: int| 0 <= i < mid.len() implies quiet_pair(#[trigger] mid[i]) by {
        let n1 = 3 + lg.len();
        let n2 = n1 + 4;
        let n3 = n2 + rg.len();
        if i >= n3 {
        } else if i >= n2 {
            assert(mid[i] == rg[i - n2]);
        } else if i >= n1 {
        } else if i >= 3 {
            assert(mid[i] == lg[i - 3]);
        }
    }
    assert forall|i: int| j + 2 <= i < j + 2 + mid.len() implies !stops(s1.state, #[trigger] ps[i]) by {
        assert(ps[i] == mid[i - j - 2]);
        assert(quiet_pair(mid[i - j - 2]));
    }
    lemma_run_skip(s1, ps, j + 2, j + 2 + mid.len());
    let s2 = moved(s1, j + 2 + mid.len());
    lemma_run_end_section(s2, ps, j + 2 + mid.len());
    let s3 = PV { state: State::Initial, ..moved(s2, j + 3 + mid.len()) };
    lemma_at_wf(s1, ps, j + 2);
    lemma_drive_event(s1, d, s3, EventV::SectionEnd);
    assert(s3 =~= PV { state: State::Initial, ..moved(s, j + n) });
}

proof fn lemma_entities_groups_append(a: Seq<EntityV>, b: Seq<EntityV>)
    ensures
        entities_groups(a + b) == entities_groups(a) + entities_groups(b),
    decreases b.len(),
{
    if b.len() == 0 {
        assert(a + b =~= a);
        assert(entities_groups(a) + entities_groups(b) =~= entities_groups(a));
    } else {
        assert((a + b).drop_last() =~= a + b.drop_last());
        lemma_entities_groups_append(a, b.drop_last());
        assert(entities_groups(a + b) =~= entities_groups(a) + entities_groups(b));
    }
}

/// Where the groups of entity `i` start among those of `es`.
pub open spec fn offset(es: Seq<EntityV>, i: int) -> int {
    entities_groups(es.take(i)).len() as int
}

proof fn lemma_entity_at(ps: Seq<(i32, Seq<char>)>, j: int, es: Seq<EntityV>, i: int)
    requires
        holds(ps, j, entities_groups(es)),
        0 <= i < es.len(),
    ensures
        holds(ps, j + offset(es, i), emit_groups(es[i])),
        offset(es, i + 1) == offset(es, i) + emit_groups(es[i]).len(),
        offset(es, i + 1) <= entities_groups(es).len(),
{
    let a = es.take(i);
    let t = es.take(i + 1);
    let r = es.skip(i + 1);
    assert(es =~= t + r);
    assert(t.drop_last() =~= a);
    assert(t.last() == es[i]);
    lemma_entities_groups_append(t, r);
    assert(entities_groups(t) =~= entities_groups(a) + emit_groups(es[i]));
    lemma_holds_split(ps, j, entities_groups(t), entities_groups(r));
    lemma_holds_split(ps, j, entities_groups(a), emit_groups(es[i]));
}

proof fn lemma_offset_end(es: Seq<EntityV>)
    ensures
        offset(es, es.len() as int) == entities_groups(es).len(),
        offset(es, 0) == 0,
{
    assert(es.take(es.len() as int) =~= es);
    assert(es.take(0) =~= Seq::<EntityV>::empty());
}

pub open spec fn read_back_all(es: Seq<EntityV>) -> Seq<EntityV> {
    es.map_values(|e: EntityV| read_back(e))
}

/// The groups of one entity read back.
proof fn lemma_entity_groups_read(ps: Seq<(i32, Seq<char>)>, j: int, e: EntityV)
    requires
        holds(ps, j, emit_groups(e)),
        writable(e),
    ensures
        emit_groups(e).len() >= 1,
        ps[j] == (0i32, entity_type(e)),
        forall|i: int| j + 1 <= i < j + emit_groups(e).len() ==> (#[trigger] ps[i]).0 != 0,
        spec_build_entity(entity_type(e), pairs_from(ps, j + 1, j + emit_groups(e).len()))
            == read_back(e),
        entity_warnings(entity_type(e), pairs_from(ps, j + 1, j + emit_groups(e).len())).len()
            == 0,
        !crate::roundtrip::boundary_word(entity_type(e)),
{
    let g = emit_groups(e);
    lemma_emit_shape(e);
    lemma_holds(ps, j, g);
    assert(ps[j] == g[0]);
    assert forall|i: int| j + 1 <= i < j + g.len() implies (#[trigger] ps[i]).0 != 0 by {
        assert(ps[i] == g[i - j]);
        assert(g.drop_first()[i - j - 1] == g[i - j]);
    }
    lemma_pairs_from_strip(ps, j + 1, j + g.len());
    assert(ps.subrange(j + 1, j + g.len()) =~= g.drop_first()) by {
        assert forall|i: int| 0 <= i < g.len() - 1 implies ps.subrange(j + 1, j + g.len())[i]
            == g.drop_first()[i] by {
            assert(ps[j + 1 + i] == g[i + 1]);
        }
    }
    lemma_entity_round_trip(e, pairs_from(ps, j + 1, j + g.len()));
}

/// The conditions under which the groups of top-level entity `i` are read.
pub open spec fn top_entity_at(
    s: PV,
    ps: Seq<(i32, Seq<char>)>,
    j: int,
    es: Seq<EntityV>,
    i: int,
) -> bool {
    &&& clean(ps)
    &&& holds(ps, j, entities_groups(es) + seq![(0i32, "ENDSEC"@)])
    &&& forall|k: int| #![trigger es[k]] 0 <= k < es.len() ==> writable(es[k])
    &&& 0 <= i < es.len()
    &&& at_pair(s, ps, j + offset(es, i) + 1)
    &&& s.kind == Some(entity_type(es[i]))
    &&& s.groups.len() == 0
}

/// Entity `i` is read up to the next type pair, which starts entity
/// `i + 1`.
proof fn lemma_top_entity_next(s: PV, ps: Seq<(i32, Seq<char>)>, j: int, es: Seq<EntityV>, i: int)
    requires
        top_entity_at(s, ps, j, es, i),
        i + 1 < es.len(),
        s.state == State::AccumulatingEntity,
    ensures
        spec_run(s) == (
            PV {
                kind: Some(entity_type(es[i + 1])),
                ..moved(s, j + offset(es, i + 1) + 1)
            },
            Ok::<Option<EventV>, CadErrorV>(Some(EventV::Entity(read_back(es[i])))),
        ),
{
    lemma_words();
    let eg = entities_groups(es);
    lemma_holds_split(ps, j, eg, seq![(0i32, "ENDSEC"@)]);
    let e = es[i];
    let ji = j + offset(es, i);
    lemma_entity_at(ps, j, es, i);
    lemma_entity_groups_read(ps, ji, e);
    let m = emit_groups(e).len() as int;
    let gi = pairs_from(ps, ji + 1, ji + m);
    lemma_run_groups(s, ps, ji + 1, ji + m);
    assert(s.groups + gi =~= gi);
    let sg = PV { groups: gi, ..moved(s, ji + m) };
    assert(PV { groups: s.groups + gi, ..moved(s, ji + m) } =~= sg);
    let rb = read_back(e);
    let ew = entity_warnings(entity_type(e), gi);
    assert(s.warnings + ew =~= s.warnings);
    let e2 = es[i + 1];
    lemma_entity_at(ps, j, es, i + 1);
    lemma_entity_groups_read(ps, ji + m, e2);
    lemma_run_read(sg, ps, ji + m);
    let s1 = moved(sg, ji + m + 1);
    let p = pair_at(ps, ji + m);
    assert(p.code == 0 && p.value == entity_type(e2));
    let flushed = PV { kind: None, groups: seq![], warnings: s1.warnings + ew, ..s1 };
    assert(crate::parser::spec_flush_top(s1) == (flushed, Some(EventV::Entity(rb))));
    let t2 = PV {
        kind: Some(entity_type(e2)),
        groups: seq![],
        state: State::AccumulatingEntity,
        ..flushed
    };
    assert(spec_step(s1, p) == Step::Emit(t2, EventV::Entity(rb)));
    assert(t2 =~= PV { kind: Some(entity_type(e2)), ..moved(s, ji + m + 1) });
}

/// The last entity is read up to `0/ENDSEC`, which then closes the
/// section.
proof fn lemma_top_entity_last(s: PV, ps: Seq<(i32, Seq<char>)>, j: int, es: Seq<EntityV>, i: int)
    requires
        top_entity_at(s, ps, j, es, i),
        i + 1 == es.len(),
        s.state == State::AccumulatingEntity,
    ensures
        ({
            let n = entities_groups(es).len() as int;
            let sp = PV {
                kind: None,
                pending: Some(pair_at(ps, j + n)),
                ..moved(s, j + n + 1)
            };
            &&& spec_run(s) == (
                sp,
                Ok::<Option<EventV>, CadErrorV>(Some(EventV::Entity(read_back(es[i])))),
            )
            &&& pv_wf(sp)
            &&& spec_run(sp) == (
                PV { kind: None, state: State::Initial, ..moved(s, j + n + 1) },
                Ok::<Option<EventV>, CadErrorV>(Some(EventV::SectionEnd)),
            )
        }),
{
    lemma_words();
    let eg = entities_groups(es);
    let n = eg.len() as int;
    let close = seq![(0i32, "ENDSEC"@)];
    lemma_holds_split(ps, j, eg, close);
    lemma_holds(ps, j + n, close);
    assert(ps[j + n] == close[0]);
    let e = es[i];
    let ji = j + offset(es, i);
    lemma_entity_at(ps, j, es, i);
    lemma_entity_groups_read(ps, ji, e);
    let m = emit_groups(e).len() as int;
    let gi = pairs_from(ps, ji + 1, ji + m);
    lemma_run_groups(s, ps, ji + 1, ji + m);
    assert(s.groups + gi =~= gi);
    let sg = PV { groups: gi, ..moved(s, ji + m) };
    assert(PV { groups: s.groups + gi, ..moved(s, ji + m) } =~= sg);
    let rb = read_back(e);
    let ew = entity_warnings(entity_type(e), gi);
    assert(s.warnings + ew =~= s.warnings);
    lemma_offset_end(es);
    assert(ji + m == j + n);
    lemma_run_read(sg, ps, j + n);
    lemma_render_index(ps);
    let s1 = moved(sg, j + n + 1);
    let p = pair_at(ps, j + n);
    let flushed = PV { kind: None, groups: seq![], warnings: s1.warnings + ew, ..s1 };
    assert(crate::parser::spec_flush_top(s1) == (flushed, Some(EventV::Entity(rb))));
    assert(crate::parser::spec_flush_anything(s1) == (flushed, Some(EventV::Entity(rb))));
    let sp = PV { pending: Some(p), ..flushed };
    assert(spec_step(s1, p) == Step::Emit(sp, EventV::Entity(rb)));
    assert(sp =~= PV { kind: None, pending: Some(p), ..moved(s, j + n + 1) });
    let sq = PV { pending: None, ..sp };
    assert(crate::parser::spec_flush_anything(sq) == (sq, None::<EventV>));
    let fin = PV { state: State::Initial, ..sq };
    assert(spec_step(sq, p) == Step::Emit(fin, EventV::SectionEnd));
    assert(fin =~= PV { kind: None, state: State::Initial, ..moved(s, j + n + 1) });
}

/// Top-level entities from the `i`-th on, whose type pair has been read,
/// up to the end of the ENTITIES section.
proof fn lemma_drive_top_entities(
    s: PV,
    ps: Seq<(i32, Seq<char>)>,
    j: int,
    es: Seq<EntityV>,
    i: int,
    d: DocV,
)
    requires
        top_entity_at(s, ps, j, es, i),
        s.state == State::AccumulatingEntity,
    ensures
        spec_drive(s, d) == spec_drive(
            PV {
                kind: None,
                state: State::Initial,
                ..moved(s, j + entities_groups(es).len() + 1)
            },
            DocV { entities: d.entities + read_back_all(es.skip(i)), ..d },
        ),
    decreases es.len() - i,
{
    let n = entities_groups(es).len() as int;
    let rb = read_back(es[i]);
    let d2 = apply_v(d, EventV::Entity(rb));
    lemma_at_wf(s, ps, j + offset(es, i) + 1);
    if i + 1 < es.len() {
        lemma_top_entity_next(s, ps, j, es, i);
        let t2 = PV { kind: Some(entity_type(es[i + 1])), ..moved(s, j + offset(es, i + 1) + 1) };
        lemma_holds_split(ps, j, entities_groups(es), seq![(0i32, "ENDSEC"@)]);
        lemma_entity_at(ps, j, es, i + 1);
        lemma_drive_event(s, d, t2, EventV::Entity(rb));
        lemma_drive_top_entities(t2, ps, j, es, i + 1, d2);
        assert(es.skip(i).drop_first() =~= es.skip(i + 1));
        assert(read_back_all(es.skip(i)) =~= seq![rb] + read_back_all(es.skip(i + 1)));
        assert(d2.entities + read_back_all(es.skip(i + 1)) =~= d.entities + read_back_all(
            es.skip(i),
        ));
        assert(PV { kind: None, state: State::Initial, ..moved(t2, j + n + 1) } =~= PV {
            kind: None,
            state: State::Initial,
            ..moved(s, j + n + 1)
        });
    } else {
        lemma_top_entity_last(s, ps, j, es, i);
        let sp = PV { kind: None, pending: Some(pair_at(ps, j + n)), ..moved(s, j + n + 1) };
        let fin = PV { kind: None, state: State::Initial, ..moved(s, j + n + 1) };
        lemma_drive_event(s, d, sp, EventV::Entity(rb));
        lemma_drive_event(sp, d2, fin, EventV::SectionEnd);
        assert(es.skip(i) =~= seq![es[i]]);
        assert(read_back_all(es.skip(i)) =~= seq![rb]);
        assert(d2 =~= DocV { entities: d.entities + read_back_all(es.skip(i)), ..d });
    }
}

/// The ENTITIES section: its entities go into the document in order.
proof fn lemma_drive_entities(s: PV, ps: Seq<(i32, Seq<char>)>, j: int, es: Seq<EntityV>, d: DocV)
    requires
        clean(ps),
        at_pair(s, ps, j),
        holds(
            ps,
            j,
            seq![(0i32, "SECTION"@), (2i32, "ENTITIES"@)] + entities_groups(es) + seq![
                (0i32, "ENDSEC"@),
            ],
        ),
        forall|k: int| #![trigger es[k]] 0 <= k < es.len() ==> writable(es[k]),
        idle(s),
        s.state != State::Done,
    ensures
        spec_drive(s, d) == spec_drive(
            PV { state: State::Initial, ..moved(s, j + 3 + entities_groups(es).len()) },
            DocV { entities: d.entities + read_back_all(es), ..d },
        ),
{
    lemma_words();
    let open = seq![(0i32, "SECTION"@), (2i32, "ENTITIES"@)];
    let eg = entities_groups(es);
    let n = eg.len() as int;
    let close = seq![(0i32, "ENDSEC"@)];
    assert(open + eg + close =~= open + (eg + close));
    lemma_holds_split(ps, j, open, eg + close);
    lemma_holds(ps, j, open);
    assert(ps[j] == open[0]);
    assert(ps[j + 1] == open[1]);
    lemma_run_open_section(s, ps, j);
    let s1 = PV { state: State::InSection(SectionKind::Entities), ..moved(s, j + 2) };
    lemma_at_wf(s, ps, j);
    lemma_drive_event(s, d, s1, EventV::SectionStart(SectionKind::Entities));
    assert(apply_v(d, EventV::SectionStart(SectionKind::Entities)) == d);
    lemma_holds_split(ps, j + 2, eg, close);
    lemma_at_wf(s1, ps, j + 2);
    if es.len() == 0 {
        assert(eg.len() == 0);
        lemma_holds(ps, j + 2, close);
        assert(ps[j + 2] == close[0]);
        lemma_run_end_section(s1, ps, j + 2);
        let fin = PV { state: State::Initial, ..moved(s1, j + 3) };
        lemma_drive_event(s1, d, fin, EventV::SectionEnd);
        assert(fin =~= PV { state: State::Initial, ..moved(s, j + 3 + n) });
        assert(read_back_all(es) =~= Seq::<EntityV>::empty());
        assert(d =~= DocV { entities: d.entities + read_back_all(es), ..d });
    } else {
        lemma_offset_end(es);
        lemma_holds_split(ps, j + 2, eg, close);
        lemma_entity_at(ps, j + 2, es, 0);
        lemma_entity_groups_read(ps, j + 2, es[0]);
        lemma_run_read(s1, ps, j + 2);
        let s1b = moved(s1, j + 3);
        let p = pair_at(ps, j + 2);
        assert(crate::parser::spec_flush_top(s1b) == (s1b, None::<EventV>));
        let t0 = PV {
            kind: Some(entity_type(es[0])),
            groups: seq![],
            state: State::AccumulatingEntity,
            ..s1b
        };
        assert(spec_step(s1b, p) == Step::Continue(t0));
        lemma_render_index(ps);
        lemma_drive_same(s1, t0, d);
        lemma_drive_top_entities(t0, ps, j + 2, es, 0, d);
        assert(es.skip(0) =~= es);
        assert(PV { kind: None, state: State::Initial, ..moved(t0, j + 2 + n + 1) } =~= PV {
            state: State::Initial,
            ..moved(s, j + 3 + n)
        });
    }
}

/// The conditions under which the groups of entity `i` of a block are
/// read, the block so far holding the entities before it.
pub open spec fn block_entity_at(
    s: PV,
    ps: Seq<(i32, Seq<char>)>,
    j: int,
    es: Seq<EntityV>,
    i: int,
    hb: BlockV,
) -> bool {
    &&& clean(ps)
    &&& holds(ps, j, entities_groups(es) + seq![(0i32, "ENDBLK"@)])
    &&& forall|k: int| #![trigger es[k]] 0 <= k < es.len() ==> writable(es[k])
    &&& 0 <= i < es.len()
    &&& at_pair(s, ps, j + offset(es, i) + 1)
    &&& s.kind == Some(entity_type(es[i]))
    &&& s.groups.len() == 0
    &&& s.state == State::InBlockEntity
    &&& s.block == Some(BlockV { entities: read_back_all(es.take(i)), ..hb })
}

proof fn lemma_block_entity_next(
    s: PV,
    ps: Seq<(i32, Seq<char>)>,
    j: int,
    es: Seq<EntityV>,
    i: int,
    hb: BlockV,
)
    requires
        block_entity_at(s, ps, j, es, i, hb),
        i + 1 < es.len(),
    ensures
        spec_run(s) == (
            PV {
                kind: Some(entity_type(es[i + 1])),
                block: Some(BlockV { entities: read_back_all(es.take(i + 1)), ..hb }),
                ..moved(s, j + offset(es, i + 1) + 1)
            },
            Ok::<Option<EventV>, CadErrorV>(Some(EventV::EntityInBlock(read_back(es[i])))),
        ),
{
    lemma_words();
    let eg = entities_groups(es);
    lemma_holds_split(ps, j, eg, seq![(0i32, "ENDBLK"@)]);
    let e = es[i];
    let ji = j + offset(es, i);
    lemma_entity_at(ps, j, es, i);
    lemma_entity_groups_read(ps, ji, e);
    let m = emit_groups(e).len() as int;
    let gi = pairs_from(ps, ji + 1, ji + m);
    lemma_run_groups(s, ps, ji + 1, ji + m);
    assert(s.groups + gi =~= gi);
    let sg = PV { groups: gi, ..moved(s, ji + m) };
    assert(PV { groups: s.groups + gi, ..moved(s, ji + m) } =~= sg);
    let rb = read_back(e);
    let ew = entity_warnings(entity_type(e), gi);
    assert(s.warnings + ew =~= s.warnings);
    let e2 = es[i + 1];
    lemma_entity_at(ps, j, es, i + 1);
    lemma_entity_groups_read(ps, ji + m, e2);
    lemma_run_read(sg, ps, ji + m);
    let s1 = moved(sg, ji + m + 1);
    let p = pair_at(ps, ji + m);
    assert(p.code == 0 && p.value == entity_type(e2));
    let b0 = BlockV { entities: read_back_all(es.take(i)), ..hb };
    let b1 = BlockV { entities: b0.entities.push(rb), ..b0 };
    assert(es.take(i + 1) =~= es.take(i).push(e));
    assert(read_back_all(es.take(i + 1)) =~= read_back_all(es.take(i)).push(rb));
    assert(b1 =~= BlockV { entities: read_back_all(es.take(i + 1)), ..hb });
    let flushed = PV {
        kind: None,
        groups: seq![],
        warnings: s1.warnings + ew,
        block: Some(b1),
        ..s1
    };
    assert(crate::parser::spec_flush_block_entity(s1) == (
        flushed,
        Some(EventV::EntityInBlock(rb)),
    ));
    let t2 = PV { kind: Some(entity_type(e2)), groups: seq![], ..flushed };
    assert(spec_step(s1, p) == Step::Emit(t2, EventV::EntityInBlock(rb)));
    assert(t2 =~= PV {
        kind: Some(entity_type(e2)),
        block: Some(BlockV { entities: read_back_all(es.take(i + 1)), ..hb }),
        ..moved(s, ji + m + 1)
    });
}

proof fn lemma_block_entity_last(
    s: PV,
    ps: Seq<(i32, Seq<char>)>,
    j: int,
    es: Seq<EntityV>,
    i: int,
    hb: BlockV,
)
    requires
        block_entity_at(s, ps, j, es, i, hb),
        i + 1 == es.len(),
    ensures
        ({
            let n = entities_groups(es).len() as int;
            let full = BlockV { entities: read_back_all(es), ..hb };
            let sp = PV {
                kind: None,
                pending: Some(pair_at(ps, j + n)),
                block: Some(full),
                ..moved(s, j + n + 1)
            };
            &&& spec_run(s) == (
                sp,
                Ok::<Option<EventV>, CadErrorV>(Some(EventV::EntityInBlock(read_back(es[i])))),
            )
            &&& pv_wf(sp)
            &&& spec_run(sp) == (
                PV {
                    kind: None,
                    block: None,
                    state: State::InSection(SectionKind::Blocks),
                    ..moved(s, j + n + 1)
                },
                Ok::<Option<EventV>, CadErrorV>(Some(EventV::BlockDefinitionEnd(full))),
            )
        }),
{
    lemma_words();
    let eg = entities_groups(es);
    let n = eg.len() as int;
    let close = seq![(0i32, "ENDBLK"@)];
    lemma_holds_split(ps, j, eg, close);
    lemma_holds(ps, j + n, close);
    assert(ps[j + n] == close[0]);
    let e = es[i];
    let ji = j + offset(es, i);
    lemma_entity_at(ps, j, es, i);
    lemma_entity_groups_read(ps, ji, e);
    let m = emit_groups(e).len() as int;
    let gi = pairs_from(ps, ji + 1, ji + m);
    lemma_run_groups(s, ps, ji + 1, ji + m);
    assert(s.groups + gi =~= gi);
    let sg = PV { groups: gi, ..moved(s, ji + m) };
    assert(PV { groups: s.groups + gi, ..moved(s, ji + m) } =~= sg);
    let rb = read_back(e);
    let ew = entity_warnings(entity_type(e), gi);
    assert(s.warnings + ew =~= s.warnings);
    lemma_offset_end(es);
    assert(ji + m == j + n);
    lemma_run_read(sg, ps, j + n);
    lemma_render_index(ps);
    let s1 = moved(sg, j + n + 1);
    let p = pair_at(ps, j + n);
    let b0 = BlockV { entities: read_back_all(es.take(i)), ..hb };
    let full = BlockV { entities: read_back_all(es), ..hb };
    assert(es =~= es.take(i).push(e));
    assert(read_back_all(es) =~= read_back_all(es.take(i)).push(rb));
    assert(BlockV { entities: b0.entities.push(rb), ..b0 } =~= full);
    let flushed = PV {
        kind: None,
        groups: seq![],
        warnings: s1.warnings + ew,
        block: Some(full),
        ..s1
    };
    assert(crate::parser::spec_flush_block_entity(s1) == (
        flushed,
        Some(EventV::EntityInBlock(rb)),
    ));
    let sp = PV { pending: Some(p), ..flushed };
    assert(spec_step(s1, p) == Step::Emit(sp, EventV::EntityInBlock(rb)));
    assert(sp =~= PV { kind: None, pending: Some(p), block: Some(full), ..moved(s, j + n + 1) });
    let sq = PV { pending: None, ..sp };
    assert(crate::parser::spec_flush_block_entity(sq) == (sq, None::<EventV>));
    assert(crate::parser::spec_close_block(sq) == (
        PV { block: None, state: State::InSection(SectionKind::Blocks), ..sq },
        Some(EventV::BlockDefinitionEnd(full)),
    ));
    let fin = PV { block: None, state: State::InSection(SectionKind::Blocks), ..sq };
    assert(spec_step(sq, p) == Step::Emit(fin, EventV::BlockDefinitionEnd(full)));
    assert(fin =~= PV {
        kind: None,
        block: None,
        state: State::InSection(SectionKind::Blocks),
        ..moved(s, j + n + 1)
    });
}

/// The entities of a block from the `i`-th on, up to the end of the
/// block, which then goes into the document.
proof fn lemma_drive_block_entities(
    s: PV,
    ps: Seq<(i32, Seq<char>)>,
    j: int,
    es: Seq<EntityV>,
    i: int,
    hb: BlockV,
    d: DocV,
)
    requires
        block_entity_at(s, ps, j, es, i, hb),
    ensures
        spec_drive(s, d) == spec_drive(
            PV {
                kind: None,
                block: None,
                state: State::InSection(SectionKind::Blocks),
                ..moved(s, j + entities_groups(es).len() + 1)
            },
            DocV { blocks: d.blocks.push(BlockV { entities: read_back_all(es), ..hb }), ..d },
        ),
    decreases es.len() - i,
{
    let n = entities_groups(es).len() as int;
    let rb = read_back(es[i]);
    lemma_at_wf(s, ps, j + offset(es, i) + 1);
    assert(apply_v(d, EventV::EntityInBlock(rb)) == d);
    if i + 1 < es.len() {
        lemma_block_entity_next(s, ps, j, es, i, hb);
        let t2 = PV {
            kind: Some(entity_type(es[i + 1])),
            block: Some(BlockV { entities: read_back_all(es.take(i + 1)), ..hb }),
            ..moved(s, j + offset(es, i + 1) + 1)
        };
        lemma_holds_split(ps, j, entities_groups(es), seq![(0i32, "ENDBLK"@)]);
        lemma_entity_at(ps, j, es, i + 1);
        lemma_drive_event(s, d, t2, EventV::EntityInBlock(rb));
        lemma_drive_block_entities(t2, ps, j, es, i + 1, hb, d);
        assert(PV {
            kind: None,
            block: None,
            state: State::InSection(SectionKind::Blocks),
            ..moved(t2, j + n + 1)
        } =~= PV {
            kind: None,
            block: None,
            state: State::InSection(SectionKind::Blocks),
            ..moved(s, j + n + 1)
        });
    } else {
        lemma_block_entity_last(s, ps, j, es, i, hb);
        let full = BlockV { entities: read_back_all(es), ..hb };
        let sp = PV {
            kind: None,
            pending: Some(pair_at(ps, j + n)),
            block: Some(full),
            ..moved(s, j + n + 1)
        };
        let fin = PV {
            kind: None,
            block: None,
            state: State::InSection(SectionKind::Blocks),
            ..moved(s, j + n + 1)
        };
        lemma_drive_event(s, d, sp, EventV::EntityInBlock(rb));
        lemma_drive_event(sp, d, fin, EventV::BlockDefinitionEnd(full));
    }
}

/// Nothing is being read and no block is being assembled.
pub open spec fn quiet(s: PV) -> bool {
    &&& idle(s)
    &&& s.block is None
    &&& s.header_groups.len() == 0
}

/// The parts of a block's groups: `0/BLOCK`, the header groups, the
/// entities, `0/ENDBLK` and the layer group after it.
proof fn lemma_block_parts(ps: Seq<(i32, Seq<char>)>, jb: int, b: BlockV)
    requires
        holds(ps, jb, block_groups(b)),
    ensures
        ps[jb] == (0i32, "BLOCK"@),
        forall|i: int| jb + 1 <= i < jb + 9 ==> (#[trigger] ps[i]).0 != 0,
        ps.subrange(jb + 1, jb + 9) == block_head_groups(b),
        holds(ps, jb + 9, entities_groups(b.entities) + seq![(0i32, "ENDBLK"@)]),
        ps[jb + 9 + entities_groups(b.entities).len()] == (0i32, "ENDBLK"@),
        ps[jb + 10 + entities_groups(b.entities).len()] == (8i32, b.layer),
        block_groups(b).len() == 11 + entities_groups(b.entities).len(),
{
    let head = block_head_groups(b);
    let eg = entities_groups(b.entities);
    let n = eg.len() as int;
    let open = seq![(0i32, "BLOCK"@)];
    let close = seq![(0i32, "ENDBLK"@)];
    let lay = seq![(8i32, b.layer)];
    assert(block_groups(b) =~= (open + head) + ((eg + close) + lay));
    lemma_holds_split(ps, jb, open + head, (eg + close) + lay);
    lemma_holds_split(ps, jb, open, head);
    lemma_holds_split(ps, jb + 9, eg + close, lay);
    lemma_holds_split(ps, jb + 9, eg, close);
    lemma_holds(ps, jb, open);
    lemma_holds(ps, jb + 1, head);
    lemma_holds(ps, jb + 9 + n, close);
    lemma_holds(ps, jb + 10 + n, lay);
    assert(ps[jb] == open[0]);
    assert(ps[jb + 9 + n] == close[0]);
    assert(ps[jb + 10 + n] == lay[0]);
    assert forall|i: int| jb + 1 <= i < jb + 9 implies (#[trigger] ps[i]).0 != 0 by {
        assert(ps[i] == head[i - jb - 1]);
    }
    assert(ps.subrange(jb + 1, jb + 9) =~= head);
}

/// `0/BLOCK` and the header groups are read.
proof fn lemma_block_read_header(s: PV, ps: Seq<(i32, Seq<char>)>, jb: int, b: BlockV)
    requires
        clean(ps),
        at_pair(s, ps, jb),
        holds(ps, jb, block_groups(b)),
        block_ok(b),
        s.state == State::InSection(SectionKind::Blocks),
    ensures
        spec_run(s) == spec_run(
            PV {
                header_groups: pairs_from(ps, jb + 1, jb + 9),
                state: State::InBlockHeader,
                ..moved(s, jb + 9)
            },
        ),
        crate::parser::spec_block_header(pairs_from(ps, jb + 1, jb + 9)) == (BlockV {
            entities: seq![],
            ..block_back(b)
        }),
        warnings_of(Recipe::Block, pairs_from(ps, jb + 1, jb + 9)).len() == 0,
{
    lemma_words();
    lemma_block_parts(ps, jb, b);
    lemma_run_read(s, ps, jb);
    let s1 = moved(s, jb + 1);
    let sb = PV { header_groups: seq![], state: State::InBlockHeader, ..s1 };
    assert(spec_step(s1, pair_at(ps, jb)) == Step::Continue(sb));
    lemma_run_header_groups(sb, ps, jb + 1, jb + 9);
    let hgp = pairs_from(ps, jb + 1, jb + 9);
    assert(sb.header_groups + hgp =~= hgp);
    assert(PV { header_groups: sb.header_groups + hgp, ..moved(sb, jb + 9) } =~= PV {
        header_groups: hgp,
        state: State::InBlockHeader,
        ..moved(s, jb + 9)
    });
    lemma_pairs_from_strip(ps, jb + 1, jb + 9);
    crate::roundtrip::lemma_block_header_back(b, hgp);
}

/// A block without entities goes into the document at `0/ENDBLK`.
proof fn lemma_drive_block_empty(s: PV, ps: Seq<(i32, Seq<char>)>, jb: int, b: BlockV, d: DocV)
    requires
        clean(ps),
        at_pair(s, ps, jb),
        holds(ps, jb, block_groups(b)),
        block_ok(b),
        b.entities.len() == 0,
        quiet(s),
        s.state == State::InSection(SectionKind::Blocks),
    ensures
        spec_drive(s, d) == spec_drive(
            moved(s, jb + block_groups(b).len()),
            DocV { blocks: d.blocks.push(block_back(b)), ..d },
        ),
{
    lemma_words();
    lemma_block_parts(ps, jb, b);
    lemma_block_read_header(s, ps, jb, b);
    lemma_render_index(ps);
    let hgp = pairs_from(ps, jb + 1, jb + 9);
    let sh = PV { header_groups: hgp, state: State::InBlockHeader, ..moved(s, jb + 9) };
    let hb = BlockV { entities: seq![], ..block_back(b) };
    let hw = warnings_of(Recipe::Block, hgp);
    assert(s.warnings + hw =~= s.warnings);
    assert(entities_groups(b.entities).len() == 0);
    lemma_run_read(sh, ps, jb + 9);
    let s2 = moved(sh, jb + 10);
    let sf = PV { header_groups: seq![], block: Some(hb), warnings: s2.warnings + hw, ..s2 };
    assert(crate::parser::spec_finalize_block_header(s2) == sf);
    assert(hb =~= block_back(b));
    let endp = pair_at(ps, jb + 9);
    let sp = PV { state: State::InBlockEntity, pending: Some(endp), ..sf };
    let start = EventV::BlockDefinitionStart { name: hb.name, base_point: hb.base_point };
    assert(spec_step(s2, endp) == Step::Emit(sp, start));
    lemma_at_wf(s, ps, jb);
    lemma_drive_event(s, d, sp, start);
    assert(apply_v(d, start) == d);
    let s1 = PV { pending: None, ..sp };
    assert(crate::parser::spec_flush_block_entity(s1) == (s1, None::<EventV>));
    let se = PV { block: None, state: State::InSection(SectionKind::Blocks), ..s1 };
    assert(crate::parser::spec_close_block(s1) == (se, Some(EventV::BlockDefinitionEnd(hb))));
    assert(spec_step(s1, endp) == Step::Emit(se, EventV::BlockDefinitionEnd(hb)));
    assert(spec_run(sp) == (se, Ok::<Option<EventV>, CadErrorV>(Some(EventV::BlockDefinitionEnd(hb)))));
    assert(se =~= moved(s, jb + 10));
    lemma_at_wf(se, ps, jb + 10);
    lemma_drive_event(sp, d, se, EventV::BlockDefinitionEnd(hb));
    assert(!stops(se.state, ps[jb + 10]));
    lemma_run_skip(se, ps, jb + 10, jb + 11);
    lemma_at_wf(se, ps, jb + 10);
    lemma_at_wf(moved(se, jb + 11), ps, jb + 11);
    lemma_drive_same(se, moved(se, jb + 11), apply_v(d, EventV::BlockDefinitionEnd(hb)));
    assert(moved(se, jb + 11) =~= moved(s, jb + block_groups(b).len()));
}

/// A block with entities: its first type pair ends the header, its
/// entities are read, and the block goes into the document at
/// `0/ENDBLK`.
proof fn lemma_drive_block_full(s: PV, ps: Seq<(i32, Seq<char>)>, jb: int, b: BlockV, d: DocV)
    requires
        clean(ps),
        at_pair(s, ps, jb),
        holds(ps, jb, block_groups(b)),
        block_ok(b),
        b.entities.len() > 0,
        quiet(s),
        s.state == State::InSection(SectionKind::Blocks),
    ensures
        spec_drive(s, d) == spec_drive(
            moved(s, jb + block_groups(b).len()),
            DocV { blocks: d.blocks.push(block_back(b)), ..d },
        ),
{
    lemma_words();
    lemma_block_parts(ps, jb, b);
    lemma_block_read_header(s, ps, jb, b);
    lemma_render_index(ps);
    let es = b.entities;
    let eg = entities_groups(es);
    let n = eg.len() as int;
    let hgp = pairs_from(ps, jb + 1, jb + 9);
    let sh = PV { header_groups: hgp, state: State::InBlockHeader, ..moved(s, jb + 9) };
    let hb = BlockV { entities: seq![], ..block_back(b) };
    let hw = warnings_of(Recipe::Block, hgp);
    assert(s.warnings + hw =~= s.warnings);
    lemma_holds_split(ps, jb + 9, eg, seq![(0i32, "ENDBLK"@)]);
    lemma_entity_at(ps, jb + 9, es, 0);
    lemma_offset_end(es);
    lemma_entity_groups_read(ps, jb + 9, es[0]);
    lemma_run_read(sh, ps, jb + 9);
    let s2 = moved(sh, jb + 10);
    let sf = PV { header_groups: seq![], block: Some(hb), warnings: s2.warnings + hw, ..s2 };
    assert(crate::parser::spec_finalize_block_header(s2) == sf);
    let s3 = PV {
        kind: Some(entity_type(es[0])),
        groups: seq![],
        state: State::InBlockEntity,
        ..sf
    };
    let start = EventV::BlockDefinitionStart { name: hb.name, base_point: hb.base_point };
    assert(spec_step(s2, pair_at(ps, jb + 9)) == Step::Emit(s3, start));
    lemma_at_wf(s, ps, jb);
    lemma_drive_event(s, d, s3, start);
    assert(apply_v(d, start) == d);
    assert(es.take(0) =~= Seq::<EntityV>::empty());
    assert(read_back_all(es.take(0)) =~= Seq::<EntityV>::empty());
    assert(BlockV { entities: read_back_all(es.take(0)), ..hb } =~= hb);
    lemma_drive_block_entities(s3, ps, jb + 9, es, 0, hb, d);
    let fin = PV {
        kind: None,
        block: None,
        state: State::InSection(SectionKind::Blocks),
        ..moved(s3, jb + 9 + n + 1)
    };
    assert(BlockV { entities: read_back_all(es), ..hb } =~= block_back(b));
    let d2 = DocV { blocks: d.blocks.push(block_back(b)), ..d };
    assert(fin =~= moved(s, jb + 10 + n));
    assert(!stops(fin.state, ps[jb + 10 + n]));
    lemma_run_skip(fin, ps, jb + 10 + n, jb + 11 + n);
    lemma_at_wf(fin, ps, jb + 10 + n);
    lemma_at_wf(moved(fin, jb + 11 + n), ps, jb + 11 + n);
    lemma_drive_same(fin, moved(fin, jb + 11 + n), d2);
    assert(moved(fin, jb + 11 + n) =~= moved(s, jb + block_groups(b).len()));
}

/// One block definition of the BLOCKS section goes into the document.
proof fn lemma_drive_block(s: PV, ps: Seq<(i32, Seq<char>)>, jb: int, b: BlockV, d: DocV)
    requires
        clean(ps),
        at_pair(s, ps, jb),
        holds(ps, jb, block_groups(b)),
        block_ok(b),
        quiet(s),
        s.state == State::InSection(SectionKind::Blocks),
    ensures
        spec_drive(s, d) == spec_drive(
            moved(s, jb + block_groups(b).len()),
            DocV { blocks: d.blocks.push(block_back(b)), ..d },
        ),
{
    if b.entities.len() == 0 {
        lemma_drive_block_empty(s, ps, jb, b, d);
    } else {
        lemma_drive_block_full(s, ps, jb, b, d);
    }
}

proof fn lemma_blocks_groups_append(a: Seq<BlockV>, b: Seq<BlockV>)
    ensures
        blocks_groups(a + b) == blocks_groups(a) + blocks_groups(b),
    decreases b.len(),
{
    if b.len() == 0 {
        assert(a + b =~= a);
        assert(blocks_groups(a) + blocks_groups(b) =~= blocks_groups(a));
    } else {
        assert((a + b).drop_last() =~= a + b.drop_last());
        lemma_blocks_groups_append(a, b.drop_last());
        assert(blocks_groups(a + b) =~= blocks_groups(a) + blocks_groups(b));
    }
}

/// Where the groups of block `i` start among those of `bs`.
pub open spec fn block_offset(bs: Seq<BlockV>, i: int) -> int {
    blocks_groups(bs.take(i)).len() as int
}

proof fn lemma_block_at(ps: Seq<(i32, Seq<char>)>, j: int, bs: Seq<BlockV>, i: int)
    requires
        holds(ps, j, blocks_groups(bs)),
        0 <= i < bs.len(),
    ensures
        holds(ps, j + block_offset(bs, i), block_groups(bs[i])),
        block_offset(bs, i + 1) == block_offset(bs, i) + block_groups(bs[i]).len(),
{
    let a = bs.take(i);
    let t = bs.take(i + 1);
    let r = bs.skip(i + 1);
    assert(bs =~= t + r);
    assert(t.drop_last() =~= a);
    assert(t.last() == bs[i]);
    lemma_blocks_groups_append(t, r);
    assert(blocks_groups(t) =~= blocks_groups(a) + block_groups(bs[i]));
    lemma_holds_split(ps, j, blocks_groups(t), blocks_groups(r));
    lemma_holds_split(ps, j, blocks_groups(a), block_groups(bs[i]));
}

pub open spec fn blocks_back(bs: Seq<BlockV>) -> Seq<BlockV> {
    bs.map_values(|b: BlockV| block_back(b))
}

/// The blocks from the `i`-th on go into the document in order.
proof fn lemma_drive_blocks(
    s: PV,
    ps: Seq<(i32, Seq<char>)>,
    j: int,
    bs: Seq<BlockV>,
    i: int,
    d: DocV,
)
    requires
        clean(ps),
        holds(ps, j, blocks_groups(bs)),
        forall|k: int| #![trigger bs[k]] 0 <= k < bs.len() ==> block_ok(bs[k]),
        0 <= i <= bs.len(),
        at_pair(s, ps, j + block_offset(bs, i)),
        quiet(s),
        s.state == State::InSection(SectionKind::Blocks),
    ensures
        spec_drive(s, d) == spec_drive(
            moved(s, j + blocks_groups(bs).len()),
            DocV { blocks: d.blocks + blocks_back(bs.skip(i)), ..d },
        ),
    decreases bs.len() - i,
{
    if i == bs.len() {
        assert(bs.take(i) =~= bs);
        assert(moved(s, j + blocks_groups(bs).len()) =~= s);
        assert(bs.skip(i) =~= Seq::<BlockV>::empty());
        assert(d.blocks + blocks_back(bs.skip(i)) =~= d.blocks);
        assert(DocV { blocks: d.blocks + blocks_back(bs.skip(i)), ..d } =~= d);
    } else {
        lemma_block_at(ps, j, bs, i);
        lemma_drive_block(s, ps, j + block_offset(bs, i), bs[i], d);
        let s2 = moved(s, j + block_offset(bs, i + 1));
        let d2 = DocV { blocks: d.blocks.push(block_back(bs[i])), ..d };
        lemma_drive_blocks(s2, ps, j, bs, i + 1, d2);
        assert(moved(s2, j + blocks_groups(bs).len()) =~= moved(s, j + blocks_groups(bs).len()));
        assert(bs.skip(i).drop_first() =~= bs.skip(i + 1));
        assert(blocks_back(bs.skip(i)) =~= seq![block_back(bs[i])] + blocks_back(bs.skip(i + 1)));
        assert(d2.blocks + blocks_back(bs.skip(i + 1)) =~= d.blocks + blocks_back(bs.skip(i)));
        assert(DocV { blocks: d2.blocks + blocks_back(bs.skip(i + 1)), ..d2 } =~= DocV {
            blocks: d.blocks + blocks_back(bs.skip(i)),
            ..d
        });
    }
}

/// A built-in block: empty, on layer 0, at the origin.
pub open spec fn builtin_block(name: Seq<char>) -> BlockV {
    BlockV {
        name,
        layer: "0"@,
        base_point: PointV { x: "0.000"@, y: "0.000"@, z: "0.000"@ },
        flags: 0,
        entities: seq![],
        props: crate::roundtrip::block_props_back(name),
    }
}

proof fn lemma_builtin_block(name: Seq<char>)
    requires
        stable(name),
    ensures
        builtin_block_groups(name) == block_groups(builtin_block(name)),
        block_ok(builtin_block(name)),
        block_back(builtin_block(name)) == builtin_block(name),
{
    crate::roundtrip::lemma_zero_coordinate();
    crate::roundtrip::lemma_words_stable();
    let b = builtin_block(name);
    assert(entities_groups(b.entities) =~= Seq::<(i32, Seq<char>)>::empty());
    assert(builtin_block_groups(name) =~= block_groups(b));
    assert(b.entities.map_values(|e: EntityV| read_back(e)) =~= b.entities);
    assert(block_back(b) =~= b);
}

/// The BLOCKS section: the two built-in blocks, then each block, go into
/// the document in order.
proof fn lemma_drive_blocks_section(
    s: PV,
    ps: Seq<(i32, Seq<char>)>,
    j: int,
    bs: Seq<BlockV>,
    d: DocV,
)
    requires
        clean(ps),
        at_pair(s, ps, j),
        holds(ps, j, blocks_section(bs)),
        forall|k: int| #![trigger bs[k]] 0 <= k < bs.len() ==> block_ok(bs[k]),
        quiet(s),
        s.state != State::Done,
    ensures
        spec_drive(s, d) == spec_drive(
            PV { state: State::Initial, ..moved(s, j + blocks_section(bs).len()) },
            DocV {
                blocks: d.blocks + seq![
                    builtin_block("*Model_Space"@),
                    builtin_block("*Paper_Space"@),
                ] + blocks_back(bs),
                ..d
            },
        ),
{
    lemma_words();
    crate::roundtrip::lemma_words_stable();
    let m = "*Model_Space"@;
    let pp = "*Paper_Space"@;
    lemma_builtin_block(m);
    lemma_builtin_block(pp);
    let open = seq![(0i32, "SECTION"@), (2i32, "BLOCKS"@)];
    let gm = block_groups(builtin_block(m));
    let gp = block_groups(builtin_block(pp));
    let bg = blocks_groups(bs);
    let close = seq![(0i32, "ENDSEC"@)];
    assert(blocks_section(bs) =~= open + gm + gp + bg + close);
    lemma_holds_split(ps, j, open + gm + gp + bg, close);
    lemma_holds_split(ps, j, open + gm + gp, bg);
    lemma_holds_split(ps, j, open + gm, gp);
    lemma_holds_split(ps, j, open, gm);
    lemma_holds(ps, j, open);
    assert(ps[j] == open[0]);
    assert(ps[j + 1] == open[1]);
    lemma_run_open_section(s, ps, j);
    let s1 = PV { state: State::InSection(SectionKind::Blocks), ..moved(s, j + 2) };
    lemma_at_wf(s, ps, j);
    lemma_drive_event(s, d, s1, EventV::SectionStart(SectionKind::Blocks));
    assert(apply_v(d, EventV::SectionStart(SectionKind::Blocks)) == d);
    let jm = j + 2;
    let jp = jm + gm.len();
    let jb = jp + gp.len();
    let je = jb + bg.len();
    lemma_drive_block(s1, ps, jm, builtin_block(m), d);
    let d1 = DocV { blocks: d.blocks.push(builtin_block(m)), ..d };
    let s2 = moved(s1, jp);
    lemma_drive_block(s2, ps, jp, builtin_block(pp), d1);
    let d2 = DocV { blocks: d1.blocks.push(builtin_block(pp)), ..d1 };
    let s3 = moved(s2, jb);
    assert(bs.take(0) =~= Seq::<BlockV>::empty());
    assert(block_offset(bs, 0) == 0);
    lemma_drive_blocks(s3, ps, jb, bs, 0, d2);
    assert(bs.skip(0) =~= bs);
    let s4 = moved(s3, je);
    lemma_holds(ps, je, close);
    assert(ps[je] == close[0]);
    lemma_run_end_section(s4, ps, je);
    let fin = PV { state: State::Initial, ..moved(s4, je + 1) };
    lemma_at_wf(s4, ps, je);
    let d3 = DocV { blocks: d2.blocks + blocks_back(bs), ..d2 };
    lemma_drive_event(s4, d3, fin, EventV::SectionEnd);
    assert(fin =~= PV { state: State::Initial, ..moved(s, j + blocks_section(bs).len()) });
    assert(d3 =~= DocV {
        blocks: d.blocks + seq![builtin_block(m), builtin_block(pp)] + blocks_back(bs),
        ..d
    });
}

proof fn lemma_clean_append(a: Seq<(i32, Seq<char>)>, b: Seq<(i32, Seq<char>)>)
    requires
        clean(a),
        clean(b),
    ensures
        clean(a + b),
{
    assert forall|k: int| #![trigger (a + b)[k]] 0 <= k < (a + b).len() implies stable(
        (a + b)[k].1,
    ) by {
        if k < a.len() {
            assert((a + b)[k] == a[k]);
        } else {
            assert((a + b)[k] == b[k - a.len()]);
        }
    }
}

proof fn lemma_entities_clean(es: Seq<EntityV>)
    requires
        forall|k: int| #![trigger es[k]] 0 <= k < es.len() ==> writable(es[k]),
    ensures
        clean(entities_groups(es)),
    decreases es.len(),
{
    if es.len() > 0 {
        let init = es.drop_last();
        assert forall|k: int| #![trigger init[k]] 0 <= k < init.len() implies writable(init[k]) by {
            assert(init[k] == es[k]);
        }
        lemma_entities_clean(init);
        let e = es.last();
        assert(writable(e));
        lemma_emit_shape(e);
        let g = emit_groups(e);
        assert forall|k: int| #![trigger g[k]] 0 <= k < g.len() implies stable(g[k].1) by {
            if k > 0 {
                assert(g.drop_first()[k - 1] == g[k]);
            }
        }
        lemma_clean_append(entities_groups(init), g);
    }
}

proof fn lemma_blocks_clean(bs: Seq<BlockV>)
    requires
        forall|k: int| #![trigger bs[k]] 0 <= k < bs.len() ==> block_ok(bs[k]),
    ensures
        clean(blocks_groups(bs)),
    decreases bs.len(),
{
    crate::roundtrip::lemma_words_stable();
    if bs.len() > 0 {
        let init = bs.drop_last();
        assert forall|k: int| #![trigger init[k]] 0 <= k < init.len() implies block_ok(init[k]) by {
            assert(init[k] == bs[k]);
        }
        lemma_blocks_clean(init);
        let b = bs.last();
        assert(block_ok(b));
        lemma_code_text(b.flags as int);
        let head = block_head_groups(b);
        assert(clean(head));
        let open = seq![(0i32, "BLOCK"@)];
        let tail = seq![(0i32, "ENDBLK"@), (8i32, b.layer)];
        assert(clean(open));
        assert(clean(tail));
        lemma_entities_clean(b.entities);
        assert(block_groups(b) =~= open + head + entities_groups(b.entities) + tail);
        lemma_clean_append(open, head);
        lemma_clean_append(open + head, entities_groups(b.entities));
        lemma_clean_append(open + head + entities_groups(b.entities), tail);
        lemma_clean_append(blocks_groups(init), block_groups(b));
    }
}

proof fn lemma_layers_clean(ls: Seq<crate::writer::LayerV>)
    requires
        forall|k: int|
            #![trigger ls[k]]
            0 <= k < ls.len() ==> stable(ls[k].name) && stable(ls[k].linetype),
    ensures
        clean(layers_groups(ls)),
    decreases ls.len(),
{
    crate::roundtrip::lemma_words_stable();
    if ls.len() > 0 {
        let init = ls.drop_last();
        assert forall|k: int| #![trigger init[k]] 0 <= k < init.len() implies stable(init[k].name)
            && stable(init[k].linetype) by {
            assert(init[k] == ls[k]);
        }
        lemma_layers_clean(init);
        let l = ls.last();
        assert(stable(l.name) && stable(l.linetype));
        lemma_code_text(l.flags as int);
        lemma_code_text(l.color as int);
        assert(clean(crate::writer::layer_groups(l)));
        lemma_clean_append(layers_groups(init), crate::writer::layer_groups(l));
        assert(layers_groups(ls) =~= layers_groups(init) + crate::writer::layer_groups(l));
    }
}

proof fn lemma_records_clean(names: Seq<Seq<char>>)
    requires
        forall|k: int| #![trigger names[k]] 0 <= k < names.len() ==> stable(names[k]),
    ensures
        clean(block_record_groups(names)),
    decreases names.len(),
{
    crate::roundtrip::lemma_words_stable();
    if names.len() > 0 {
        let init = names.drop_last();
        assert forall|k: int| #![trigger init[k]] 0 <= k < init.len() implies stable(init[k]) by {
            assert(init[k] == names[k]);
        }
        lemma_records_clean(init);
        let b = seq![(0i32, "BLOCK_RECORD"@), (2i32, names.last())];
        assert(clean(b));
        lemma_clean_append(block_record_groups(init), b);
    }
}

proof fn lemma_vars_clean(vars: Seq<(Seq<char>, Seq<char>)>)
    requires
        vars_ok(vars),
    ensures
        clean(header_vars_groups(vars)),
{
    lemma_header_vars_index(vars);
    let hv = header_vars_groups(vars);
    assert forall|k: int| #![trigger hv[k]] 0 <= k < hv.len() implies stable(hv[k].1) by {
        let i = k / 2;
        assert(0 <= i < vars.len());
        if k % 2 == 0 {
            assert(k == 2 * i);
        } else {
            assert(k == 2 * i + 1);
        }
        assert(stable(vars[i].0) && stable(vars[i].1));
    }
}

/// HEADER variables whose names and values reading leaves as they are.
pub open spec fn vars_ok(vars: Seq<(Seq<char>, Seq<char>)>) -> bool {
    forall|i: int| #![trigger vars[i]] 0 <= i < vars.len() ==> stable(vars[i].0) && stable(vars[i].1)
}

/// Layers whose names and linetypes reading leaves as they are.
pub open spec fn layers_ok(ls: Seq<crate::writer::LayerV>) -> bool {
    forall|i: int| #![trigger ls[i]] 0 <= i < ls.len() ==> stable(ls[i].name) && stable(ls[i].linetype)
}

proof fn lemma_document_clean(
    vars: Seq<(Seq<char>, Seq<char>)>,
    ls: Seq<crate::writer::LayerV>,
    bs: Seq<BlockV>,
    es: Seq<EntityV>,
)
    requires
        vars_ok(vars),
        layers_ok(ls),
        forall|k: int| #![trigger bs[k]] 0 <= k < bs.len() ==> block_ok(bs[k]),
        forall|k: int| #![trigger es[k]] 0 <= k < es.len() ==> writable(es[k]),
    ensures
        clean(document_groups(vars, ls, bs, es)),
{
    crate::roundtrip::lemma_words_stable();
    crate::roundtrip::lemma_zero_coordinate();
    // HEADER
    lemma_vars_clean(vars);
    let ho = seq![(0i32, "SECTION"@), (2i32, "HEADER"@)];
    let ec = seq![(0i32, "ENDSEC"@)];
    assert(clean(ho));
    assert(clean(ec));
    assert(header_section(vars) =~= ho + header_vars_groups(vars) + ec);
    lemma_clean_append(ho, header_vars_groups(vars));
    lemma_clean_append(ho + header_vars_groups(vars), ec);
    // TABLES
    let names = bs.map_values(|b: BlockV| b.name);
    let all_names = seq!["*Model_Space"@, "*Paper_Space"@] + names;
    assert forall|k: int| #![trigger all_names[k]] 0 <= k < all_names.len() implies stable(
        all_names[k],
    ) by {
        if k >= 2 {
            assert(all_names[k] == names[k - 2]);
            assert(block_ok(bs[k - 2]));
        }
    }
    lemma_records_clean(all_names);
    lemma_layers_clean(ls);
    lemma_code_text(ls.len() as int);
    lemma_code_text(names.len() + 2int);
    let t1 = seq![
        (0i32, "SECTION"@),
        (2i32, "TABLES"@),
        (0i32, "TABLE"@),
        (2i32, "LAYER"@),
        (70i32, int_text(ls.len() as int)),
    ];
    let t2 = seq![
        (0i32, "ENDTAB"@),
        (0i32, "TABLE"@),
        (2i32, "BLOCK_RECORD"@),
        (70i32, int_text(names.len() + 2int)),
    ];
    let t3 = seq![(0i32, "ENDTAB"@), (0i32, "ENDSEC"@)];
    assert(clean(t1));
    assert(clean(t2));
    assert(clean(t3));
    let lg = layers_groups(ls);
    let rg = block_record_groups(all_names);
    assert(tables_section(ls, names) =~= t1 + lg + t2 + rg + t3);
    lemma_clean_append(t1, lg);
    lemma_clean_append(t1 + lg, t2);
    lemma_clean_append(t1 + lg + t2, rg);
    lemma_clean_append(t1 + lg + t2 + rg, t3);
    // BLOCKS
    lemma_builtin_block("*Model_Space"@);
    lemma_builtin_block("*Paper_Space"@);
    let bm = seq![builtin_block("*Model_Space"@)];
    let bp = seq![builtin_block("*Paper_Space"@)];
    assert(bm.drop_last() =~= Seq::<BlockV>::empty());
    assert(bp.drop_last() =~= Seq::<BlockV>::empty());
    assert(blocks_groups(Seq::<BlockV>::empty()) =~= Seq::<(i32, Seq<char>)>::empty());
    assert(blocks_groups(bm) =~= block_groups(builtin_block("*Model_Space"@)));
    assert(blocks_groups(bp) =~= block_groups(builtin_block("*Paper_Space"@)));
    lemma_blocks_clean(bm);
    lemma_blocks_clean(bp);
    lemma_blocks_clean(bs);
    let bo = seq![(0i32, "SECTION"@), (2i32, "BLOCKS"@)];
    assert(clean(bo));
    let gm = builtin_block_groups("*Model_Space"@);
    let gp = builtin_block_groups("*Paper_Space"@);
    assert(blocks_section(bs) =~= bo + gm + gp + blocks_groups(bs) + ec);
    lemma_clean_append(bo, gm);
    lemma_clean_append(bo + gm, gp);
    lemma_clean_append(bo + gm + gp, blocks_groups(bs));
    lemma_clean_append(bo + gm + gp + blocks_groups(bs), ec);
    // ENTITIES and the end.
    lemma_entities_clean(es);
    let eo = seq![(0i32, "SECTION"@), (2i32, "ENTITIES"@)];
    let ee = seq![(0i32, "ENDSEC"@), (0i32, "EOF"@)];
    assert(clean(eo));
    assert(clean(ee));
    let h = header_section(vars);
    let t = tables_section(ls, names);
    let b = blocks_section(bs);
    assert(document_groups(vars, ls, bs, es) =~= h + t + b + eo + entities_groups(es) + ee);
    lemma_clean_append(h, t);
    lemma_clean_append(h + t, b);
    lemma_clean_append(h + t + b, eo);
    lemma_clean_append(h + t + b + eo, entities_groups(es));
    lemma_clean_append(h + t + b + eo + entities_groups(es), ee);
}

/// The document that reading back a written file gives.
pub open spec fn written_doc(
    vars: Seq<(Seq<char>, Seq<char>)>,
    bs: Seq<BlockV>,
    es: Seq<EntityV>,
) -> DocV {
    DocV {
        header: map_of(vars),
        entities: read_back_all(es),
        blocks: seq![builtin_block("*Model_Space"@), builtin_block("*Paper_Space"@)]
            + blocks_back(bs),
        warnings: seq![],
    }
}

/// The parser reading a written file, before pair `j`, in `state`.
pub open spec fn file_state(ps: Seq<(i32, Seq<char>)>, j: int, state: State) -> PV {
    PV { state, ..moved(initial_pv(render(ps), None), j) }
}

/// The parts of a written file.
proof fn lemma_file_parts(
    vars: Seq<(Seq<char>, Seq<char>)>,
    ls: Seq<crate::writer::LayerV>,
    bs: Seq<BlockV>,
    es: Seq<EntityV>,
)
    ensures
        ({
            let ps = document_groups(vars, ls, bs, es);
            let h = header_section(vars);
            let t = tables_section(ls, bs.map_values(|b: BlockV| b.name));
            let b = blocks_section(bs);
            let en = seq![(0i32, "SECTION"@), (2i32, "ENTITIES"@)] + entities_groups(es) + seq![
                (0i32, "ENDSEC"@),
            ];
            &&& holds(ps, 0, h)
            &&& holds(ps, h.len() as int, t)
            &&& holds(ps, (h.len() + t.len()) as int, b)
            &&& holds(ps, (h.len() + t.len() + b.len()) as int, en)
            &&& ps.len() == h.len() + t.len() + b.len() + en.len() + 1
            &&& ps[(h.len() + t.len() + b.len() + en.len()) as int] == (0i32, "EOF"@)
        }),
{
    let ps = document_groups(vars, ls, bs, es);
    let h = header_section(vars);
    let t = tables_section(ls, bs.map_values(|b: BlockV| b.name));
    let b = blocks_section(bs);
    let en = seq![(0i32, "SECTION"@), (2i32, "ENTITIES"@)] + entities_groups(es) + seq![
        (0i32, "ENDSEC"@),
    ];
    let z = seq![(0i32, "EOF"@)];
    assert(ps =~= h + t + b + en + z);
    assert(ps.subrange(0, ps.len() as int) =~= ps);
    assert(holds(ps, 0, h + t + b + en + z));
    lemma_holds_split(ps, 0, h + t + b + en, z);
    lemma_holds_split(ps, 0, h + t + b, en);
    lemma_holds_split(ps, 0, h + t, b);
    lemma_holds_split(ps, 0, h, t);
    lemma_holds(ps, (h.len() + t.len() + b.len() + en.len()) as int, z);
    assert(ps[(h.len() + t.len() + b.len() + en.len()) as int] == z[0]);
}

/// The HEADER and TABLES sections of a written file.
proof fn lemma_file_front(
    vars: Seq<(Seq<char>, Seq<char>)>,
    ls: Seq<crate::writer::LayerV>,
    bs: Seq<BlockV>,
    es: Seq<EntityV>,
)
    requires
        vars_ok(vars),
        layers_ok(ls),
        forall|k: int| #![trigger bs[k]] 0 <= k < bs.len() ==> block_ok(bs[k]),
        forall|k: int| #![trigger es[k]] 0 <= k < es.len() ==> writable(es[k]),
    ensures
        ({
            let ps = document_groups(vars, ls, bs, es);
            let jb = (header_section(vars).len() + tables_section(
                ls,
                bs.map_values(|b: BlockV| b.name),
            ).len()) as int;
            spec_drive(initial_pv(render(ps), None), empty_doc()) == spec_drive(
                file_state(ps, jb, State::Initial),
                DocV { header: map_of(vars), ..empty_doc() },
            )
        }),
{
    let ps = document_groups(vars, ls, bs, es);
    lemma_document_clean(vars, ls, bs, es);
    lemma_file_parts(vars, ls, bs, es);
    let names = bs.map_values(|b: BlockV| b.name);
    let h = header_section(vars);
    let t = tables_section(ls, names);
    let s0 = initial_pv(render(ps), None);
    let d0 = empty_doc();
    lemma_render_index(ps);
    assert(s0 =~= moved(s0, 0));
    lemma_drive_header(s0, ps, 0, vars, d0);
    let jt = h.len() as int;
    let s1 = PV { state: State::Initial, ..moved(s0, jt) };
    let d1 = DocV { header: vars_into(d0.header, vars), ..d0 };
    lemma_drive_tables(s1, ps, jt, ls, names, d1);
    let jb = jt + t.len();
    assert(PV { state: State::Initial, ..moved(s1, jb) } =~= file_state(ps, jb, State::Initial));
    lemma_map_of_vars_into(vars);
}

/// The BLOCKS and ENTITIES sections and the end of a written file.
proof fn lemma_file_back(
    vars: Seq<(Seq<char>, Seq<char>)>,
    ls: Seq<crate::writer::LayerV>,
    bs: Seq<BlockV>,
    es: Seq<EntityV>,
)
    requires
        vars_ok(vars),
        layers_ok(ls),
        forall|k: int| #![trigger bs[k]] 0 <= k < bs.len() ==> block_ok(bs[k]),
        forall|k: int| #![trigger es[k]] 0 <= k < es.len() ==> writable(es[k]),
    ensures
        ({
            let ps = document_groups(vars, ls, bs, es);
            let jb = (header_section(vars).len() + tables_section(
                ls,
                bs.map_values(|b: BlockV| b.name),
            ).len()) as int;
            let jz = ps.len() - 1;
            spec_drive(
                file_state(ps, jb, State::Initial),
                DocV { header: map_of(vars), ..empty_doc() },
            ) == (file_state(ps, jz + 1, State::Done), Ok::<DocV, CadErrorV>(written_doc(vars, bs, es)))
        }),
{
    lemma_words();
    let ps = document_groups(vars, ls, bs, es);
    lemma_document_clean(vars, ls, bs, es);
    lemma_file_parts(vars, ls, bs, es);
    lemma_render_index(ps);
    let names = bs.map_values(|b: BlockV| b.name);
    let b = blocks_section(bs);
    let eg = entities_groups(es);
    let jb = (header_section(vars).len() + tables_section(ls, names).len()) as int;
    let d1 = DocV { header: map_of(vars), ..empty_doc() };
    let s2 = file_state(ps, jb, State::Initial);
    lemma_drive_blocks_section(s2, ps, jb, bs, d1);
    let je = jb + b.len();
    let s3 = PV { state: State::Initial, ..moved(s2, je) };
    let d3 = DocV {
        blocks: d1.blocks + seq![builtin_block("*Model_Space"@), builtin_block("*Paper_Space"@)]
            + blocks_back(bs),
        ..d1
    };
    lemma_drive_entities(s3, ps, je, es, d3);
    let jz = je + 3 + eg.len();
    let s4 = PV { state: State::Initial, ..moved(s3, jz) };
    let d4 = DocV { entities: d3.entities + read_back_all(es), ..d3 };
    lemma_run_eof(s4, ps, jz);
    let s5 = PV { state: State::Done, ..moved(s4, jz + 1) };
    lemma_at_wf(s4, ps, jz);
    lemma_drive_event(s4, d4, s5, EventV::Eof);
    assert(apply_v(d4, EventV::Eof) == d4);
    lemma_at_wf(s5, ps, jz + 1);
    crate::document::lemma_drive_unfold(s5, d4);
    assert(spec_drive(s5, d4) == (s5, Ok::<DocV, CadErrorV>(d4)));
    assert(s5 =~= file_state(ps, jz + 1, State::Done));
    assert(d1.blocks + seq![builtin_block("*Model_Space"@), builtin_block("*Paper_Space"@)]
        + blocks_back(bs) =~= seq![builtin_block("*Model_Space"@), builtin_block("*Paper_Space"@)]
        + blocks_back(bs));
    assert(d1.entities + read_back_all(es) =~= read_back_all(es));
    assert(d4 =~= written_doc(vars, bs, es));
}

/// Parsing a file that the emitter wrote gives back what it was written
/// from, without a warning: the HEADER variables (a later one of the same
/// name wins), the two built-in blocks and then each block, and each
/// entity; an entity and each entity of a block as `read_back` gives it,
/// a block with its name and description kept as extra groups.
pub proof fn lemma_file_round_trip(
    vars: Seq<(Seq<char>, Seq<char>)>,
    ls: Seq<crate::writer::LayerV>,
    bs: Seq<BlockV>,
    es: Seq<EntityV>,
)
    requires
        vars_ok(vars),
        layers_ok(ls),
        forall|k: int| #![trigger bs[k]] 0 <= k < bs.len() ==> block_ok(bs[k]),
        forall|k: int| #![trigger es[k]] 0 <= k < es.len() ==> writable(es[k]),
    ensures
        spec_parse(initial_pv(render(document_groups(vars, ls, bs, es)), None)) == Ok::<
            DocV,
            CadErrorV,
        >(written_doc(vars, bs, es)),
{
    lemma_file_front(vars, ls, bs, es);
    lemma_file_back(vars, ls, bs, es);
    let ps = document_groups(vars, ls, bs, es);
    let s5 = file_state(ps, ps.len() as int, State::Done);
    assert(DocV { warnings: s5.warnings, ..written_doc(vars, bs, es) } =~= written_doc(
        vars,
        bs,
        es,
    ));
}

} // verus!
