//! The events that one block definition of the BLOCKS section gives: the
//! block is announced, each of its entities follows, and the whole block
//! closes the run.

use vstd::prelude::*;

use crate::builders::spec_build_entity;
use crate::document_roundtrip::lemma_words;
use crate::entity::{BlockV, EntityV};
use crate::error::CadErrorV;
use crate::parser::{
    EventV, PV, SectionKind, State, Step, initial_pv, is_marker, pv_wf, spec_block_header,
    spec_flush_anything, spec_next_event, spec_run, spec_step,
};
use crate::reader::{PairV, read_result};

verus! {

/// The lines from `pos` on are read, one pair after another, as `q`.
pub open spec fn reads_pairs(
    lines: Seq<Seq<char>>,
    err: Option<Seq<char>>,
    pos: nat,
    q: Seq<PairV>,
) -> bool {
    forall|i: int|
        #![trigger q[i]]
        0 <= i < q.len() ==> read_result(lines, err, (pos + 2 * i) as nat, None).0 == Ok::<
            Option<PairV>,
            CadErrorV,
        >(Some(q[i]))
}

/// A word that ends whatever the parser is reading.
pub open spec fn closing_word(w: Seq<char>) -> bool {
    w == "EOF"@ || w == "SECTION"@ || w == "ENDSEC"@ || w == "ENDBLK"@
}

/// The pairs of one entity inside a block: its type pair `0/<type>`, then
/// groups whose codes are not 0.
pub open spec fn entity_pairs(g: Seq<PairV>) -> bool {
    &&& g.len() >= 1
    &&& g[0].code == 0
    &&& !closing_word(g[0].value)
    &&& forall|i: int| #![trigger g[i]] 1 <= i < g.len() ==> g[i].code != 0
}

/// The entity that the parser builds of such pairs.
pub open spec fn entity_of_pairs(g: Seq<PairV>) -> EntityV {
    spec_build_entity(g[0].value, g.drop_first())
}

/// A call that reports the event `e`.
pub open spec fn reported(e: EventV) -> Result<Option<EventV>, CadErrorV> {
    Ok(Some(e))
}

/// `n` calls of `next_event` from state `s`: the state after them, and
/// what each call returned, in order.
pub open spec fn spec_events(s: PV, n: nat) -> (PV, Seq<Result<Option<EventV>, CadErrorV>>)
    decreases n,
{
    if n == 0 {
        (s, seq![])
    } else {
        let (s1, r) = spec_next_event(s);
        let (s2, rs) = spec_events(s1, (n - 1) as nat);
        (s2, seq![r] + rs)
    }
}

/// The events that the entities of a block give, in order.
pub open spec fn entity_events(es: Seq<EntityV>) -> Seq<Result<Option<EventV>, CadErrorV>> {
    es.map_values(|e: EntityV| reported(EventV::EntityInBlock(e)))
}

proof fn lemma_reads_first(lines: Seq<Seq<char>>, err: Option<Seq<char>>, pos: nat, q: Seq<PairV>)
    requires
        reads_pairs(lines, err, pos, q),
        q.len() > 0,
    ensures
        read_result(lines, err, pos, None) == (Ok::<Option<PairV>, CadErrorV>(Some(q[0])), pos
            + 2),
        reads_pairs(lines, err, pos + 2, q.drop_first()),
        pos + 2 * q.len() <= lines.len(),
{
    assert(q[0] == q[0]);
    let last = q.len() - 1;
    assert(q[last] == q[last]);
    let pl = (pos + 2 * last) as nat;
    assert(read_result(lines, err, pl, None).0 == Ok::<Option<PairV>, CadErrorV>(Some(q[last])));
    assert(pl + 1 < lines.len());
    assert forall|i: int| 0 <= i < q.drop_first().len() implies read_result(
        lines,
        err,
        (pos + 2 + 2 * i) as nat,
        None,
    ).0 == Ok::<Option<PairV>, CadErrorV>(Some(#[trigger] q.drop_first()[i])) by {
        assert(q[i + 1] == q.drop_first()[i]);
    }
}

proof fn lemma_reads_split(
    lines: Seq<Seq<char>>,
    err: Option<Seq<char>>,
    pos: nat,
    a: Seq<PairV>,
    b: Seq<PairV>,
)
    requires
        reads_pairs(lines, err, pos, a + b),
    ensures
        reads_pairs(lines, err, pos, a),
        reads_pairs(lines, err, pos + 2 * a.len(), b),
{
    assert forall|i: int| 0 <= i < a.len() implies read_result(
        lines,
        err,
        (pos + 2 * i) as nat,
        None,
    ).0 == Ok::<Option<PairV>, CadErrorV>(Some(#[trigger] a[i])) by {
        assert((a + b)[i] == a[i]);
    }
    assert forall|i: int| 0 <= i < b.len() implies read_result(
        lines,
        err,
        (pos + 2 * a.len() + 2 * i) as nat,
        None,
    ).0 == Ok::<Option<PairV>, CadErrorV>(Some(#[trigger] b[i])) by {
        assert((a + b)[a.len() + i] == b[i]);
        assert(pos + 2 * (a.len() + i) == pos + 2 * a.len() + 2 * i);
    }
}

/// The state after the groups `g` are taken in: header groups in a block
/// header, entity groups in a block entity.
pub open spec fn absorbed(t: PV, g: Seq<PairV>) -> PV {
    if t.state == State::InBlockHeader {
        PV { header_groups: t.header_groups + g, pos: t.pos + 2 * g.len(), ..t }
    } else {
        PV { groups: t.groups + g, pos: t.pos + 2 * g.len(), ..t }
    }
}

/// Groups whose codes are not 0 are taken in without an event.
proof fn lemma_run_absorb(t: PV, g: Seq<PairV>)
    requires
        pv_wf(t),
        t.pending is None,
        t.state == State::InBlockHeader || t.state == State::InBlockEntity,
        forall|i: int| #![trigger g[i]] 0 <= i < g.len() ==> g[i].code != 0,
        reads_pairs(t.lines, t.err, t.pos, g),
    ensures
        pv_wf(absorbed(t, g)),
        spec_run(t) == spec_run(absorbed(t, g)),
    decreases g.len(),
{
    if g.len() == 0 {
        assert(absorbed(t, g) =~= t);
    } else {
        lemma_reads_first(t.lines, t.err, t.pos, g);
        let p = g[0];
        assert(p.code != 0);
        let t1 = PV { pos: t.pos + 2, pending: None, ..t };
        let t2 = if t.state == State::InBlockHeader {
            PV { header_groups: t.header_groups.push(p), ..t1 }
        } else {
            PV { groups: t.groups.push(p), ..t1 }
        };
        assert(spec_step(t1, p) == Step::Continue(t2));
        assert(spec_run(t) == spec_run(t2));
        let rest = g.drop_first();
        assert forall|i: int| #![trigger rest[i]] 0 <= i < rest.len() implies rest[i].code
            != 0 by {
            assert(rest[i] == g[i + 1]);
        }
        lemma_run_absorb(t2, rest);
        assert(t.header_groups.push(p) + rest =~= t.header_groups + g);
        assert(t.groups.push(p) + rest =~= t.groups + g);
        assert(absorbed(t2, rest) =~= absorbed(t, g));
    }
}

/// The entities of a block from `rest[0]` on, whose type pair has been
/// read: each gives its event, and `0/ENDBLK` closes the block.
proof fn lemma_entity_events(
    t: PV,
    rest: Seq<Seq<PairV>>,
    close: PairV,
    b: BlockV,
    done: Seq<EntityV>,
)
    requires
        pv_wf(t),
        t.pending is None,
        t.state == State::InBlockEntity,
        rest.len() >= 1,
        forall|j: int| #![trigger rest[j]] 0 <= j < rest.len() ==> entity_pairs(rest[j]),
        is_marker(close, "ENDBLK"@),
        t.kind == Some(rest[0][0].value),
        t.groups.len() == 0,
        t.block == Some(BlockV { entities: done, ..b }),
        reads_pairs(
            t.lines,
            t.err,
            t.pos,
            rest[0].drop_first() + rest.drop_first().flatten() + seq![close],
        ),
    ensures
        ({
            let es = rest.map_values(|g: Seq<PairV>| entity_of_pairs(g));
            let (s2, rs) = spec_events(t, rest.len() + 1);
            &&& rs == entity_events(es) + seq![
                reported(EventV::BlockDefinitionEnd(BlockV { entities: done + es, ..b })),
            ]
            &&& s2.state == State::InSection(SectionKind::Blocks)
            &&& s2.block is None
            &&& s2.kind is None
            &&& s2.pending is None
            &&& s2.pos == t.pos + 2 * (rest[0].len() - 1 + rest.drop_first().flatten().len() + 1)
        }),
    decreases rest.len(),
{
    lemma_words();
    let g = rest[0].drop_first();
    let f = rest.drop_first().flatten();
    let tail = f + seq![close];
    assert(g + f + seq![close] =~= g + tail);
    lemma_reads_split(t.lines, t.err, t.pos, g, tail);
    assert(entity_pairs(rest[0]));
    assert forall|i: int| #![trigger g[i]] 0 <= i < g.len() implies g[i].code != 0 by {
        assert(g[i] == rest[0][i + 1]);
    }
    lemma_run_absorb(t, g);
    let ta = absorbed(t, g);
    assert(t.groups + g =~= g);
    let pa = (t.pos + 2 * g.len()) as nat;
    assert(ta == PV { groups: g, pos: pa, ..t });
    let e0 = entity_of_pairs(rest[0]);
    let f0 = |gg: Seq<PairV>| entity_of_pairs(gg);
    let es = rest.map_values(f0);
    let rest2 = rest.drop_first();
    let es2 = rest2.map_values(f0);
    assert(es =~= seq![e0] + es2);
    assert(entity_events(es) =~= seq![reported(EventV::EntityInBlock(e0))] + entity_events(es2));
    lemma_reads_first(t.lines, t.err, pa, tail);
    let ta1 = PV { pos: pa + 2, pending: None, ..ta };
    let flushed = PV {
        kind: None,
        groups: seq![],
        warnings: ta1.warnings + crate::builders::entity_warnings(rest[0][0].value, g),
        block: Some(BlockV { entities: done.push(e0), ..b }),
        ..ta1
    };
    assert(crate::parser::spec_flush_block_entity(ta1) == (
        flushed,
        Some(EventV::EntityInBlock(e0)),
    ));
    if rest.len() == 1 {
        assert(rest2.len() == 0);
        assert(f =~= Seq::<PairV>::empty());
        assert(tail[0] == close);
        let sp = PV { pending: Some(close), ..flushed };
        assert(spec_step(ta1, close) == Step::Emit(sp, EventV::EntityInBlock(e0)));
        assert(spec_next_event(t) == (sp, reported(EventV::EntityInBlock(e0))));
        let sq = PV { pending: None, ..sp };
        assert(crate::parser::spec_flush_block_entity(sq) == (sq, None::<EventV>));
        let full = BlockV { entities: done.push(e0), ..b };
        let fin = PV { block: None, state: State::InSection(SectionKind::Blocks), ..sq };
        assert(crate::parser::spec_close_block(sq) == (
            fin,
            Some(EventV::BlockDefinitionEnd(full)),
        ));
        assert(spec_step(sq, close) == Step::Emit(fin, EventV::BlockDefinitionEnd(full)));
        assert(pv_wf(sp));
        assert(spec_next_event(sp) == (fin, reported(EventV::BlockDefinitionEnd(full))));
        assert(es2 =~= Seq::<EntityV>::empty());
        assert(done + es =~= done.push(e0));
        assert(spec_events(fin, 0) == (fin, Seq::<Result<Option<EventV>, CadErrorV>>::empty()));
        assert(spec_events(sp, 1) == (fin, seq![reported(EventV::BlockDefinitionEnd(full))]));
    } else {
        let g1 = rest[1];
        assert(entity_pairs(g1));
        let f2 = rest2.drop_first().flatten();
        assert(rest2.first() == g1);
        assert(f == g1 + f2);
        assert(tail =~= seq![g1[0]] + (g1.drop_first() + f2 + seq![close]));
        assert(tail[0] == g1[0]);
        assert(tail.drop_first() =~= g1.drop_first() + f2 + seq![close]);
        let tn = PV { kind: Some(g1[0].value), groups: seq![], ..flushed };
        assert(spec_step(ta1, g1[0]) == Step::Emit(tn, EventV::EntityInBlock(e0)));
        assert(spec_next_event(t) == (tn, reported(EventV::EntityInBlock(e0))));
        assert forall|j: int| #![trigger rest2[j]] 0 <= j < rest2.len() implies entity_pairs(
            rest2[j],
        ) by {
            assert(rest2[j] == rest[j + 1]);
        }
        assert(rest2[0] == g1);
        assert(BlockV { entities: done.push(e0), ..b } == BlockV {
            entities: done.push(e0),
            ..b
        });
        lemma_entity_events(tn, rest2, close, b, done.push(e0));
        assert(done.push(e0) + es2 =~= done + es);
        let (s2, rs2) = spec_events(tn, rest2.len() + 1);
        assert(spec_events(t, rest.len() + 1) == (s2, seq![reported(EventV::EntityInBlock(e0))]
            + rs2));
        assert(f.len() == g1.len() + f2.len());
    }
}

/// What holds of every state that the parser reaches: it stands within
/// its lines, and an entity is being read only while the parser reads
/// entity groups.
pub open spec fn parser_inv(s: PV) -> bool {
    &&& pv_wf(s)
    &&& (s.kind is Some ==> s.state == State::AccumulatingEntity || s.state
        == State::InBlockEntity)
}

/// The parser stands in the BLOCKS section between block definitions,
/// with nothing pushed back and no entity being read.
pub open spec fn between_blocks(s: PV) -> bool {
    &&& s.pending is None
    &&& s.kind is None
    &&& s.state == State::InSection(SectionKind::Blocks)
}

/// An event after which the parser stands between block definitions.
pub open spec fn opens_block_run(e: EventV) -> bool {
    e == EventV::SectionStart(SectionKind::Blocks) || e is BlockDefinitionEnd
}

proof fn lemma_flush_quiet(s: PV)
    requires
        parser_inv(s),
    ensures
        spec_flush_anything(s).0.kind is None,
        spec_flush_anything(s).0.lines == s.lines,
        spec_flush_anything(s).0.err == s.err,
        spec_flush_anything(s).0.pos == s.pos,
        spec_flush_anything(s).0.pending == s.pending,
        spec_flush_anything(s).1 is None ==> spec_flush_anything(s).0 == s,
        spec_flush_anything(s).1 matches Some(e) ==> !opens_block_run(e),
{
}

proof fn lemma_step_inv(s: PV, p: PairV)
    requires
        parser_inv(s),
        s.pending is None,
        s.state != State::Done,
    ensures
        match spec_step(s, p) {
            Step::Continue(s2) => {
                &&& parser_inv(s2)
                &&& s2.lines == s.lines
                &&& s2.err == s.err
                &&& s2.pending is None
                &&& s2.state != State::Done
            },
            Step::Emit(s2, e) => {
                &&& parser_inv(s2)
                &&& s2.lines == s.lines
                &&& s2.err == s.err
                &&& (opens_block_run(e) ==> between_blocks(s2))
            },
            Step::Fail(s2, _) => parser_inv(s2) && s2.lines == s.lines && s2.err == s.err,
        },
{
    lemma_words();
    crate::parser::lemma_step_measure(s, p);
    lemma_flush_quiet(s);
    let (r, pos2) = read_result(s.lines, s.err, s.pos, s.pending);
    assert(pos2 <= s.lines.len());
}

proof fn lemma_run_inv(s: PV)
    requires
        parser_inv(s),
        s.state != State::Done,
    ensures
        parser_inv(spec_run(s).0),
        spec_run(s).0.lines == s.lines,
        spec_run(s).0.err == s.err,
        spec_run(s).1 matches Ok(Some(e)) ==> (opens_block_run(e) ==> between_blocks(
            spec_run(s).0,
        )),
    decreases 4 * (s.lines.len() - s.pos) + (if s.pending is Some { 2int } else { 0 }),
{
    let (r, pos2) = read_result(s.lines, s.err, s.pos, s.pending);
    assert(pos2 <= s.lines.len());
    let s1 = PV { pos: pos2, pending: None, ..s };
    assert(parser_inv(s1));
    match r {
        Ok(Some(p)) => {
            lemma_step_inv(s1, p);
            match spec_step(s1, p) {
                Step::Continue(s2) => {
                    crate::parser::lemma_step_continue(s1, p);
                    lemma_run_inv(s2);
                },
                _ => {},
            }
        },
        Ok(None) => {
            lemma_flush_quiet(s1);
        },
        _ => {},
    }
}

/// A parser that has read nothing satisfies the invariant.
pub proof fn lemma_initial_inv(lines: Seq<Seq<char>>, err: Option<Seq<char>>)
    ensures
        parser_inv(initial_pv(lines, err)),
{
}

/// Every call of `next_event` keeps the invariant and the lines read;
/// after it reports the start of the BLOCKS section or the end of a block
/// definition, the parser stands between block definitions.
pub proof fn lemma_next_event_inv(s: PV)
    requires
        parser_inv(s),
    ensures
        parser_inv(spec_next_event(s).0),
        spec_next_event(s).0.lines == s.lines,
        spec_next_event(s).0.err == s.err,
        spec_next_event(s).1 matches Ok(Some(e)) ==> (opens_block_run(e) ==> between_blocks(
            spec_next_event(s).0,
        )),
{
    if s.state != State::Done {
        lemma_run_inv(s);
    }
}

/// Any number of calls keeps the invariant and the lines read.
pub proof fn lemma_events_inv(s: PV, n: nat)
    requires
        parser_inv(s),
    ensures
        parser_inv(spec_events(s, n).0),
        spec_events(s, n).0.lines == s.lines,
        spec_events(s, n).0.err == s.err,
    decreases n,
{
    if n > 0 {
        lemma_next_event_inv(s);
        lemma_events_inv(spec_next_event(s).0, (n - 1) as nat);
    }
}

/// One block definition gives, in order: `BlockDefinitionStart` with the
/// name and base point of its header, one `EntityInBlock` for each of its
/// entities, and `BlockDefinitionEnd` with the whole block, its header and
/// all those entities. This holds of a block without entities too, which
/// is announced and closed all the same. The input is `0/BLOCK`, header
/// groups whose codes are not 0, the entities (each a type pair `0/<type>`
/// with a type that does not end a block or section, then groups whose
/// codes are not 0) and `0/ENDBLK`, read from a parser that stands
/// between block definitions; `lemma_block_events_in_stream` shows that it
/// does so after the BLOCKS section opens and after each block ends.
pub proof fn lemma_block_events(
    s: PV,
    open: PairV,
    h: Seq<PairV>,
    ents: Seq<Seq<PairV>>,
    close: PairV,
)
    requires
        pv_wf(s),
        between_blocks(s),
        is_marker(open, "BLOCK"@),
        forall|i: int| #![trigger h[i]] 0 <= i < h.len() ==> h[i].code != 0,
        forall|j: int| #![trigger ents[j]] 0 <= j < ents.len() ==> entity_pairs(ents[j]),
        is_marker(close, "ENDBLK"@),
        reads_pairs(s.lines, s.err, s.pos, seq![open] + h + ents.flatten() + seq![close]),
    ensures
        ({
            let b = spec_block_header(h);
            let es = ents.map_values(|g: Seq<PairV>| entity_of_pairs(g));
            let (s2, rs) = spec_events(s, ents.len() + 2);
            &&& rs == seq![
                reported(
                    EventV::BlockDefinitionStart { name: b.name, base_point: b.base_point },
                ),
            ] + entity_events(es) + seq![
                reported(EventV::BlockDefinitionEnd(BlockV { entities: es, ..b })),
            ]
            &&& s2.state == State::InSection(SectionKind::Blocks)
            &&& s2.block is None
            &&& s2.kind is None
            &&& s2.pending is None
            &&& s2.pos == s.pos + 2 * (h.len() + ents.flatten().len() + 2)
        }),
{
    lemma_words();
    let f = ents.flatten();
    let tail = f + seq![close];
    let q = seq![open] + h + f + seq![close];
    lemma_reads_first(s.lines, s.err, s.pos, q);
    assert(q[0] == open);
    assert(q.drop_first() =~= h + tail);
    lemma_reads_split(s.lines, s.err, s.pos + 2, h, tail);
    let s1 = PV { pos: s.pos + 2, pending: None, ..s };
    let sb = PV { header_groups: seq![], state: State::InBlockHeader, ..s1 };
    assert(spec_step(s1, open) == Step::Continue(sb));
    assert(spec_run(s) == spec_run(sb));
    lemma_run_absorb(sb, h);
    let sh = absorbed(sb, h);
    assert(seq![] + h =~= h);
    let ph = (s.pos + 2 + 2 * h.len()) as nat;
    assert(sh == PV { header_groups: h, pos: ph, ..sb });
    lemma_reads_first(s.lines, s.err, ph, tail);
    let sh1 = PV { pos: ph + 2, pending: None, ..sh };
    let b = spec_block_header(h);
    let start = EventV::BlockDefinitionStart { name: b.name, base_point: b.base_point };
    let sf = crate::parser::spec_finalize_block_header(sh1);
    assert(sf.block == Some(b));
    let f0 = |g: Seq<PairV>| entity_of_pairs(g);
    let es = ents.map_values(f0);
    if ents.len() == 0 {
        assert(f =~= Seq::<PairV>::empty());
        assert(tail[0] == close);
        let sp = PV { state: State::InBlockEntity, pending: Some(close), ..sf };
        assert(spec_step(sh1, close) == Step::Emit(sp, start));
        assert(spec_next_event(s) == (sp, reported(start)));
        let sq = PV { pending: None, ..sp };
        assert(crate::parser::spec_flush_block_entity(sq) == (sq, None::<EventV>));
        let fin = PV { block: None, state: State::InSection(SectionKind::Blocks), ..sq };
        assert(crate::parser::spec_close_block(sq) == (fin, Some(EventV::BlockDefinitionEnd(b))));
        assert(spec_step(sq, close) == Step::Emit(fin, EventV::BlockDefinitionEnd(b)));
        assert(pv_wf(sp));
        assert(spec_next_event(sp) == (fin, reported(EventV::BlockDefinitionEnd(b))));
        assert(es =~= Seq::<EntityV>::empty());
        assert(entity_events(es) =~= Seq::<Result<Option<EventV>, CadErrorV>>::empty());
        assert(BlockV { entities: es, ..b } == b);
        assert(spec_events(fin, 0) == (fin, Seq::<Result<Option<EventV>, CadErrorV>>::empty()));
        assert(spec_events(sp, 1) == (fin, seq![reported(EventV::BlockDefinitionEnd(b))]));
    } else {
        let g0 = ents[0];
        assert(entity_pairs(g0));
        let f2 = ents.drop_first().flatten();
        assert(ents.first() == g0);
        assert(f == g0 + f2);
        assert(tail =~= seq![g0[0]] + (g0.drop_first() + f2 + seq![close]));
        assert(tail[0] == g0[0]);
        assert(tail.drop_first() =~= g0.drop_first() + f2 + seq![close]);
        let s2 = PV { kind: Some(g0[0].value), groups: seq![], state: State::InBlockEntity, ..sf };
        assert(spec_step(sh1, g0[0]) == Step::Emit(s2, start));
        assert(spec_next_event(s) == (s2, reported(start)));
        assert(b.entities =~= Seq::<EntityV>::empty());
        assert(BlockV { entities: seq![], ..b } == b);
        lemma_entity_events(s2, ents, close, b, seq![]);
        assert(Seq::<EntityV>::empty() + es =~= es);
        let (s3, rs3) = spec_events(s2, ents.len() + 1);
        assert(spec_events(s, ents.len() + 2) == (s3, seq![reported(start)] + rs3));
        assert(f.len() == g0.len() + f2.len());
    }
}

/// The block law in a whole stream. A parser starts on `lines`; say that
/// after `n` calls the next call reports the start of the BLOCKS section or
/// the end of a block definition. If the lines from there on hold a block
/// definition (`0/BLOCK`, header groups whose codes are not 0, the entities,
/// `0/ENDBLK`), the calls that follow report `BlockDefinitionStart` with
/// the name and base point of its header, one `EntityInBlock` for each
/// entity, and `BlockDefinitionEnd` with the whole block, in that order;
/// an empty block is announced and closed all the same. Afterwards the
/// parser stands between block definitions again, so the law applies to
/// the next block too.
pub proof fn lemma_block_events_in_stream(
    lines: Seq<Seq<char>>,
    err: Option<Seq<char>>,
    n: nat,
    open: PairV,
    h: Seq<PairV>,
    ents: Seq<Seq<PairV>>,
    close: PairV,
)
    requires
        spec_next_event(spec_events(initial_pv(lines, err), n).0).1 matches Ok(Some(e))
            && opens_block_run(e),
        is_marker(open, "BLOCK"@),
        forall|i: int| #![trigger h[i]] 0 <= i < h.len() ==> h[i].code != 0,
        forall|j: int| #![trigger ents[j]] 0 <= j < ents.len() ==> entity_pairs(ents[j]),
        is_marker(close, "ENDBLK"@),
        reads_pairs(
            lines,
            err,
            spec_next_event(spec_events(initial_pv(lines, err), n).0).0.pos,
            seq![open] + h + ents.flatten() + seq![close],
        ),
    ensures
        ({
            let s = spec_next_event(spec_events(initial_pv(lines, err), n).0).0;
            let b = spec_block_header(h);
            let es = ents.map_values(|g: Seq<PairV>| entity_of_pairs(g));
            let (s2, rs) = spec_events(s, ents.len() + 2);
            &&& rs == seq![
                reported(
                    EventV::BlockDefinitionStart { name: b.name, base_point: b.base_point },
                ),
            ] + entity_events(es) + seq![
                reported(EventV::BlockDefinitionEnd(BlockV { entities: es, ..b })),
            ]
            &&& between_blocks(s2)
            &&& s2.pos == s.pos + 2 * (h.len() + ents.flatten().len() + 2)
        }),
{
    let s0 = spec_events(initial_pv(lines, err), n).0;
    lemma_initial_inv(lines, err);
    lemma_events_inv(initial_pv(lines, err), n);
    lemma_next_event_inv(s0);
    let s = spec_next_event(s0).0;
    lemma_block_events(s, open, h, ents, close);
}

} // verus!
