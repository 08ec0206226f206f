//! What the emitter writes, the parser reads back.
//!
//! An entity whose texts survive trimming and whose numbers are number
//! literals is built back from the groups that the emitter writes for it,
//! without warnings. LWPOLYLINE and TEXT come back with one more extra
//! group each: the vertex count (90) and the text style (7) that the
//! emitter adds and the parser does not read into a field.

use vstd::prelude::*;

use crate::builders::{
    Recipe, bad_group, entity_warnings, extra_code, first_value, float_code, int_code,
    int_or_zero, is_xdata_code, joined_text, last_value, lw_close, lw_fold, lw_start, lw_step,
    num_text, own_code, props_of, recipe_of, select, spec_build_entity, text_code, warnings_of,
};
use crate::entity::{BlockV, EntityV, PointV, PropsV};
use crate::numeric::{
    int_literal_value, int_text, is_float_literal, lemma_int_text_parses, lemma_nat_text,
    nat_text, spec_parse_i32, spec_parse_i64,
};
use crate::reader::PairV;
use crate::text::{is_ws, trim_end_seq, trim_seq, trim_start_seq};
use crate::writer::{emit_groups, point_groups, props_groups, rotation_group, style_group};

verus! {

/// The code and value of each pair, without its line number.
pub open spec fn strip(gs: Seq<PairV>) -> Seq<(i32, Seq<char>)> {
    gs.map_values(|p: PairV| (p.code, p.value))
}

/// A text that reading leaves as it is: no surrounding whitespace.
pub open spec fn stable(t: Seq<char>) -> bool {
    trim_seq(t) == t
}

/// A number that reads back as itself.
pub open spec fn num_ok(t: Seq<char>) -> bool {
    is_float_literal(t) && stable(t)
}

/// A rotation or bulge that reads back as itself: none, or a number.
pub open spec fn angle_ok(t: Option<Seq<char>>) -> bool {
    t matches Some(v) ==> num_ok(v)
}

pub open spec fn point_ok(p: PointV) -> bool {
    num_ok(p.x) && num_ok(p.y) && num_ok(p.z)
}

/// Props that the emitter writes in full: a handle without surrounding
/// whitespace,
/// XDATA under XDATA codes, extra groups under codes that the recipe keeps
/// among the extras (and not 0, which starts an entity), texts that
/// reading leaves as they are.
pub open spec fn props_ok(k: Recipe, p: PropsV) -> bool {
    &&& (p.handle matches Some(h) ==> stable(h))
    &&& (p.linetype matches Some(t) ==> stable(t))
    &&& forall|i: int|
        #![trigger p.xdata[i]]
        0 <= i < p.xdata.len() ==> is_xdata_code(p.xdata[i].0) && stable(p.xdata[i].1)
    &&& forall|i: int|
        #![trigger p.raw_extras[i]]
        0 <= i < p.raw_extras.len() ==> extra_code(k, p.raw_extras[i].0) && p.raw_extras[i].0
            != 0 && stable(p.raw_extras[i].1)
}

/// The codes that props groups are written under.
pub open spec fn props_code(k: Recipe, c: i32) -> bool {
    c == 5 || c == 62 || c == 6 || extra_code(k, c) || is_xdata_code(c)
}

proof fn lemma_trim_noop(s: Seq<char>)
    requires
        s.len() == 0 || (!is_ws(s[0]) && !is_ws(s.last())),
    ensures
        trim_seq(s) == s,
{
}

/// The decimal form of a group code reads back as the code.
pub proof fn lemma_code_text(c: int)
    ensures
        stable(int_text(c)),
        int_literal_value(int_text(c)) == Some(c),
        i32::MIN <= c <= i32::MAX ==> spec_parse_i32(int_text(c)) == Some(c as i32),
        i64::MIN <= c <= i64::MAX ==> spec_parse_i64(int_text(c)) == Some(c as i64),
{
    lemma_int_text_parses(c);
    let m: nat = if c < 0 {
        (-c) as nat
    } else {
        c as nat
    };
    lemma_nat_text(m);
    let t = nat_text(m);
    assert(crate::numeric::is_digit(t[0]));
    assert(crate::numeric::is_digit(t.last()));
    lemma_trim_noop(int_text(c));
}

proof fn lemma_last_value_at(gs: Seq<PairV>, c: i32, i: int)
    requires
        0 <= i < gs.len(),
        gs[i].code == c,
        forall|j: int| i < j < gs.len() ==> gs[j].code != c,
    ensures
        last_value(gs, c) == Some(gs[i].value),
    decreases gs.len(),
{
    if i < gs.len() - 1 {
        lemma_last_value_at(gs.drop_last(), c, i);
    }
}

proof fn lemma_last_value_none(gs: Seq<PairV>, c: i32)
    requires
        forall|j: int| 0 <= j < gs.len() ==> gs[j].code != c,
    ensures
        last_value(gs, c) is None,
    decreases gs.len(),
{
    if gs.len() > 0 {
        lemma_last_value_none(gs.drop_last(), c);
    }
}

proof fn lemma_last_value_append(a: Seq<PairV>, b: Seq<PairV>, c: i32)
    ensures
        last_value(a + b, c) == (match last_value(b, c) {
            Some(v) => Some(v),
            None => last_value(a, c),
        }),
    decreases b.len(),
{
    if b.len() == 0 {
        assert(a + b =~= a);
    } else {
        assert((a + b).drop_last() =~= a + b.drop_last());
        lemma_last_value_append(a, b.drop_last(), c);
    }
}

proof fn lemma_select_append(a: Seq<PairV>, b: Seq<PairV>, keep: spec_fn(i32) -> bool)
    ensures
        select(a + b, keep) == select(a, keep) + select(b, keep),
    decreases b.len(),
{
    if b.len() == 0 {
        assert(a + b =~= a);
        assert(select(a, keep) + select(b, keep) =~= select(a, keep));
    } else {
        assert((a + b).drop_last() =~= a + b.drop_last());
        lemma_select_append(a, b.drop_last(), keep);
        assert(select(a + b, keep) =~= select(a, keep) + select(b, keep));
    }
}

proof fn lemma_select_none(a: Seq<PairV>, keep: spec_fn(i32) -> bool)
    requires
        forall|j: int| 0 <= j < a.len() ==> !keep(#[trigger] a[j].code),
    ensures
        select(a, keep) == Seq::<(i32, Seq<char>)>::empty(),
    decreases a.len(),
{
    if a.len() > 0 {
        lemma_select_none(a.drop_last(), keep);
    }
}

proof fn lemma_select_all(a: Seq<PairV>, keep: spec_fn(i32) -> bool)
    requires
        forall|j: int| 0 <= j < a.len() ==> keep(#[trigger] a[j].code),
    ensures
        select(a, keep) == strip(a),
    decreases a.len(),
{
    if a.len() > 0 {
        lemma_select_all(a.drop_last(), keep);
        assert(strip(a) =~= strip(a.drop_last()).push((a.last().code, a.last().value)));
    } else {
        assert(strip(a) =~= Seq::<(i32, Seq<char>)>::empty());
    }
}

proof fn lemma_warnings_none(k: Recipe, a: Seq<PairV>)
    requires
        forall|j: int| 0 <= j < a.len() ==> !bad_group(k, #[trigger] a[j]),
    ensures
        warnings_of(k, a) == Seq::<crate::error::WarningV>::empty(),
    decreases a.len(),
{
    if a.len() > 0 {
        lemma_warnings_none(k, a.drop_last());
    }
}

/// A group whose value is the decimal form of an integer is no bad group.
proof fn lemma_int_group_fine(k: Recipe, g: PairV, n: int)
    requires
        g.value == int_text(n),
        i64::MIN <= n <= i64::MAX,
        !float_code(k, g.code),
    ensures
        !bad_group(k, g),
        int_or_zero(g.value) == n,
{
    lemma_code_text(n);
}

proof fn lemma_strip_subrange(b: Seq<PairV>, lo: int, hi: int)
    requires
        0 <= lo <= hi <= b.len(),
    ensures
        strip(b.subrange(lo, hi)) == strip(b).subrange(lo, hi),
{
    assert(strip(b.subrange(lo, hi)) =~= strip(b).subrange(lo, hi));
}

/// The parts of the props groups: color, linetype, extras, XDATA.
/// The handle group of the props groups.
pub open spec fn handle_part(p: PropsV) -> Seq<(i32, Seq<char>)> {
    match p.handle {
        Some(h) => seq![(5i32, h)],
        None => seq![],
    }
}

pub open spec fn props_parts(p: PropsV) -> (Seq<(i32, Seq<char>)>, Seq<(i32, Seq<char>)>) {
    (
        match p.color {
            Some(c) => seq![(62i32, int_text(c as int))],
            None => seq![],
        },
        match p.linetype {
            Some(t) => seq![(6i32, t)],
            None => seq![],
        },
    )
}

/// Which codes the props groups use.
proof fn lemma_props_codes(k: Recipe, p: PropsV, b: Seq<PairV>)
    requires
        props_ok(k, p),
        strip(b) == props_groups(p),
    ensures
        forall|j: int| 0 <= j < b.len() ==> props_code(k, #[trigger] b[j].code),
        forall|j: int| 0 <= j < b.len() ==> !bad_group(k, #[trigger] b[j]),
        forall|j: int| 0 <= j < b.len() ==> (#[trigger] b[j].code) != 0,
        forall|j: int|
            0 <= j < b.len() ==> {
                &&& ((#[trigger] b[j].code) == 5 ==> j == 0 && p.handle is Some)
                &&& (b[j].code == 62 ==> p.color is Some && j == handle_part(p).len())
                &&& (b[j].code == 6 ==> p.linetype is Some && j == handle_part(p).len() + (
                if p.color is Some {
                    1int
                } else {
                    0
                }))
            },
{
    let hpart = handle_part(p);
    let (cpart, lpart) = props_parts(p);
    let n0 = hpart.len() as int;
    let n1 = n0 + cpart.len();
    let n2 = n1 + lpart.len();
    let n3 = n2 + p.raw_extras.len();
    let pg = hpart + cpart + lpart + p.raw_extras + p.xdata;
    assert(props_groups(p) =~= pg);
    assert forall|j: int| 0 <= j < b.len() implies {
        &&& props_code(k, b[j].code)
        &&& !bad_group(k, b[j])
        &&& b[j].code != 0
        &&& (b[j].code == 5 ==> j == 0 && p.handle is Some)
        &&& (b[j].code == 62 ==> p.color is Some && j == n0)
        &&& (b[j].code == 6 ==> p.linetype is Some && j == n1)
    } by {
        assert(strip(b)[j] == (b[j].code, b[j].value));
        assert(pg[j] == (b[j].code, b[j].value));
        if j < n0 {
            assert(pg[j] == hpart[j]);
        } else if j < n1 {
            assert(pg[j] == cpart[j - n0]);
            lemma_int_group_fine(k, b[j], p.color->Some_0 as int);
        } else if j < n2 {
            assert(pg[j] == lpart[j - n1]);
        } else if j < n3 {
            assert(pg[j] == p.raw_extras[j - n2]);
        } else {
            assert(pg[j] == p.xdata[j - n3]);
        }
    }
}

/// The XDATA and the extra groups that the props groups read back as.
proof fn lemma_props_select(k: Recipe, p: PropsV, b: Seq<PairV>)
    requires
        props_ok(k, p),
        strip(b) == props_groups(p),
    ensures
        select(b, |c: i32| is_xdata_code(c)) == p.xdata,
        select(b, |c: i32| extra_code(k, c)) == p.raw_extras,
{
    let hpart = handle_part(p);
    let (cpart0, lpart) = props_parts(p);
    let cpart = hpart + cpart0;
    let n1 = cpart.len() as int;
    let n2 = n1 + lpart.len();
    let n3 = n2 + p.raw_extras.len();
    let pg = cpart + lpart + p.raw_extras + p.xdata;
    assert(props_groups(p) =~= pg);
    let b1 = b.subrange(0, n1);
    let b2 = b.subrange(n1, n2);
    let b3 = b.subrange(n2, n3);
    let b4 = b.subrange(n3, b.len() as int);
    assert(b =~= b1 + b2 + b3 + b4);
    lemma_strip_subrange(b, 0, n1);
    lemma_strip_subrange(b, n1, n2);
    lemma_strip_subrange(b, n2, n3);
    lemma_strip_subrange(b, n3, b.len() as int);
    assert(pg.subrange(0, n1) =~= cpart);
    assert(pg.subrange(n1, n2) =~= lpart);
    assert(pg.subrange(n2, n3) =~= p.raw_extras);
    assert(pg.subrange(n3, pg.len() as int) =~= p.xdata);
    assert forall|j: int| 0 <= j < b1.len() implies (#[trigger] b1[j]).code == 62 || b1[j].code
        == 5 by {
        assert(strip(b1)[j] == (b1[j].code, b1[j].value));
        if j < hpart.len() {
            assert(cpart[j] == hpart[j]);
        } else {
            assert(cpart[j] == cpart0[j - hpart.len()]);
        }
    }
    assert forall|j: int| 0 <= j < b2.len() implies (#[trigger] b2[j]).code == 6 by {
        assert(strip(b2)[j] == (b2[j].code, b2[j].value));
    }
    assert forall|j: int| 0 <= j < b3.len() implies extra_code(k, (#[trigger] b3[j]).code) by {
        assert(strip(b3)[j] == (b3[j].code, b3[j].value));
        assert(p.raw_extras[j].0 == b3[j].code);
    }
    assert forall|j: int| 0 <= j < b4.len() implies is_xdata_code((#[trigger] b4[j]).code) by {
        assert(strip(b4)[j] == (b4[j].code, b4[j].value));
        assert(p.xdata[j].0 == b4[j].code);
    }
    let xk = |c: i32| is_xdata_code(c);
    let ek = |c: i32| extra_code(k, c);
    lemma_select_append(b1 + b2 + b3, b4, xk);
    lemma_select_append(b1 + b2, b3, xk);
    lemma_select_append(b1, b2, xk);
    lemma_select_append(b1 + b2 + b3, b4, ek);
    lemma_select_append(b1 + b2, b3, ek);
    lemma_select_append(b1, b2, ek);
    lemma_select_none(b1, xk);
    lemma_select_none(b2, xk);
    lemma_select_none(b3, xk);
    lemma_select_all(b4, xk);
    lemma_select_none(b1, ek);
    lemma_select_none(b2, ek);
    lemma_select_all(b3, ek);
    lemma_select_none(b4, ek);
    assert(select(b, xk) =~= p.xdata);
    assert(select(b, ek) =~= p.raw_extras);
}

/// The handle, color and linetype that the props groups read back as.
proof fn lemma_props_fields(k: Recipe, p: PropsV, b: Seq<PairV>)
    requires
        props_ok(k, p),
        strip(b) == props_groups(p),
    ensures
        last_value(b, 5) == p.handle,
        last_value(b, 62) == (match p.color {
            Some(c) => Some(int_text(c as int)),
            None => None,
        }),
        last_value(b, 6) == p.linetype,
{
    lemma_props_codes(k, p, b);
    let hpart = handle_part(p);
    let (cpart, lpart) = props_parts(p);
    let n0 = hpart.len() as int;
    let n1 = n0 + cpart.len();
    let pg = hpart + cpart + lpart + p.raw_extras + p.xdata;
    assert(props_groups(p) =~= pg);
    assert(strip(b).len() == b.len());
    assert(pg.len() == n1 + lpart.len() + p.raw_extras.len() + p.xdata.len());
    if n0 > 0 {
        assert(strip(b)[0] == (b[0].code, b[0].value));
        assert(pg[0] == hpart[0]);
        lemma_last_value_at(b, 5, 0);
    } else {
        lemma_last_value_none(b, 5);
    }
    if cpart.len() > 0 {
        assert(strip(b)[n0] == (b[n0].code, b[n0].value));
        assert(pg[n0] == cpart[0]);
        lemma_last_value_at(b, 62, n0);
    } else {
        lemma_last_value_none(b, 62);
    }
    if lpart.len() > 0 {
        assert(strip(b)[n1] == (b[n1].code, b[n1].value));
        assert(pg[n1] == lpart[0]);
        lemma_last_value_at(b, 6, n1);
    } else {
        lemma_last_value_none(b, 6);
    }
}

/// Each group and its stripped pair.
proof fn lemma_strip_index(gs: Seq<PairV>)
    ensures
        strip(gs).len() == gs.len(),
        forall|j: int|
            0 <= j < gs.len() ==> strip(gs)[j] == ((#[trigger] gs[j]).code, gs[j].value),
{
}

/// Splitting the groups of an entity where its props groups start.
proof fn lemma_split(
    gs: Seq<PairV>,
    head: Seq<(i32, Seq<char>)>,
    tail: Seq<(i32, Seq<char>)>,
) -> (ab: (Seq<PairV>, Seq<PairV>))
    requires
        strip(gs) == head + tail,
    ensures
        gs == ab.0 + ab.1,
        strip(ab.0) == head,
        strip(ab.1) == tail,
        ab.0.len() == head.len(),
        forall|j: int|
            0 <= j < head.len() ==> (#[trigger] ab.0[j]).code == head[j].0 && ab.0[j].value
                == head[j].1,
{
    lemma_strip_index(gs);
    let n = head.len() as int;
    let a = gs.take(n);
    let b = gs.skip(n);
    assert(gs =~= a + b);
    assert(strip(a) =~= head);
    assert(strip(b) =~= tail);
    lemma_strip_index(a);
    (a, b)
}

/// The value of a field whose group is the last of its code in the head
/// and whose code the props groups do not use.
proof fn lemma_field(a: Seq<PairV>, b: Seq<PairV>, c: i32, i: int)
    requires
        0 <= i < a.len(),
        a[i].code == c,
        forall|j: int| i < j < a.len() ==> a[j].code != c,
        forall|j: int| 0 <= j < b.len() ==> (#[trigger] b[j]).code != c,
    ensures
        last_value(a + b, c) == Some(a[i].value),
{
    lemma_last_value_at(a, c, i);
    lemma_last_value_none(b, c);
    lemma_last_value_append(a, b, c);
}

/// A code that neither part uses.
proof fn lemma_no_field(a: Seq<PairV>, b: Seq<PairV>, c: i32)
    requires
        forall|j: int| 0 <= j < a.len() ==> (#[trigger] a[j]).code != c,
        forall|j: int| 0 <= j < b.len() ==> (#[trigger] b[j]).code != c,
    ensures
        last_value(a + b, c) is None,
{
    lemma_last_value_none(a, c);
    lemma_last_value_none(b, c);
    lemma_last_value_append(a, b, c);
}

/// The props and warnings of an entity whose head uses none of the props
/// codes but extra ones, and whose head values the recipe can read.
proof fn lemma_entity_props(k: Recipe, p: PropsV, a: Seq<PairV>, b: Seq<PairV>)
    requires
        props_ok(k, p),
        strip(b) == props_groups(p),
        forall|j: int|
            0 <= j < a.len() ==> {
                let c = (#[trigger] a[j]).code;
                &&& c != 5 && c != 62 && c != 6
                &&& !is_xdata_code(c)
                &&& !bad_group(k, a[j])
            },
    ensures
        props_of(k, a + b) == (PropsV {
            raw_extras: select(a, |c: i32| extra_code(k, c)) + p.raw_extras,
            ..p
        }),
        warnings_of(k, a + b) == Seq::<crate::error::WarningV>::empty(),
        forall|j: int| 0 <= j < b.len() ==> props_code(k, #[trigger] b[j].code),
{
    lemma_props_codes(k, p, b);
    lemma_props_select(k, p, b);
    lemma_props_fields(k, p, b);
    lemma_last_value_none(a, 5);
    lemma_last_value_none(a, 62);
    lemma_last_value_none(a, 6);
    lemma_last_value_append(a, b, 5);
    lemma_last_value_append(a, b, 62);
    lemma_last_value_append(a, b, 6);
    let xk = |c: i32| is_xdata_code(c);
    let ek = |c: i32| extra_code(k, c);
    lemma_select_append(a, b, xk);
    lemma_select_append(a, b, ek);
    lemma_select_none(a, xk);
    assert(select(a, xk) + p.xdata =~= p.xdata);
    let g = a + b;
    assert forall|j: int| 0 <= j < g.len() implies !bad_group(k, #[trigger] g[j]) by {
        if j >= a.len() {
            assert(g[j] == b[j - a.len()]);
        }
    }
    lemma_warnings_none(k, g);
    match p.color {
        Some(c) => {
            lemma_code_text(c as int);
            assert(int_or_zero(int_text(c as int)) == c as i64);
        },
        None => {},
    }
    assert(props_of(k, a + b) =~= (PropsV {
        raw_extras: select(a, ek) + p.raw_extras,
        ..p
    }));
}

/// Props with no extra groups from the head.
proof fn lemma_no_head_extras(k: Recipe, a: Seq<PairV>)
    requires
        forall|j: int| 0 <= j < a.len() ==> !extra_code(k, (#[trigger] a[j]).code),
    ensures
        select(a, |c: i32| extra_code(k, c)) == Seq::<(i32, Seq<char>)>::empty(),
{
    lemma_select_none(a, |c: i32| extra_code(k, c));
}

/// A number field read back.
proof fn lemma_num_field(a: Seq<PairV>, b: Seq<PairV>, c: i32, i: int)
    requires
        0 <= i < a.len(),
        a[i].code == c,
        num_ok(a[i].value),
        forall|j: int| i < j < a.len() ==> a[j].code != c,
        forall|j: int| 0 <= j < b.len() ==> (#[trigger] b[j]).code != c,
    ensures
        crate::builders::num_field(a + b, c, seq!['0']) == a[i].value,
        crate::builders::num_field(a + b, c, seq!['1']) == a[i].value,
{
    lemma_field(a, b, c, i);
}

/// The recipe of each entity type that has one.
pub proof fn lemma_recipes()
    ensures
        recipe_of("LINE"@) == Some(Recipe::Line),
        recipe_of("CIRCLE"@) == Some(Recipe::Circle),
        recipe_of("ARC"@) == Some(Recipe::Arc),
        recipe_of("LWPOLYLINE"@) == Some(Recipe::LwPolyline),
        recipe_of("TEXT"@) == Some(Recipe::Text),
        recipe_of("MTEXT"@) == Some(Recipe::MText),
        recipe_of("INSERT"@) == Some(Recipe::Insert),
        recipe_of("DIMENSION"@) == Some(Recipe::Dimension),
{
    reveal_strlit("LINE");
    reveal_strlit("CIRCLE");
    reveal_strlit("ARC");
    reveal_strlit("LWPOLYLINE");
    reveal_strlit("TEXT");
    reveal_strlit("MTEXT");
    reveal_strlit("INSERT");
    reveal_strlit("DIMENSION");
    assert("LINE"@.len() == 4 && "LINE"@[0] == 'L');
    assert("CIRCLE"@.len() == 6 && "CIRCLE"@[0] == 'C');
    assert("ARC"@.len() == 3);
    assert("LWPOLYLINE"@.len() == 10);
    assert("TEXT"@.len() == 4 && "TEXT"@[0] == 'T');
    assert("MTEXT"@.len() == 5);
    assert("INSERT"@.len() == 6 && "INSERT"@[0] == 'I');
    assert("DIMENSION"@.len() == 9);
}

pub open spec fn line_ok(e: EntityV) -> bool {
    match e {
        EntityV::Line { p1, p2, layer, props } => point_ok(p1) && point_ok(p2) && stable(layer)
            && props_ok(Recipe::Line, props),
        _ => false,
    }
}

pub proof fn lemma_line_round_trip(e: EntityV, gs: Seq<PairV>)
    requires
        line_ok(e),
        strip(gs) == emit_groups(e).drop_first(),
    ensures
        spec_build_entity("LINE"@, gs) == e,
        entity_warnings("LINE"@, gs).len() == 0,
{
    match e {
        EntityV::Line { p1, p2, layer, props } => {
            let k = Recipe::Line;
            let head = seq![
                (8i32, layer),
                (100i32, "AcDbEntity"@),
                (100i32, "AcDbLine"@),
                (10i32, p1.x),
                (20i32, p1.y),
                (30i32, p1.z),
                (11i32, p2.x),
                (21i32, p2.y),
                (31i32, p2.z),
            ];
            assert(emit_groups(e).drop_first() =~= head + props_groups(props));
            let (a, b) = lemma_split(gs, head, props_groups(props));
            lemma_entity_props(k, props, a, b);
            lemma_no_head_extras(k, a);
            assert(select(a, |c: i32| extra_code(k, c)) + props.raw_extras =~= props.raw_extras);
            lemma_field(a, b, 8, 0);
            lemma_num_field(a, b, 10, 3);
            lemma_num_field(a, b, 20, 4);
            lemma_num_field(a, b, 30, 5);
            lemma_num_field(a, b, 11, 6);
            lemma_num_field(a, b, 21, 7);
            lemma_num_field(a, b, 31, 8);
            assert(spec_build_entity("LINE"@, a + b) =~= e);
        },
        _ => {},
    }
}

/// One group of the head is kept among the extras.
proof fn lemma_select_one(a: Seq<PairV>, keep: spec_fn(i32) -> bool, i: int)
    requires
        0 <= i < a.len(),
        keep(a[i].code),
        forall|j: int| 0 <= j < a.len() && j != i ==> !keep(#[trigger] a[j].code),
    ensures
        select(a, keep) == seq![(a[i].code, a[i].value)],
    decreases a.len(),
{
    if i == a.len() - 1 {
        lemma_select_none(a.drop_last(), keep);
    } else {
        lemma_select_one(a.drop_last(), keep, i);
    }
}

/// A rotation read back: written where there is one, read as none where
/// no group gives it.
proof fn lemma_rotation(a: Seq<PairV>, b: Seq<PairV>, r: Option<Seq<char>>, i: int)
    requires
        angle_ok(r),
        r is None ==> forall|j: int| 0 <= j < a.len() ==> (#[trigger] a[j]).code != 50,
        r matches Some(t) ==> 0 <= i < a.len() && a[i].code == 50 && a[i].value == t && forall|
            j: int,
        |
            i < j < a.len() ==> a[j].code != 50,
        forall|j: int| 0 <= j < b.len() ==> (#[trigger] b[j]).code != 50,
    ensures
        crate::builders::opt_num_field(a + b, 50) == r,
{
    match r {
        None => {
            lemma_no_field(a, b, 50);
        },
        Some(t) => {
            lemma_field(a, b, 50, i);
        },
    }
}

pub open spec fn circle_ok(e: EntityV) -> bool {
    match e {
        EntityV::Circle { center, radius, layer, props } => point_ok(center) && num_ok(radius)
            && stable(layer) && props_ok(Recipe::Circle, props),
        _ => false,
    }
}

pub proof fn lemma_circle_round_trip(e: EntityV, gs: Seq<PairV>)
    requires
        circle_ok(e),
        strip(gs) == emit_groups(e).drop_first(),
    ensures
        spec_build_entity("CIRCLE"@, gs) == e,
        entity_warnings("CIRCLE"@, gs).len() == 0,
{
    match e {
        EntityV::Circle { center, radius, layer, props } => {
            let k = Recipe::Circle;
            let head = seq![
                (8i32, layer),
                (100i32, "AcDbEntity"@),
                (100i32, "AcDbCircle"@),
                (10i32, center.x),
                (20i32, center.y),
                (30i32, center.z),
                (40i32, radius),
            ];
            assert(emit_groups(e).drop_first() =~= head + props_groups(props));
            let (a, b) = lemma_split(gs, head, props_groups(props));
            lemma_entity_props(k, props, a, b);
            lemma_no_head_extras(k, a);
            assert(select(a, |c: i32| extra_code(k, c)) + props.raw_extras =~= props.raw_extras);
            lemma_field(a, b, 8, 0);
            lemma_num_field(a, b, 10, 3);
            lemma_num_field(a, b, 20, 4);
            lemma_num_field(a, b, 30, 5);
            lemma_num_field(a, b, 40, 6);
            lemma_recipes();
            assert(spec_build_entity("CIRCLE"@, a + b) =~= e);
        },
        _ => {},
    }
}

pub open spec fn arc_ok(e: EntityV) -> bool {
    match e {
        EntityV::Arc { center, radius, start_angle, end_angle, layer, props } => point_ok(center)
            && num_ok(radius) && num_ok(start_angle) && num_ok(end_angle) && stable(layer)
            && props_ok(Recipe::Arc, props),
        _ => false,
    }
}

pub proof fn lemma_arc_round_trip(e: EntityV, gs: Seq<PairV>)
    requires
        arc_ok(e),
        strip(gs) == emit_groups(e).drop_first(),
    ensures
        spec_build_entity("ARC"@, gs) == e,
        entity_warnings("ARC"@, gs).len() == 0,
{
    match e {
        EntityV::Arc { center, radius, start_angle, end_angle, layer, props } => {
            let k = Recipe::Arc;
            let head = seq![
                (8i32, layer),
                (100i32, "AcDbEntity"@),
                (100i32, "AcDbCircle"@),
                (10i32, center.x),
                (20i32, center.y),
                (30i32, center.z),
                (40i32, radius),
                (100i32, "AcDbArc"@),
                (50i32, start_angle),
                (51i32, end_angle),
            ];
            assert(emit_groups(e).drop_first() =~= head + props_groups(props));
            let (a, b) = lemma_split(gs, head, props_groups(props));
            lemma_entity_props(k, props, a, b);
            lemma_no_head_extras(k, a);
            assert(select(a, |c: i32| extra_code(k, c)) + props.raw_extras =~= props.raw_extras);
            lemma_field(a, b, 8, 0);
            lemma_num_field(a, b, 10, 3);
            lemma_num_field(a, b, 20, 4);
            lemma_num_field(a, b, 30, 5);
            lemma_num_field(a, b, 40, 6);
            lemma_num_field(a, b, 50, 8);
            lemma_num_field(a, b, 51, 9);
            lemma_recipes();
            assert(spec_build_entity("ARC"@, a + b) =~= e);
        },
        _ => {},
    }
}

pub open spec fn insert_ok(e: EntityV) -> bool {
    match e {
        EntityV::Insert {
            block_name,
            position,
            scale_x,
            scale_y,
            scale_z,
            rotation,
            layer,
            props,
        } => stable(block_name) && point_ok(position) && num_ok(scale_x) && num_ok(scale_y)
            && num_ok(scale_z) && angle_ok(rotation) && stable(layer) && props_ok(
            Recipe::Insert,
            props,
        ),
        _ => false,
    }
}

pub proof fn lemma_insert_round_trip(e: EntityV, gs: Seq<PairV>)
    requires
        insert_ok(e),
        strip(gs) == emit_groups(e).drop_first(),
    ensures
        spec_build_entity("INSERT"@, gs) == e,
        entity_warnings("INSERT"@, gs).len() == 0,
{
    match e {
        EntityV::Insert {
            block_name,
            position,
            scale_x,
            scale_y,
            scale_z,
            rotation,
            layer,
            props,
        } => {
            let k = Recipe::Insert;
            let head = seq![
                (8i32, layer),
                (100i32, "AcDbEntity"@),
                (100i32, "AcDbBlockReference"@),
                (2i32, block_name),
                (10i32, position.x),
                (20i32, position.y),
                (30i32, position.z),
                (41i32, scale_x),
                (42i32, scale_y),
                (43i32, scale_z),
            ] + rotation_group(rotation);
            assert(emit_groups(e).drop_first() =~= head + props_groups(props));
            let (a, b) = lemma_split(gs, head, props_groups(props));
            lemma_entity_props(k, props, a, b);
            lemma_no_head_extras(k, a);
            assert(select(a, |c: i32| extra_code(k, c)) + props.raw_extras =~= props.raw_extras);
            lemma_field(a, b, 8, 0);
            lemma_field(a, b, 2, 3);
            lemma_num_field(a, b, 10, 4);
            lemma_num_field(a, b, 20, 5);
            lemma_num_field(a, b, 30, 6);
            lemma_num_field(a, b, 41, 7);
            lemma_num_field(a, b, 42, 8);
            lemma_num_field(a, b, 43, 9);
            lemma_rotation(a, b, rotation, 10);
            lemma_recipes();
            assert(spec_build_entity("INSERT"@, a + b) =~= e);
        },
        _ => {},
    }
}

proof fn lemma_joined_append(a: Seq<PairV>, b: Seq<PairV>)
    ensures
        joined_text(a + b) == joined_text(a) + joined_text(b),
    decreases b.len(),
{
    if b.len() == 0 {
        assert(a + b =~= a);
        assert(joined_text(a) + joined_text(b) =~= joined_text(a));
    } else {
        assert((a + b).drop_last() =~= a + b.drop_last());
        lemma_joined_append(a, b.drop_last());
        assert(joined_text(a + b) =~= joined_text(a) + joined_text(b));
    }
}

proof fn lemma_joined_none(a: Seq<PairV>)
    requires
        forall|j: int| 0 <= j < a.len() ==> (#[trigger] a[j]).code != 1 && a[j].code != 3,
    ensures
        joined_text(a) == Seq::<char>::empty(),
    decreases a.len(),
{
    if a.len() > 0 {
        lemma_joined_none(a.drop_last());
    }
}

proof fn lemma_joined_one(a: Seq<PairV>, i: int)
    requires
        0 <= i < a.len(),
        a[i].code == 1,
        forall|j: int| 0 <= j < a.len() && j != i ==> (#[trigger] a[j]).code != 1 && a[j].code != 3,
    ensures
        joined_text(a) == a[i].value,
    decreases a.len(),
{
    if i == a.len() - 1 {
        lemma_joined_none(a.drop_last());
        assert(Seq::<char>::empty() + a[i].value =~= a[i].value);
    } else {
        lemma_joined_one(a.drop_last(), i);
    }
}

/// What the emitter writes for an entity, read back: the entity itself,
/// except that a TEXT that carries no text style (7) among its extra groups
/// keeps the default style there, in front of the others.
pub open spec fn read_back(e: EntityV) -> EntityV {
    match e {
        EntityV::Text { position, value, height, rotation, layer, props } => EntityV::Text {
            position,
            value,
            height,
            rotation,
            layer,
            props: PropsV { raw_extras: style_group(props) + props.raw_extras, ..props },
        },
        _ => e,
    }
}

pub open spec fn text_ok(e: EntityV) -> bool {
    match e {
        EntityV::Text { position, value, height, rotation, layer, props } => point_ok(position)
            && stable(value) && num_ok(height) && angle_ok(rotation) && stable(layer) && props_ok(
            Recipe::Text,
            props,
        ),
        _ => false,
    }
}

pub proof fn lemma_text_round_trip(e: EntityV, gs: Seq<PairV>)
    requires
        text_ok(e),
        strip(gs) == emit_groups(e).drop_first(),
    ensures
        spec_build_entity("TEXT"@, gs) == read_back(e),
        entity_warnings("TEXT"@, gs).len() == 0,
{
    match e {
        EntityV::Text { position, value, height, rotation, layer, props } => {
            let k = Recipe::Text;
            let rot = rotation_group(rotation);
            let head = seq![
                (8i32, layer),
                (100i32, "AcDbEntity"@),
                (100i32, "AcDbText"@),
                (10i32, position.x),
                (20i32, position.y),
                (30i32, position.z),
                (40i32, height),
                (1i32, value),
            ] + rot + style_group(props);
            assert(emit_groups(e).drop_first() =~= head + props_groups(props));
            let (a, b) = lemma_split(gs, head, props_groups(props));
            lemma_entity_props(k, props, a, b);
            let ek = |c: i32| extra_code(k, c);
            if style_group(props).len() > 0 {
                lemma_select_one(a, ek, 8 + rot.len() as int);
            } else {
                lemma_no_head_extras(k, a);
                assert(select(a, ek) + props.raw_extras =~= style_group(props) + props.raw_extras);
            }
            lemma_field(a, b, 8, 0);
            lemma_num_field(a, b, 10, 3);
            lemma_num_field(a, b, 20, 4);
            lemma_num_field(a, b, 30, 5);
            lemma_num_field(a, b, 40, 6);
            lemma_field(a, b, 1, 7);
            lemma_rotation(a, b, rotation, 8);
            lemma_recipes();
            assert(spec_build_entity("TEXT"@, a + b) =~= read_back(e));
        },
        _ => {},
    }
}

pub open spec fn mtext_ok(e: EntityV) -> bool {
    match e {
        EntityV::MText { position, value, height, rotation, attachment_point, layer, props } =>
            point_ok(position) && stable(value) && num_ok(height) && angle_ok(rotation) && stable(
            layer,
        ) && props_ok(Recipe::MText, props),
        _ => false,
    }
}

pub proof fn lemma_mtext_round_trip(e: EntityV, gs: Seq<PairV>)
    requires
        mtext_ok(e),
        strip(gs) == emit_groups(e).drop_first(),
    ensures
        spec_build_entity("MTEXT"@, gs) == e,
        entity_warnings("MTEXT"@, gs).len() == 0,
{
    match e {
        EntityV::MText { position, value, height, rotation, attachment_point, layer, props } => {
            let k = Recipe::MText;
            let rot = rotation_group(rotation);
            lemma_code_text(attachment_point as int);
            let head = seq![
                (8i32, layer),
                (100i32, "AcDbEntity"@),
                (100i32, "AcDbMText"@),
                (10i32, position.x),
                (20i32, position.y),
                (30i32, position.z),
                (40i32, height),
                (71i32, int_text(attachment_point as int)),
                (1i32, value),
            ] + rot;
            assert(emit_groups(e).drop_first() =~= head + props_groups(props));
            let (a, b) = lemma_split(gs, head, props_groups(props));
            lemma_entity_props(k, props, a, b);
            lemma_no_head_extras(k, a);
            assert(select(a, |c: i32| extra_code(k, c)) + props.raw_extras =~= props.raw_extras);
            lemma_field(a, b, 8, 0);
            lemma_num_field(a, b, 10, 3);
            lemma_num_field(a, b, 20, 4);
            lemma_num_field(a, b, 30, 5);
            lemma_num_field(a, b, 40, 6);
            lemma_field(a, b, 71, 7);
            lemma_joined_one(a, 8);
            lemma_joined_none(b);
            lemma_joined_append(a, b);
            assert(joined_text(a) + joined_text(b) =~= value);
            lemma_rotation(a, b, rotation, 9);
            lemma_recipes();
            assert(spec_build_entity("MTEXT"@, a + b) =~= e);
        },
        _ => {},
    }
}

/// The LWPOLYLINE vertex assembly, from state `s` on.
pub open spec fn lw_run(s: crate::builders::LwState, gs: Seq<PairV>) -> crate::builders::LwState
    decreases gs.len(),
{
    if gs.len() == 0 {
        s
    } else {
        lw_step(lw_run(s, gs.drop_last()), gs.last())
    }
}

proof fn lemma_lw_fold_run(gs: Seq<PairV>)
    ensures
        lw_fold(gs) == lw_run(lw_start(), gs),
    decreases gs.len(),
{
    if gs.len() > 0 {
        lemma_lw_fold_run(gs.drop_last());
    }
}

proof fn lemma_lw_run_append(s: crate::builders::LwState, a: Seq<PairV>, b: Seq<PairV>)
    ensures
        lw_run(s, a + b) == lw_run(lw_run(s, a), b),
    decreases b.len(),
{
    if b.len() == 0 {
        assert(a + b =~= a);
    } else {
        assert((a + b).drop_last() =~= a + b.drop_last());
        lemma_lw_run_append(s, a, b.drop_last());
    }
}

proof fn lemma_lw_run_idle(s: crate::builders::LwState, a: Seq<PairV>)
    requires
        forall|j: int|
            0 <= j < a.len() ==> (#[trigger] a[j]).code != 10 && a[j].code != 20 && a[j].code
                != 42,
    ensures
        lw_run(s, a) == s,
    decreases a.len(),
{
    if a.len() > 0 {
        lemma_lw_run_idle(s, a.drop_last());
    }
}

proof fn lemma_lw_run_one(s: crate::builders::LwState, p: PairV)
    ensures
        lw_run(s, seq![p]) == lw_step(s, p),
{
    let one = seq![p];
    assert(one.len() == 1);
    assert(one.drop_last() =~= Seq::<PairV>::empty());
    assert(one.last() == p);
    assert(lw_run(s, one.drop_last()) == s);
}

/// Vertices and bulges of an LWPOLYLINE that read back as themselves:
/// number coordinates, z `0` (the emitter writes no z), one bulge (or
/// none) per vertex.
pub open spec fn lw_vertices_ok(vs: Seq<PointV>, bs: Seq<Option<Seq<char>>>) -> bool {
    &&& bs.len() == vs.len()
    &&& forall|i: int|
        #![trigger vs[i]]
        0 <= i < vs.len() ==> num_ok(vs[i].x) && num_ok(vs[i].y) && vs[i].z == seq!['0']
    &&& forall|i: int| #![trigger bs[i]] 0 <= i < bs.len() ==> angle_ok(bs[i])
}

/// The assembly state after the groups of the first `n` vertices.
pub open spec fn lw_after(vs: Seq<PointV>, bs: Seq<Option<Seq<char>>>, n: int) -> crate::builders::LwState {
    if n == 0 {
        lw_start()
    } else {
        crate::builders::LwState {
            vertices: vs.take(n - 1),
            bulges: bs.take(n - 1),
            x: Some(vs[n - 1].x),
            y: Some(vs[n - 1].y),
            bulge: bs[n - 1],
        }
    }
}

/// The vertex groups use codes 10, 20 and 42, with number values.
proof fn lemma_lw_groups(vs: Seq<PointV>, bs: Seq<Option<Seq<char>>>)
    requires
        lw_vertices_ok(vs, bs),
    ensures
        forall|j: int|
            0 <= j < crate::writer::lw_vertex_groups(vs, bs).len() ==> {
                let g = #[trigger] crate::writer::lw_vertex_groups(vs, bs)[j];
                &&& g.0 == 10 || g.0 == 20 || g.0 == 42
                &&& num_ok(g.1)
            },
    decreases vs.len(),
{
    if vs.len() > 0 {
        let i = vs.len() - 1;
        let init = vs.drop_last();
        let bs2 = bs.take(i);
        assert(lw_vertices_ok(init, bs2)) by {
            assert forall|k: int| 0 <= k < init.len() implies num_ok(init[k].x) && num_ok(
                init[k].y,
            ) && init[k].z == seq!['0'] by {
                assert(init[k] == vs[k]);
            }
            assert forall|k: int| 0 <= k < bs2.len() implies angle_ok(bs2[k]) by {
                assert(bs2[k] == bs[k]);
            }
        }
        lemma_lw_groups(init, bs2);
        lemma_lw_groups_prefix(init, bs, bs2);
        let g0 = crate::writer::lw_vertex_groups(init, bs);
        let tail = seq![(10i32, vs.last().x), (20i32, vs.last().y)] + if i < bs.len()
            && bs[i] is Some {
            seq![(42i32, bs[i]->0)]
        } else {
            seq![]
        };
        assert(crate::writer::lw_vertex_groups(vs, bs) =~= g0 + tail);
        assert(vs.last() == vs[i]);
        assert(angle_ok(bs[i]));
        assert forall|j: int| 0 <= j < (g0 + tail).len() implies {
            let g = #[trigger] (g0 + tail)[j];
            &&& g.0 == 10 || g.0 == 20 || g.0 == 42
            &&& num_ok(g.1)
        } by {
            if j >= g0.len() {
                assert((g0 + tail)[j] == tail[j - g0.len()]);
            } else {
                assert((g0 + tail)[j] == g0[j]);
            }
        }
    }
}

/// The vertex groups do not look at the bulges of later vertices.
proof fn lemma_lw_groups_prefix(vs: Seq<PointV>, bs: Seq<Option<Seq<char>>>, bs2: Seq<Option<Seq<char>>>)
    requires
        vs.len() <= bs2.len() <= bs.len(),
        bs2 == bs.take(bs2.len() as int),
    ensures
        crate::writer::lw_vertex_groups(vs, bs) == crate::writer::lw_vertex_groups(vs, bs2),
    decreases vs.len(),
{
    if vs.len() > 0 {
        lemma_lw_groups_prefix(vs.drop_last(), bs, bs2);
        assert(bs[vs.len() - 1] == bs2[vs.len() - 1]);
    }
}

/// Reading the groups of the first `n` vertices.
proof fn lemma_lw_vertices(vs: Seq<PointV>, bs: Seq<Option<Seq<char>>>, n: int, gs: Seq<PairV>)
    requires
        lw_vertices_ok(vs, bs),
        0 <= n <= vs.len(),
        strip(gs) == crate::writer::lw_vertex_groups(vs.take(n), bs),
    ensures
        lw_run(lw_start(), gs) == lw_after(vs, bs, n),
    decreases n,
{
    lemma_strip_index(gs);
    if n == 0 {
        assert(gs.len() == 0);
    } else {
        let i = n - 1;
        let t = vs.take(n);
        assert(t.drop_last() =~= vs.take(i));
        assert(t.last() == vs[i]);
        let g0 = crate::writer::lw_vertex_groups(vs.take(i), bs);
        let bpart: Seq<(i32, Seq<char>)> = if bs[i] is Some {
            seq![(42i32, bs[i]->0)]
        } else {
            seq![]
        };
        let tail = seq![(10i32, vs[i].x), (20i32, vs[i].y)] + bpart;
        assert(crate::writer::lw_vertex_groups(t, bs) =~= g0 + tail);
        let (a, b) = lemma_split(gs, g0, tail);
        lemma_lw_vertices(vs, bs, i, a);
        lemma_lw_run_append(lw_start(), a, b);
        let s0 = lw_after(vs, bs, i);
        let b01 = b.take(2);
        let b2 = b.skip(2);
        assert(b =~= b01 + b2);
        assert(b01 =~= seq![b[0]] + seq![b[1]]);
        lemma_strip_index(b);
        assert(strip(b)[0] == tail[0]);
        assert(strip(b)[1] == tail[1]);
        lemma_lw_run_append(s0, b01, b2);
        lemma_lw_run_append(s0, seq![b[0]], seq![b[1]]);
        lemma_lw_run_one(s0, b[0]);
        let s1 = lw_step(s0, b[0]);
        lemma_lw_run_one(s1, b[1]);
        let s2 = lw_step(s1, b[1]);
        assert(num_ok(vs[i].x) && num_ok(vs[i].y));
        assert(angle_ok(bs[i]));
        if i > 0 {
            assert(vs[i - 1].z == seq!['0']);
            assert(vs.take(i - 1).push(
                PointV { x: vs[i - 1].x, y: vs[i - 1].y, z: seq!['0'] },
            ) =~= vs.take(i));
            assert(bs.take(i - 1).push(bs[i - 1]) =~= bs.take(i));
        } else {
            assert(vs.take(0) =~= Seq::<PointV>::empty());
            assert(bs.take(0) =~= Seq::<Option<Seq<char>>>::empty());
        }
        if bs[i] is Some {
            assert(b2 =~= seq![b[2]]);
            assert(strip(b)[2] == tail[2]);
            lemma_lw_run_one(s2, b[2]);
        } else {
            assert(b2.len() == 0);
            assert(b2 =~= Seq::<PairV>::empty());
        }
        assert(lw_run(lw_start(), gs) =~~= lw_after(vs, bs, n));
    }
}

pub open spec fn lwpolyline_ok(e: EntityV) -> bool {
    match e {
        EntityV::LwPolyline { vertices, bulges, closed, layer, props } => lw_vertices_ok(
            vertices,
            bulges,
        ) && stable(layer) && props_ok(Recipe::LwPolyline, props),
        _ => false,
    }
}

pub proof fn lemma_lwpolyline_round_trip(e: EntityV, gs: Seq<PairV>)
    requires
        lwpolyline_ok(e),
        strip(gs) == emit_groups(e).drop_first(),
    ensures
        spec_build_entity("LWPOLYLINE"@, gs) == read_back(e),
        entity_warnings("LWPOLYLINE"@, gs).len() == 0,
{
    match e {
        EntityV::LwPolyline { vertices, bulges, closed, layer, props } => {
            let k = Recipe::LwPolyline;
            let n = vertices.len() as int;
            reveal_strlit("1");
            reveal_strlit("0");
            lemma_code_text(n);
            lemma_code_text(1);
            lemma_code_text(0);
            assert("1"@ == int_text(1));
            assert("0"@ == int_text(0));
            let flag: Seq<char> = if closed {
                "1"@
            } else {
                "0"@
            };
            let vg = crate::writer::lw_vertex_groups(vertices, bulges);
            let pre = seq![
                (8i32, layer),
                (100i32, "AcDbEntity"@),
                (100i32, "AcDbPolyline"@),
                (90i32, int_text(n)),
                (70i32, flag),
            ];
            let head = pre + vg;
            assert(emit_groups(e).drop_first() =~= head + props_groups(props));
            let (a, b) = lemma_split(gs, head, props_groups(props));
            lemma_lw_groups(vertices, bulges);
            assert forall|j: int| 0 <= j < a.len() implies {
                let c = (#[trigger] a[j]).code;
                &&& c != 5 && c != 62 && c != 6
                &&& !is_xdata_code(c)
                &&& !bad_group(k, a[j])
                &&& !extra_code(k, c)
            } by {
                if j >= 5 {
                    assert(head[j] == vg[j - 5]);
                }
            }
            lemma_entity_props(k, props, a, b);
            let ek = |c: i32| extra_code(k, c);
            lemma_no_head_extras(k, a);
            assert(select(a, ek) + props.raw_extras =~= props.raw_extras);
            lemma_field(a, b, 8, 0);
            lemma_field(a, b, 70, 4);
            // The vertices.
            let (a1, a2) = lemma_split(a, pre, vg);
            assert(vertices.take(n) =~= vertices);
            lemma_lw_vertices(vertices, bulges, n, a2);
            lemma_lw_run_idle(lw_start(), a1);
            lemma_lw_run_append(lw_start(), a1, a2);
            lemma_lw_run_idle(lw_run(lw_start(), a), b);
            lemma_lw_run_append(lw_start(), a, b);
            lemma_lw_fold_run(a + b);
            if n > 0 {
                assert(vertices.take(n - 1).push(
                    PointV { x: vertices[n - 1].x, y: vertices[n - 1].y, z: seq!['0'] },
                ) =~= vertices);
                assert(bulges.take(n - 1).push(bulges[n - 1]) =~= bulges);
            } else {
                assert(vertices =~= Seq::<PointV>::empty());
                assert(bulges =~= Seq::<Option<Seq<char>>>::empty());
            }
            lemma_recipes();
            assert(spec_build_entity("LWPOLYLINE"@, a + b) =~= read_back(e));
        },
        _ => {},
    }
}

/// The defining points of a DIMENSION with five points, written out.
pub open spec fn five_point_groups(ps: Seq<PointV>) -> Seq<(i32, Seq<char>)> {
    seq![
        (10i32, ps[0].x),
        (20i32, ps[0].y),
        (30i32, ps[0].z),
        (11i32, ps[1].x),
        (21i32, ps[1].y),
        (31i32, ps[1].z),
        (12i32, ps[2].x),
        (22i32, ps[2].y),
        (32i32, ps[2].z),
        (13i32, ps[3].x),
        (23i32, ps[3].y),
        (33i32, ps[3].z),
        (14i32, ps[4].x),
        (24i32, ps[4].y),
        (34i32, ps[4].z),
    ]
}

proof fn lemma_five_points(ps: Seq<PointV>)
    requires
        ps.len() == 5,
    ensures
        crate::writer::dim_point_groups(ps) == five_point_groups(ps),
{
    let p4 = ps.take(4);
    let p3 = ps.take(3);
    let p2 = ps.take(2);
    let p1 = ps.take(1);
    let p0 = ps.take(0);
    assert(ps.drop_last() =~= p4);
    assert(p4.drop_last() =~= p3);
    assert(p3.drop_last() =~= p2);
    assert(p2.drop_last() =~= p1);
    assert(p1.drop_last() =~= p0);
    let g0 = crate::writer::dim_point_groups(p0);
    assert(g0 =~= Seq::<(i32, Seq<char>)>::empty());
    let g1 = crate::writer::dim_point_groups(p1);
    assert(g1 =~= g0 + point_groups(ps[0], 10, 20, 30));
    let g2 = crate::writer::dim_point_groups(p2);
    assert(g2 =~= g1 + point_groups(ps[1], 11, 21, 31));
    let g3 = crate::writer::dim_point_groups(p3);
    assert(g3 =~= g2 + point_groups(ps[2], 12, 22, 32));
    let g4 = crate::writer::dim_point_groups(p4);
    assert(g4 =~= g3 + point_groups(ps[3], 13, 23, 33));
    let g5 = crate::writer::dim_point_groups(ps);
    assert(g5 =~= g4 + point_groups(ps[4], 14, 24, 34));
    assert(g5 =~= five_point_groups(ps));
}

pub open spec fn dim_point_code(c: i32) -> bool {
    (10 <= c <= 14) || (20 <= c <= 24) || (30 <= c <= 34)
}

/// The defining points read back from their groups.
proof fn lemma_dim_points_region(ps: Seq<PointV>, g: Seq<PairV>)
    requires
        ps.len() == 5,
        forall|i: int| #![trigger ps[i]] 0 <= i < 5 ==> point_ok(ps[i]),
        strip(g) == five_point_groups(ps),
    ensures
        forall|j: int| 0 <= j < g.len() ==> dim_point_code((#[trigger] g[j]).code),
        forall|j: int| 0 <= j < g.len() ==> num_ok((#[trigger] g[j]).value),
        last_value(g, 10) == Some(ps[0].x),
        last_value(g, 20) == Some(ps[0].y),
        last_value(g, 30) == Some(ps[0].z),
        last_value(g, 11) == Some(ps[1].x),
        last_value(g, 21) == Some(ps[1].y),
        last_value(g, 31) == Some(ps[1].z),
        last_value(g, 12) == Some(ps[2].x),
        last_value(g, 22) == Some(ps[2].y),
        last_value(g, 32) == Some(ps[2].z),
        last_value(g, 13) == Some(ps[3].x),
        last_value(g, 23) == Some(ps[3].y),
        last_value(g, 33) == Some(ps[3].z),
        last_value(g, 14) == Some(ps[4].x),
        last_value(g, 24) == Some(ps[4].y),
        last_value(g, 34) == Some(ps[4].z),
{
    lemma_strip_index(g);
    let f = five_point_groups(ps);
    assert(point_ok(ps[0]) && point_ok(ps[1]) && point_ok(ps[2]) && point_ok(ps[3]) && point_ok(
        ps[4],
    ));
    assert forall|j: int| 0 <= j < g.len() implies g[j].code == f[j].0 && g[j].value == f[j].1 by {
        assert(strip(g)[j] == (g[j].code, g[j].value));
    }
    lemma_last_value_at(g, 10, 0);
    lemma_last_value_at(g, 20, 1);
    lemma_last_value_at(g, 30, 2);
    lemma_last_value_at(g, 11, 3);
    lemma_last_value_at(g, 21, 4);
    lemma_last_value_at(g, 31, 5);
    lemma_last_value_at(g, 12, 6);
    lemma_last_value_at(g, 22, 7);
    lemma_last_value_at(g, 32, 8);
    lemma_last_value_at(g, 13, 9);
    lemma_last_value_at(g, 23, 10);
    lemma_last_value_at(g, 33, 11);
    lemma_last_value_at(g, 14, 12);
    lemma_last_value_at(g, 24, 13);
    lemma_last_value_at(g, 34, 14);
}

/// The last value of a code found in the middle part of three.
proof fn lemma_lv_middle(x: Seq<PairV>, y: Seq<PairV>, z: Seq<PairV>, c: i32)
    requires
        last_value(y, c) is Some,
        forall|j: int| 0 <= j < z.len() ==> (#[trigger] z[j]).code != c,
    ensures
        last_value(x + y + z, c) == last_value(y, c),
{
    lemma_last_value_none(z, c);
    lemma_last_value_append(x + y, z, c);
    lemma_last_value_append(x, y, c);
}

/// A code that none of three parts uses.
proof fn lemma_lv_absent(x: Seq<PairV>, y: Seq<PairV>, z: Seq<PairV>, c: i32)
    requires
        forall|j: int| 0 <= j < x.len() ==> (#[trigger] x[j]).code != c,
        forall|j: int| 0 <= j < y.len() ==> (#[trigger] y[j]).code != c,
        forall|j: int| 0 <= j < z.len() ==> (#[trigger] z[j]).code != c,
    ensures
        last_value(x + y + z, c) is None,
{
    lemma_last_value_none(x, c);
    lemma_last_value_none(y, c);
    lemma_last_value_none(z, c);
    lemma_last_value_append(x + y, z, c);
    lemma_last_value_append(x, y, c);
}

/// An optional group read back.
proof fn lemma_opt_region(g: Seq<PairV>, code: i32, v: Option<Seq<char>>)
    requires
        strip(g) == crate::writer::opt_group(code, v),
    ensures
        last_value(g, code) == v,
        forall|j: int| 0 <= j < g.len() ==> (#[trigger] g[j]).code == code,
        v matches Some(t) ==> g.len() == 1 && g[0].value == t,
        v is None ==> g.len() == 0,
{
    lemma_strip_index(g);
    match v {
        Some(t) => {
            assert(strip(g)[0] == (g[0].code, g[0].value));
            lemma_last_value_at(g, code, 0);
        },
        None => {
            lemma_last_value_none(g, code);
        },
    }
}

pub open spec fn opt_ok(v: Option<Seq<char>>) -> bool {
    v matches Some(t) ==> stable(t)
}

pub open spec fn dimension_ok(e: EntityV) -> bool {
    match e {
        EntityV::Dimension {
            kind,
            block_name,
            text_override,
            measured_value,
            defining_points,
            rotation,
            layer,
            props,
        } => {
            &&& opt_ok(block_name)
            &&& opt_ok(text_override)
            &&& (measured_value matches Some(m) ==> num_ok(m))
            &&& defining_points.len() == 5
            &&& forall|i: int|
                #![trigger defining_points[i]]
                0 <= i < 5 ==> point_ok(defining_points[i])
            &&& angle_ok(rotation)
            &&& stable(layer)
            &&& props_ok(Recipe::Dimension, props)
        },
        _ => false,
    }
}

/// The groups of a DIMENSION in front of its props groups, in parts.
pub open spec fn dimension_head(e: EntityV) -> Seq<(i32, Seq<char>)> {
    match e {
        EntityV::Dimension {
            kind,
            block_name,
            text_override,
            measured_value,
            defining_points,
            rotation,
            layer,
            props,
        } => seq![(8i32, layer), (100i32, "AcDbEntity"@)] + crate::writer::opt_group(2, block_name)
            + five_point_groups(defining_points) + seq![(70i32, int_text(kind as int))]
            + crate::writer::opt_group(1, text_override) + crate::writer::opt_group(
            42,
            measured_value,
        ) + rotation_group(rotation),
        _ => seq![],
    }
}

/// The groups of a DIMENSION head, part by part.
pub struct DimParts {
    pub g1: Seq<PairV>,
    pub g2: Seq<PairV>,
    pub g3: Seq<PairV>,
    pub g4: Seq<PairV>,
    pub g5: Seq<PairV>,
    pub g6: Seq<PairV>,
    pub g7: Seq<PairV>,
}

pub open spec fn dim_all(d: DimParts) -> Seq<PairV> {
    d.g1 + d.g2 + d.g3 + d.g4 + d.g5 + d.g6 + d.g7
}

pub open spec fn dim_parts_ok(e: EntityV, d: DimParts) -> bool {
    match e {
        EntityV::Dimension {
            kind,
            block_name,
            text_override,
            measured_value,
            defining_points,
            rotation,
            layer,
            props,
        } => {
            &&& d.g1.len() == 2
            &&& d.g1[0].code == 8 && d.g1[0].value == layer
            &&& d.g1[1].code == 100
            &&& forall|j: int| 0 <= j < d.g2.len() ==> (#[trigger] d.g2[j]).code == 2
            &&& last_value(d.g2, 2) == block_name
            &&& forall|j: int| 0 <= j < d.g3.len() ==> dim_point_code((#[trigger] d.g3[j]).code)
            &&& forall|j: int| 0 <= j < d.g3.len() ==> num_ok((#[trigger] d.g3[j]).value)
            &&& last_value(d.g3, 10) == Some(defining_points[0].x)
            &&& last_value(d.g3, 20) == Some(defining_points[0].y)
            &&& last_value(d.g3, 30) == Some(defining_points[0].z)
            &&& last_value(d.g3, 11) == Some(defining_points[1].x)
            &&& last_value(d.g3, 21) == Some(defining_points[1].y)
            &&& last_value(d.g3, 31) == Some(defining_points[1].z)
            &&& last_value(d.g3, 12) == Some(defining_points[2].x)
            &&& last_value(d.g3, 22) == Some(defining_points[2].y)
            &&& last_value(d.g3, 32) == Some(defining_points[2].z)
            &&& last_value(d.g3, 13) == Some(defining_points[3].x)
            &&& last_value(d.g3, 23) == Some(defining_points[3].y)
            &&& last_value(d.g3, 33) == Some(defining_points[3].z)
            &&& last_value(d.g3, 14) == Some(defining_points[4].x)
            &&& last_value(d.g3, 24) == Some(defining_points[4].y)
            &&& last_value(d.g3, 34) == Some(defining_points[4].z)
            &&& d.g4.len() == 1
            &&& d.g4[0].code == 70 && d.g4[0].value == int_text(kind as int)
            &&& forall|j: int| 0 <= j < d.g5.len() ==> (#[trigger] d.g5[j]).code == 1
            &&& last_value(d.g5, 1) == text_override
            &&& forall|j: int|
                0 <= j < d.g6.len() ==> (#[trigger] d.g6[j]).code == 42 && num_ok(d.g6[j].value)
            &&& last_value(d.g6, 42) == measured_value
            &&& d.g7.len() <= 1
            &&& (d.g7.len() == 1 ==> d.g7[0].code == 50 && Some(d.g7[0].value) == rotation)
            &&& (rotation is None ==> d.g7.len() == 0)
            &&& (rotation is Some ==> d.g7.len() == 1)
        },
        _ => false,
    }
}

proof fn lemma_dimension_parts(e: EntityV, a: Seq<PairV>) -> (d: DimParts)
    requires
        dimension_ok(e),
        strip(a) == dimension_head(e),
    ensures
        dim_parts_ok(e, d),
        a == dim_all(d),
{
    match e {
        EntityV::Dimension {
            kind,
            block_name,
            text_override,
            measured_value,
            defining_points,
            rotation,
            layer,
            props,
        } => {
            let ps = defining_points;
            let r1 = seq![(8i32, layer), (100i32, "AcDbEntity"@)];
            let r2 = crate::writer::opt_group(2, block_name);
            let r3 = five_point_groups(ps);
            let r4 = seq![(70i32, int_text(kind as int))];
            let r5 = crate::writer::opt_group(1, text_override);
            let r6 = crate::writer::opt_group(42, measured_value);
            let r7 = rotation_group(rotation);
            assert(dimension_head(e) =~= r1 + r2 + r3 + r4 + r5 + r6 + r7);
            let (a6, g7) = lemma_split(a, r1 + r2 + r3 + r4 + r5 + r6, r7);
            let (a5, g6) = lemma_split(a6, r1 + r2 + r3 + r4 + r5, r6);
            let (a4, g5) = lemma_split(a5, r1 + r2 + r3 + r4, r5);
            let (a3, g4) = lemma_split(a4, r1 + r2 + r3, r4);
            let (a2, g3) = lemma_split(a3, r1 + r2, r3);
            let (g1, g2) = lemma_split(a2, r1, r2);
            lemma_dim_points_region(ps, g3);
            lemma_opt_region(g2, 2, block_name);
            lemma_opt_region(g5, 1, text_override);
            lemma_opt_region(g6, 42, measured_value);
            lemma_strip_index(g1);
            lemma_strip_index(g4);
            lemma_strip_index(g7);
            assert(strip(g1)[0] == (g1[0].code, g1[0].value));
            assert(strip(g1)[1] == (g1[1].code, g1[1].value));
            assert(strip(g4)[0] == (g4[0].code, g4[0].value));
            assert(g7.len() == 1 ==> strip(g7)[0] == (g7[0].code, g7[0].value));
            let d = DimParts { g1, g2, g3, g4, g5, g6, g7 };
            assert(a =~= dim_all(d));
            d
        },
        _ => DimParts {
            g1: seq![],
            g2: seq![],
            g3: seq![],
            g4: seq![],
            g5: seq![],
            g6: seq![],
            g7: seq![],
        },
    }
}

proof fn lemma_dimension_head_codes(e: EntityV, d: DimParts)
    requires
        dimension_ok(e),
        dim_parts_ok(e, d),
    ensures
        forall|j: int|
            0 <= j < dim_all(d).len() ==> {
                let c = (#[trigger] dim_all(d)[j]).code;
                &&& c != 5 && c != 62 && c != 6
                &&& !is_xdata_code(c)
                &&& !bad_group(Recipe::Dimension, dim_all(d)[j])
                &&& !extra_code(Recipe::Dimension, c)
            },
{
    let k = Recipe::Dimension;
    let a = dim_all(d);
    match e {
        EntityV::Dimension { kind, rotation, .. } => {
            lemma_code_text(kind as int);
            assert forall|j: int| 0 <= j < a.len() implies {
                let c = (#[trigger] a[j]).code;
                &&& c != 5 && c != 62 && c != 6
                &&& !is_xdata_code(c)
                &&& !bad_group(k, a[j])
                &&& !extra_code(k, c)
            } by {
                let n1 = 2int;
                let n2 = n1 + d.g2.len();
                let n3 = n2 + d.g3.len();
                let n4 = n3 + 1;
                let n5 = n4 + d.g5.len();
                let n6 = n5 + d.g6.len();
                if j < n1 {
                    assert(a[j] == d.g1[j]);
                } else if j < n2 {
                    assert(a[j] == d.g2[j - n1]);
                } else if j < n3 {
                    assert(a[j] == d.g3[j - n2]);
                } else if j < n4 {
                    assert(a[j] == d.g4[j - n3]);
                } else if j < n5 {
                    assert(a[j] == d.g5[j - n4]);
                } else if j < n6 {
                    assert(a[j] == d.g6[j - n5]);
                } else {
                    assert(a[j] == d.g7[j - n6]);
                }
            }
        },
        _ => {},
    }
}

proof fn lemma_dimension_fields(e: EntityV, d: DimParts, b: Seq<PairV>)
    requires
        dimension_ok(e),
        dim_parts_ok(e, d),
        forall|j: int| 0 <= j < b.len() ==> props_code(Recipe::Dimension, #[trigger] b[j].code),
    ensures
        match e {
            EntityV::Dimension {
                kind,
                block_name,
                text_override,
                measured_value,
                defining_points,
                rotation,
                layer,
                props,
            } => {
                let gs = dim_all(d) + b;
                &&& last_value(gs, 8) == Some(layer)
                &&& last_value(gs, 2) == block_name
                &&& crate::builders::dimension_points(gs) == defining_points
                &&& last_value(gs, 70) == Some(int_text(kind as int))
                &&& last_value(gs, 1) == text_override
                &&& last_value(gs, 42) == measured_value
                &&& crate::builders::opt_num_field(gs, 50) == rotation
            },
            _ => true,
        },
{
    let k = Recipe::Dimension;
    match e {
        EntityV::Dimension {
            kind,
            block_name,
            text_override,
            measured_value,
            defining_points,
            rotation,
            layer,
            props,
        } => {
            let ps = defining_points;
            let g1 = d.g1;
            let g2 = d.g2;
            let g3 = d.g3;
            let tail = d.g4 + d.g5 + d.g6 + d.g7 + b;
            let gs = dim_all(d) + b;
            assert(gs =~= g1 + g2 + g3 + tail);
            lemma_dimension_tail(
                g1,
                g2,
                g3,
                d.g4,
                d.g5,
                d.g6,
                d.g7,
                b,
                k,
                kind,
                text_override,
                measured_value,
                rotation,
            );
            assert(g1 + g2 + g3 + d.g4 + d.g5 + d.g6 + d.g7 + b =~= gs);
            assert forall|j: int| 0 <= j < tail.len() implies !dim_point_code(
                (#[trigger] tail[j]).code,
            ) && tail[j].code != 8 && tail[j].code != 2 by {
                let m4 = 1int;
                let m5 = m4 + d.g5.len();
                let m6 = m5 + d.g6.len();
                let m7 = m6 + d.g7.len();
                if j < m4 {
                    assert(tail[j] == d.g4[j]);
                } else if j < m5 {
                    assert(tail[j] == d.g5[j - m4]);
                } else if j < m6 {
                    assert(tail[j] == d.g6[j - m5]);
                } else if j < m7 {
                    assert(tail[j] == d.g7[j - m6]);
                } else {
                    assert(tail[j] == b[j - m7]);
                }
            }
            let pre = g1 + g2;
            assert(g1 + g2 + g3 + tail =~= pre + g3 + tail);
            lemma_lv_middle(pre, g3, tail, 10);
            lemma_lv_middle(pre, g3, tail, 20);
            lemma_lv_middle(pre, g3, tail, 30);
            lemma_lv_middle(pre, g3, tail, 11);
            lemma_lv_middle(pre, g3, tail, 21);
            lemma_lv_middle(pre, g3, tail, 31);
            lemma_lv_middle(pre, g3, tail, 12);
            lemma_lv_middle(pre, g3, tail, 22);
            lemma_lv_middle(pre, g3, tail, 32);
            lemma_lv_middle(pre, g3, tail, 13);
            lemma_lv_middle(pre, g3, tail, 23);
            lemma_lv_middle(pre, g3, tail, 33);
            lemma_lv_middle(pre, g3, tail, 14);
            lemma_lv_middle(pre, g3, tail, 24);
            lemma_lv_middle(pre, g3, tail, 34);
            lemma_last_value_at(g1, 8, 0);
            let rest = g2 + g3 + tail;
            assert forall|j: int| 0 <= j < rest.len() implies (#[trigger] rest[j]).code != 8 by {
                if j < g2.len() {
                    assert(rest[j] == g2[j]);
                } else if j < g2.len() + g3.len() {
                    assert(rest[j] == g3[j - g2.len()]);
                } else {
                    assert(rest[j] == tail[j - g2.len() - g3.len()]);
                }
            }
            lemma_lv_middle(Seq::<PairV>::empty(), g1, rest, 8);
            assert(Seq::<PairV>::empty() + g1 + rest =~= gs);
            let after = g3 + tail;
            assert forall|j: int| 0 <= j < after.len() implies (#[trigger] after[j]).code != 2 by {
                if j >= g3.len() {
                    assert(after[j] == tail[j - g3.len()]);
                } else {
                    assert(after[j] == g3[j]);
                }
            }
            assert(g1 + g2 + after =~= gs);
            if block_name is Some {
                lemma_lv_middle(g1, g2, after, 2);
            } else {
                lemma_lv_absent(g1, g2, after, 2);
            }
            assert(crate::builders::dimension_points(gs) =~= ps);
        },
        _ => {},
    }
}

#[verifier::rlimit(40)]
pub proof fn lemma_dimension_round_trip(e: EntityV, gs: Seq<PairV>)
    requires
        dimension_ok(e),
        strip(gs) == emit_groups(e).drop_first(),
    ensures
        spec_build_entity("DIMENSION"@, gs) == e,
        entity_warnings("DIMENSION"@, gs).len() == 0,
{
    match e {
        EntityV::Dimension { kind, props, defining_points, .. } => {
            let k = Recipe::Dimension;
            lemma_code_text(kind as int);
            lemma_five_points(defining_points);
            let head = dimension_head(e);
            assert(emit_groups(e).drop_first() =~= head + props_groups(props));
            let (a, b) = lemma_split(gs, head, props_groups(props));
            let d = lemma_dimension_parts(e, a);
            lemma_dimension_head_codes(e, d);
            lemma_entity_props(k, props, a, b);
            lemma_no_head_extras(k, a);
            assert(select(a, |c: i32| extra_code(k, c)) + props.raw_extras =~= props.raw_extras);
            lemma_dimension_fields(e, d, b);
            lemma_recipes();
            assert(spec_build_entity("DIMENSION"@, a + b) =~= e);
        },
        _ => {},
    }
}

/// The kind, text override, measured value and rotation of a DIMENSION,
/// read from the groups after its defining points.
proof fn lemma_dimension_tail(
    g1: Seq<PairV>,
    g2: Seq<PairV>,
    g3: Seq<PairV>,
    g4: Seq<PairV>,
    g5: Seq<PairV>,
    g6: Seq<PairV>,
    g7: Seq<PairV>,
    b: Seq<PairV>,
    k: Recipe,
    kind: u16,
    text_override: Option<Seq<char>>,
    measured_value: Option<Seq<char>>,
    rotation: Option<Seq<char>>,
)
    requires
        k == Recipe::Dimension,
        forall|j: int| 0 <= j < g1.len() ==> (#[trigger] g1[j]).code == 8 || g1[j].code == 100,
        forall|j: int| 0 <= j < g2.len() ==> (#[trigger] g2[j]).code == 2,
        forall|j: int| 0 <= j < g3.len() ==> dim_point_code((#[trigger] g3[j]).code),
        g4.len() == 1,
        g4[0].code == 70,
        g4[0].value == int_text(kind as int),
        forall|j: int| 0 <= j < g5.len() ==> (#[trigger] g5[j]).code == 1,
        last_value(g5, 1) == text_override,
        forall|j: int| 0 <= j < g6.len() ==> (#[trigger] g6[j]).code == 42,
        last_value(g6, 42) == measured_value,
        measured_value matches Some(m) ==> num_ok(m),
        angle_ok(rotation),
        g7.len() <= 1,
        g7.len() == 1 ==> g7[0].code == 50 && Some(g7[0].value) == rotation,
        rotation is None ==> g7.len() == 0,
        rotation is Some ==> g7.len() == 1,
        forall|j: int| 0 <= j < b.len() ==> props_code(k, #[trigger] b[j].code),
    ensures
        ({
            let gs = g1 + g2 + g3 + g4 + g5 + g6 + g7 + b;
            &&& last_value(gs, 70) == Some(int_text(kind as int))
            &&& last_value(gs, 1) == text_override
            &&& last_value(gs, 42) == measured_value
            &&& crate::builders::opt_num_field(gs, 50) == rotation
        }),
{
    let x = g1 + g2 + g3;
    let gs = g1 + g2 + g3 + g4 + g5 + g6 + g7 + b;
    assert forall|j: int| 0 <= j < x.len() implies {
        let c = (#[trigger] x[j]).code;
        c != 70 && c != 1 && c != 42 && c != 50
    } by {
        if j < g1.len() {
            assert(x[j] == g1[j]);
        } else if j < g1.len() + g2.len() {
            assert(x[j] == g1.add(g2)[j]);
            assert(x[j] == g2[j - g1.len()]);
        } else {
            assert(x[j] == g3[j - g1.len() - g2.len()]);
        }
    }
    lemma_last_value_none(x, 70);
    lemma_last_value_none(x, 1);
    lemma_last_value_none(x, 42);
    lemma_last_value_none(x, 50);
    lemma_last_value_none(g4, 1);
    lemma_last_value_none(g4, 42);
    lemma_last_value_none(g4, 50);
    lemma_last_value_none(g5, 70);
    lemma_last_value_none(g5, 42);
    lemma_last_value_none(g5, 50);
    lemma_last_value_none(g6, 70);
    lemma_last_value_none(g6, 1);
    lemma_last_value_none(g6, 50);
    lemma_last_value_none(g7, 70);
    lemma_last_value_none(g7, 1);
    lemma_last_value_none(g7, 42);
    lemma_last_value_none(b, 70);
    lemma_last_value_none(b, 1);
    lemma_last_value_none(b, 42);
    lemma_last_value_none(b, 50);
    lemma_last_value_at(g4, 70, 0);
    if g7.len() == 1 {
        lemma_last_value_at(g7, 50, 0);
    } else {
        lemma_last_value_none(g7, 50);
    }
    let s1 = x + g4;
    let s2 = s1 + g5;
    let s3 = s2 + g6;
    let s4 = s3 + g7;
    assert(gs =~= s4 + b);
    lemma_last_value_append(x, g4, 70);
    lemma_last_value_append(s1, g5, 70);
    lemma_last_value_append(s2, g6, 70);
    lemma_last_value_append(s3, g7, 70);
    lemma_last_value_append(s4, b, 70);
    lemma_last_value_append(x, g4, 1);
    lemma_last_value_append(s1, g5, 1);
    lemma_last_value_append(s2, g6, 1);
    lemma_last_value_append(s3, g7, 1);
    lemma_last_value_append(s4, b, 1);
    lemma_last_value_append(x, g4, 42);
    lemma_last_value_append(s1, g5, 42);
    lemma_last_value_append(s2, g6, 42);
    lemma_last_value_append(s3, g7, 42);
    lemma_last_value_append(s4, b, 42);
    lemma_last_value_append(x, g4, 50);
    lemma_last_value_append(s1, g5, 50);
    lemma_last_value_append(s2, g6, 50);
    lemma_last_value_append(s3, g7, 50);
    lemma_last_value_append(s4, b, 50);
}

/// The value of the first pair with code `c`.
pub open spec fn first_code_value(ps: Seq<(i32, Seq<char>)>, c: i32) -> Option<Seq<char>>
    decreases ps.len(),
{
    if ps.len() == 0 {
        None
    } else if ps[0].0 == c {
        Some(ps[0].1)
    } else {
        first_code_value(ps.drop_first(), c)
    }
}

proof fn lemma_first_value_strip(gs: Seq<PairV>, c: i32)
    ensures
        first_value(gs, c) == first_code_value(strip(gs), c),
    decreases gs.len(),
{
    if gs.len() > 0 {
        assert(strip(gs.drop_first()) =~= strip(gs).drop_first());
        lemma_first_value_strip(gs.drop_first(), c);
    }
}

/// Words that end or open what the parser is reading when they follow
/// group code 0.
pub open spec fn boundary_word(w: Seq<char>) -> bool {
    w == "EOF"@ || w == "SECTION"@ || w == "ENDSEC"@ || w == "BLOCK"@ || w == "ENDBLK"@
}

pub open spec fn raw_ok(e: EntityV) -> bool {
    match e {
        EntityV::Raw { kind, layer, groups } => {
            &&& recipe_of(kind) is None
            &&& stable(kind)
            &&& !boundary_word(kind)
            &&& layer == (match first_code_value(groups, 8) {
                Some(v) => v,
                None => seq!['0'],
            })
            &&& forall|i: int|
                #![trigger groups[i]]
                0 <= i < groups.len() ==> groups[i].0 != 0 && stable(groups[i].1)
        },
        _ => false,
    }
}

pub proof fn lemma_raw_round_trip(e: EntityV, gs: Seq<PairV>)
    requires
        raw_ok(e),
        strip(gs) == emit_groups(e).drop_first(),
    ensures
        spec_build_entity(e->Raw_kind, gs) == e,
        entity_warnings(e->Raw_kind, gs).len() == 0,
{
    match e {
        EntityV::Raw { kind, layer, groups } => {
            assert(emit_groups(e).drop_first() =~= groups);
            lemma_first_value_strip(gs, 8);
            lemma_select_all(gs, |c: i32| true);
            assert(spec_build_entity(kind, gs) =~= e);
        },
        _ => {},
    }
}

/// The type name an entity is written under.
pub open spec fn entity_type(e: EntityV) -> Seq<char> {
    match e {
        EntityV::Line { .. } => "LINE"@,
        EntityV::Circle { .. } => "CIRCLE"@,
        EntityV::Arc { .. } => "ARC"@,
        EntityV::LwPolyline { .. } => "LWPOLYLINE"@,
        EntityV::Text { .. } => "TEXT"@,
        EntityV::MText { .. } => "MTEXT"@,
        EntityV::Insert { .. } => "INSERT"@,
        EntityV::Dimension { .. } => "DIMENSION"@,
        EntityV::Raw { kind, .. } => kind,
    }
}

/// An entity that the emitter writes so that the parser reads it back:
/// texts without surrounding whitespace, numbers as number literals,
/// LWPOLYLINE vertices with z `0` and one bulge (or none) each, DIMENSION
/// with five defining points, and extra groups under codes that the
/// entity's recipe does not read.
pub open spec fn writable(e: EntityV) -> bool {
    match e {
        EntityV::Line { .. } => line_ok(e),
        EntityV::Circle { .. } => circle_ok(e),
        EntityV::Arc { .. } => arc_ok(e),
        EntityV::LwPolyline { .. } => lwpolyline_ok(e),
        EntityV::Text { .. } => text_ok(e),
        EntityV::MText { .. } => mtext_ok(e),
        EntityV::Insert { .. } => insert_ok(e),
        EntityV::Dimension { .. } => dimension_ok(e),
        EntityV::Raw { .. } => raw_ok(e),
    }
}

/// The groups that the emitter writes for an entity after its `0/<type>`
/// pair build the entity back, with no warning: the same entity, but for
/// the default text style of a TEXT that carries none, which comes back
/// among the extra groups.
pub proof fn lemma_entity_round_trip(e: EntityV, gs: Seq<PairV>)
    requires
        writable(e),
        strip(gs) == emit_groups(e).drop_first(),
    ensures
        spec_build_entity(entity_type(e), gs) == read_back(e),
        entity_warnings(entity_type(e), gs).len() == 0,
{
    match e {
        EntityV::Line { .. } => lemma_line_round_trip(e, gs),
        EntityV::Circle { .. } => lemma_circle_round_trip(e, gs),
        EntityV::Arc { .. } => lemma_arc_round_trip(e, gs),
        EntityV::LwPolyline { .. } => lemma_lwpolyline_round_trip(e, gs),
        EntityV::Text { .. } => lemma_text_round_trip(e, gs),
        EntityV::MText { .. } => lemma_mtext_round_trip(e, gs),
        EntityV::Insert { .. } => lemma_insert_round_trip(e, gs),
        EntityV::Dimension { .. } => lemma_dimension_round_trip(e, gs),
        EntityV::Raw { .. } => lemma_raw_round_trip(e, gs),
    }
}

/// Writing and reading an entity twice is writing and reading it once:
/// what comes back is writable as it is, and reads back as itself.
pub proof fn lemma_second_cycle_changes_nothing(e: EntityV)
    requires
        writable(e),
    ensures
        writable(read_back(e)),
        read_back(read_back(e)) == read_back(e),
{
    match e {
        EntityV::Text { position, value, height, rotation, layer, props } => {
            let sg = style_group(props);
            let ex = sg + props.raw_extras;
            let p2 = PropsV { raw_extras: ex, ..props };
            reveal_strlit("STANDARD");
            lemma_words_stable();
            assert(stable("STANDARD"@));
            assert(props_ok(Recipe::Text, p2)) by {
                assert forall|i: int| #![trigger ex[i]] 0 <= i < ex.len() implies extra_code(
                    Recipe::Text,
                    ex[i].0,
                ) && ex[i].0 != 0 && stable(ex[i].1) by {
                    if i < sg.len() {
                        assert(ex[i] == (7i32, "STANDARD"@));
                    } else {
                        assert(ex[i] == props.raw_extras[i - sg.len()]);
                    }
                }
            }
            assert(crate::writer::has_code(ex, 7)) by {
                if sg.len() > 0 {
                    assert(ex[0].0 == 7);
                } else {
                    let i = choose|i: int| 0 <= i < props.raw_extras.len() && props.raw_extras[i].0 == 7;
                    assert(ex[i] == props.raw_extras[i]);
                }
            }
            assert(style_group(p2) =~= Seq::<(i32, Seq<char>)>::empty());
            assert(style_group(p2) + ex =~= ex);
        },
        _ => {},
    }
}

/// The fixed words the emitter writes have no surrounding whitespace.
pub proof fn lemma_words_stable()
    ensures
        stable("AcDbEntity"@),
        stable("AcDbLine"@),
        stable("AcDbCircle"@),
        stable("AcDbArc"@),
        stable("AcDbPolyline"@),
        stable("AcDbText"@),
        stable("AcDbMText"@),
        stable("AcDbBlockReference"@),
        stable("STANDARD"@),
        stable("1"@),
        stable("0"@),
        stable(""@),
        stable("0.000"@),
        stable("SECTION"@),
        stable("HEADER"@),
        stable("ENDSEC"@),
        stable("TABLES"@),
        stable("TABLE"@),
        stable("LAYER"@),
        stable("ENDTAB"@),
        stable("BLOCK_RECORD"@),
        stable("*Model_Space"@),
        stable("*Paper_Space"@),
        stable("BLOCKS"@),
        stable("BLOCK"@),
        stable("ENDBLK"@),
        stable("ENTITIES"@),
        stable("EOF"@),
        stable("LINE"@),
        stable("CIRCLE"@),
        stable("ARC"@),
        stable("LWPOLYLINE"@),
        stable("TEXT"@),
        stable("MTEXT"@),
        stable("INSERT"@),
        stable("DIMENSION"@),
{
    reveal_strlit("AcDbEntity");
    reveal_strlit("AcDbLine");
    reveal_strlit("AcDbCircle");
    reveal_strlit("AcDbArc");
    reveal_strlit("AcDbPolyline");
    reveal_strlit("AcDbText");
    reveal_strlit("AcDbMText");
    reveal_strlit("AcDbBlockReference");
    reveal_strlit("STANDARD");
    reveal_strlit("1");
    reveal_strlit("0");
    reveal_strlit("");
    reveal_strlit("0.000");
    reveal_strlit("SECTION");
    reveal_strlit("HEADER");
    reveal_strlit("ENDSEC");
    reveal_strlit("TABLES");
    reveal_strlit("TABLE");
    reveal_strlit("LAYER");
    reveal_strlit("ENDTAB");
    reveal_strlit("BLOCK_RECORD");
    reveal_strlit("*Model_Space");
    reveal_strlit("*Paper_Space");
    reveal_strlit("BLOCKS");
    reveal_strlit("BLOCK");
    reveal_strlit("ENDBLK");
    reveal_strlit("ENTITIES");
    reveal_strlit("EOF");
    reveal_strlit("LINE");
    reveal_strlit("CIRCLE");
    reveal_strlit("ARC");
    reveal_strlit("LWPOLYLINE");
    reveal_strlit("TEXT");
    reveal_strlit("MTEXT");
    reveal_strlit("INSERT");
    reveal_strlit("DIMENSION");
    lemma_trim_noop("AcDbEntity"@);
    lemma_trim_noop("AcDbLine"@);
    lemma_trim_noop("AcDbCircle"@);
    lemma_trim_noop("AcDbArc"@);
    lemma_trim_noop("AcDbPolyline"@);
    lemma_trim_noop("AcDbText"@);
    lemma_trim_noop("AcDbMText"@);
    lemma_trim_noop("AcDbBlockReference"@);
    lemma_trim_noop("STANDARD"@);
    lemma_trim_noop("1"@);
    lemma_trim_noop("0"@);
    lemma_trim_noop(""@);
    lemma_trim_noop("0.000"@);
    lemma_trim_noop("SECTION"@);
    lemma_trim_noop("HEADER"@);
    lemma_trim_noop("ENDSEC"@);
    lemma_trim_noop("TABLES"@);
    lemma_trim_noop("TABLE"@);
    lemma_trim_noop("LAYER"@);
    lemma_trim_noop("ENDTAB"@);
    lemma_trim_noop("BLOCK_RECORD"@);
    lemma_trim_noop("*Model_Space"@);
    lemma_trim_noop("*Paper_Space"@);
    lemma_trim_noop("BLOCKS"@);
    lemma_trim_noop("BLOCK"@);
    lemma_trim_noop("ENDBLK"@);
    lemma_trim_noop("ENTITIES"@);
    lemma_trim_noop("EOF"@);
    lemma_trim_noop("LINE"@);
    lemma_trim_noop("CIRCLE"@);
    lemma_trim_noop("ARC"@);
    lemma_trim_noop("LWPOLYLINE"@);
    lemma_trim_noop("TEXT"@);
    lemma_trim_noop("MTEXT"@);
    lemma_trim_noop("INSERT"@);
    lemma_trim_noop("DIMENSION"@);
}

/// Pairs that follow an entity's type pair: none under code 0, and texts
/// that reading leaves as they are.
pub open spec fn body_ok(ps: Seq<(i32, Seq<char>)>) -> bool {
    forall|k: int| #![trigger ps[k]] 0 <= k < ps.len() ==> ps[k].0 != 0 && stable(ps[k].1)
}

proof fn lemma_body_append(a: Seq<(i32, Seq<char>)>, b: Seq<(i32, Seq<char>)>)
    requires
        body_ok(a),
        body_ok(b),
    ensures
        body_ok(a + b),
{
    assert forall|k: int| #![trigger (a + b)[k]] 0 <= k < (a + b).len() implies (a + b)[k].0 != 0
        && stable((a + b)[k].1) by {
        if k < a.len() {
            assert((a + b)[k] == a[k]);
        } else {
            assert((a + b)[k] == b[k - a.len()]);
        }
    }
}

proof fn lemma_props_body(k: Recipe, p: PropsV)
    requires
        props_ok(k, p),
    ensures
        body_ok(props_groups(p)),
{
    let hpart = handle_part(p);
    let (cpart0, lpart) = props_parts(p);
    let cpart = hpart + cpart0;
    assert(props_groups(p) =~= cpart + lpart + p.raw_extras + p.xdata);
    assert(body_ok(hpart));
    match p.color {
        Some(c) => {
            lemma_code_text(c as int);
        },
        None => {},
    }
    assert(body_ok(cpart0));
    lemma_body_append(hpart, cpart0);
    assert(body_ok(lpart));
    assert forall|i: int| #![trigger p.raw_extras[i]] 0 <= i < p.raw_extras.len() implies p.raw_extras[i].0
        != 0 && stable(p.raw_extras[i].1) by {}
    assert forall|i: int| #![trigger p.xdata[i]] 0 <= i < p.xdata.len() implies p.xdata[i].0
        != 0 && stable(p.xdata[i].1) by {}
    lemma_body_append(cpart, lpart);
    lemma_body_append(cpart + lpart, p.raw_extras);
    lemma_body_append(cpart + lpart + p.raw_extras, p.xdata);
}

proof fn lemma_rotation_body(r: Option<Seq<char>>)
    requires
        angle_ok(r),
    ensures
        body_ok(rotation_group(r)),
{
}

proof fn lemma_opt_body(code: i32, v: Option<Seq<char>>)
    requires
        code != 0,
        opt_ok(v),
    ensures
        body_ok(crate::writer::opt_group(code, v)),
{
}

proof fn lemma_emit_shape_line(e: EntityV)
    requires
        writable(e),
        e is Line,
    ensures
        body_ok(emit_groups(e).drop_first()),
{
    lemma_words_stable();
    match e {
        EntityV::Line { p1, p2, layer, props } => {
            let head = seq![
                (8i32, layer),
                (100i32, "AcDbEntity"@),
                (100i32, "AcDbLine"@),
                (10i32, p1.x),
                (20i32, p1.y),
                (30i32, p1.z),
                (11i32, p2.x),
                (21i32, p2.y),
                (31i32, p2.z),
            ];
            assert(emit_groups(e).drop_first() =~= head + props_groups(props));
            assert(body_ok(head));
            lemma_props_body(Recipe::Line, props);
            lemma_body_append(head, props_groups(props));
        },
        _ => {},
    }
}

proof fn lemma_emit_shape_circle(e: EntityV)
    requires
        writable(e),
        e is Circle,
    ensures
        body_ok(emit_groups(e).drop_first()),
{
    lemma_words_stable();
    match e {
        EntityV::Circle { center, radius, layer, props } => {
            let head = seq![
                (8i32, layer),
                (100i32, "AcDbEntity"@),
                (100i32, "AcDbCircle"@),
                (10i32, center.x),
                (20i32, center.y),
                (30i32, center.z),
                (40i32, radius),
            ];
            assert(emit_groups(e).drop_first() =~= head + props_groups(props));
            assert(body_ok(head));
            lemma_props_body(Recipe::Circle, props);
            lemma_body_append(head, props_groups(props));
        },
        _ => {},
    }
}

proof fn lemma_emit_shape_arc(e: EntityV)
    requires
        writable(e),
        e is Arc,
    ensures
        body_ok(emit_groups(e).drop_first()),
{
    lemma_words_stable();
    match e {
        EntityV::Arc { center, radius, start_angle, end_angle, layer, props } => {
            let head = seq![
                (8i32, layer),
                (100i32, "AcDbEntity"@),
                (100i32, "AcDbCircle"@),
                (10i32, center.x),
                (20i32, center.y),
                (30i32, center.z),
                (40i32, radius),
                (100i32, "AcDbArc"@),
                (50i32, start_angle),
                (51i32, end_angle),
            ];
            assert(emit_groups(e).drop_first() =~= head + props_groups(props));
            assert(body_ok(head));
            lemma_props_body(Recipe::Arc, props);
            lemma_body_append(head, props_groups(props));
        },
        _ => {},
    }
}

proof fn lemma_emit_shape_lwpolyline(e: EntityV)
    requires
        writable(e),
        e is LwPolyline,
    ensures
        body_ok(emit_groups(e).drop_first()),
{
    lemma_words_stable();
    match e {
        EntityV::LwPolyline { vertices, bulges, closed, layer, props } => {
            let n = vertices.len() as int;
            lemma_code_text(n);
            let flag: Seq<char> = if closed {
                "1"@
            } else {
                "0"@
            };
            let vg = crate::writer::lw_vertex_groups(vertices, bulges);
            let pre = seq![
                (8i32, layer),
                (100i32, "AcDbEntity"@),
                (100i32, "AcDbPolyline"@),
                (90i32, int_text(n)),
                (70i32, flag),
            ];
            assert(emit_groups(e).drop_first() =~= pre + vg + props_groups(props));
            assert(body_ok(pre));
            lemma_lw_groups(vertices, bulges);
            assert(body_ok(vg));
            lemma_props_body(Recipe::LwPolyline, props);
            lemma_body_append(pre, vg);
            lemma_body_append(pre + vg, props_groups(props));
        },
        _ => {},
    }
}

proof fn lemma_emit_shape_text(e: EntityV)
    requires
        writable(e),
        e is Text,
    ensures
        body_ok(emit_groups(e).drop_first()),
{
    lemma_words_stable();
    match e {
        EntityV::Text { position, value, height, rotation, layer, props } => {
            let rot = rotation_group(rotation);
            let h1 = seq![
                (8i32, layer),
                (100i32, "AcDbEntity"@),
                (100i32, "AcDbText"@),
                (10i32, position.x),
                (20i32, position.y),
                (30i32, position.z),
                (40i32, height),
                (1i32, value),
            ];
            let h2 = style_group(props);
            assert(emit_groups(e).drop_first() =~= h1 + rot + h2 + props_groups(props));
            reveal_strlit("STANDARD");
            assert(body_ok(h1));
            assert(body_ok(h2));
            lemma_rotation_body(rotation);
            lemma_props_body(Recipe::Text, props);
            lemma_body_append(h1, rot);
            lemma_body_append(h1 + rot, h2);
            lemma_body_append(h1 + rot + h2, props_groups(props));
        },
        _ => {},
    }
}

proof fn lemma_emit_shape_mtext(e: EntityV)
    requires
        writable(e),
        e is MText,
    ensures
        body_ok(emit_groups(e).drop_first()),
{
    lemma_words_stable();
    match e {
        EntityV::MText { position, value, height, rotation, attachment_point, layer, props } => {
            lemma_code_text(attachment_point as int);
            let rot = rotation_group(rotation);
            let h1 = seq![
                (8i32, layer),
                (100i32, "AcDbEntity"@),
                (100i32, "AcDbMText"@),
                (10i32, position.x),
                (20i32, position.y),
                (30i32, position.z),
                (40i32, height),
                (71i32, int_text(attachment_point as int)),
                (1i32, value),
            ];
            assert(emit_groups(e).drop_first() =~= h1 + rot + props_groups(props));
            assert(body_ok(h1));
            lemma_rotation_body(rotation);
            lemma_props_body(Recipe::MText, props);
            lemma_body_append(h1, rot);
            lemma_body_append(h1 + rot, props_groups(props));
        },
        _ => {},
    }
}

proof fn lemma_emit_shape_insert(e: EntityV)
    requires
        writable(e),
        e is Insert,
    ensures
        body_ok(emit_groups(e).drop_first()),
{
    lemma_words_stable();
    match e {
        EntityV::Insert {
            block_name,
            position,
            scale_x,
            scale_y,
            scale_z,
            rotation,
            layer,
            props,
        } => {
            let rot = rotation_group(rotation);
            let h1 = seq![
                (8i32, layer),
                (100i32, "AcDbEntity"@),
                (100i32, "AcDbBlockReference"@),
                (2i32, block_name),
                (10i32, position.x),
                (20i32, position.y),
                (30i32, position.z),
                (41i32, scale_x),
                (42i32, scale_y),
                (43i32, scale_z),
            ];
            assert(emit_groups(e).drop_first() =~= h1 + rot + props_groups(props));
            assert(body_ok(h1));
            lemma_rotation_body(rotation);
            lemma_props_body(Recipe::Insert, props);
            lemma_body_append(h1, rot);
            lemma_body_append(h1 + rot, props_groups(props));
        },
        _ => {},
    }
}

proof fn lemma_dim_head_body(e: EntityV)
    requires
        dimension_ok(e),
    ensures
        body_ok(dimension_head(e)),
{
    lemma_words_stable();
    match e {
        EntityV::Dimension {
            kind,
            block_name,
            text_override,
            measured_value,
            defining_points,
            rotation,
            layer,
            props,
        } => {
            let ps = defining_points;
            lemma_code_text(kind as int);
            let r1 = seq![(8i32, layer), (100i32, "AcDbEntity"@)];
            let r2 = crate::writer::opt_group(2, block_name);
            let r3 = five_point_groups(ps);
            let r4 = seq![(70i32, int_text(kind as int))];
            let r5 = crate::writer::opt_group(1, text_override);
            let r6 = crate::writer::opt_group(42, measured_value);
            let r7 = rotation_group(rotation);
            assert(dimension_head(e) =~= r1 + r2 + r3 + r4 + r5 + r6 + r7);
            assert(point_ok(ps[0]) && point_ok(ps[1]) && point_ok(ps[2]) && point_ok(ps[3])
                && point_ok(ps[4]));
            assert(body_ok(r1));
            lemma_opt_body(2, block_name);
            assert(body_ok(r3));
            assert(body_ok(r4));
            lemma_opt_body(1, text_override);
            assert(body_ok(r6));
            lemma_rotation_body(rotation);
            lemma_body_append(r1, r2);
            lemma_body_append(r1 + r2, r3);
            lemma_body_append(r1 + r2 + r3, r4);
            lemma_body_append(r1 + r2 + r3 + r4, r5);
            lemma_body_append(r1 + r2 + r3 + r4 + r5, r6);
            lemma_body_append(r1 + r2 + r3 + r4 + r5 + r6, r7);
        },
        _ => {},
    }
}

proof fn lemma_emit_shape_dimension(e: EntityV)
    requires
        writable(e),
        e is Dimension,
    ensures
        body_ok(emit_groups(e).drop_first()),
{
    match e {
        EntityV::Dimension { defining_points, props, .. } => {
            lemma_five_points(defining_points);
            assert(emit_groups(e).drop_first() =~= dimension_head(e) + props_groups(props));
            lemma_dim_head_body(e);
            lemma_props_body(Recipe::Dimension, props);
            lemma_body_append(dimension_head(e), props_groups(props));
        },
        _ => {},
    }
}

proof fn lemma_emit_shape_raw(e: EntityV)
    requires
        writable(e),
        e is Raw,
    ensures
        body_ok(emit_groups(e).drop_first()),
{
    lemma_words_stable();
    match e {
        EntityV::Raw { kind, layer, groups } => {
            assert(emit_groups(e).drop_first() =~= groups);
        },
        _ => {},
    }
}

/// What the emitter writes for an entity: its type pair, then pairs under
/// codes other than 0 with texts that reading leaves as they are.
pub proof fn lemma_emit_shape(e: EntityV)
    requires
        writable(e),
    ensures
        emit_groups(e).len() >= 1,
        emit_groups(e)[0] == (0i32, entity_type(e)),
        body_ok(emit_groups(e).drop_first()),
        stable(entity_type(e)),
        !boundary_word(entity_type(e)),
{
    lemma_words_stable();
    crate::document_roundtrip::lemma_words();
    match e {
        EntityV::Line { .. } => lemma_emit_shape_line(e),
        EntityV::Circle { .. } => lemma_emit_shape_circle(e),
        EntityV::Arc { .. } => lemma_emit_shape_arc(e),
        EntityV::LwPolyline { .. } => lemma_emit_shape_lwpolyline(e),
        EntityV::Text { .. } => lemma_emit_shape_text(e),
        EntityV::MText { .. } => lemma_emit_shape_mtext(e),
        EntityV::Insert { .. } => lemma_emit_shape_insert(e),
        EntityV::Dimension { .. } => lemma_emit_shape_dimension(e),
        EntityV::Raw { .. } => lemma_emit_shape_raw(e),
    }
}

/// The groups of a block header after its `0/BLOCK` pair.
pub open spec fn block_head_groups(b: BlockV) -> Seq<(i32, Seq<char>)> {
    seq![
        (8i32, b.layer),
        (2i32, b.name),
        (70i32, int_text(b.flags as int)),
        (10i32, b.base_point.x),
        (20i32, b.base_point.y),
        (30i32, b.base_point.z),
        (3i32, b.name),
        (1i32, ""@),
    ]
}

/// The props a block definition is read back with: the name (3) and
/// description (1) groups that the emitter writes, kept as extra groups.
pub open spec fn block_props_back(name: Seq<char>) -> PropsV {
    PropsV {
        handle: None,
        color: None,
        linetype: None,
        xdata: seq![],
        raw_extras: seq![(3i32, name), (1i32, ""@)],
    }
}

/// A block definition as the parser reads back what the emitter writes
/// for it.
pub open spec fn block_back(b: BlockV) -> BlockV {
    BlockV {
        entities: b.entities.map_values(|e: EntityV| read_back(e)),
        props: block_props_back(b.name),
        ..b
    }
}

/// A block definition that the emitter writes so that the parser reads
/// it back.
pub open spec fn block_ok(b: BlockV) -> bool {
    &&& stable(b.name)
    &&& stable(b.layer)
    &&& point_ok(b.base_point)
    &&& forall|k: int| #![trigger b.entities[k]] 0 <= k < b.entities.len() ==> writable(b.entities[k])
}

/// The header groups of a block read back.
pub proof fn lemma_block_header_back(b: BlockV, hg: Seq<PairV>)
    requires
        block_ok(b),
        strip(hg) == block_head_groups(b),
    ensures
        crate::parser::spec_block_header(hg) == (BlockV { entities: seq![], ..block_back(b) }),
        warnings_of(Recipe::Block, hg).len() == 0,
        body_ok(block_head_groups(b)),
{
    let k = Recipe::Block;
    lemma_words_stable();
    lemma_code_text(b.flags as int);
    lemma_strip_index(hg);
    let h = block_head_groups(b);
    assert forall|j: int| 0 <= j < hg.len() implies hg[j].code == h[j].0 && hg[j].value == h[j].1 by {
        assert(strip(hg)[j] == (hg[j].code, hg[j].value));
    }
    assert(body_ok(h));
    assert forall|j: int| 0 <= j < hg.len() implies !bad_group(k, #[trigger] hg[j]) by {}
    lemma_warnings_none(k, hg);
    lemma_last_value_at(hg, 8, 0);
    lemma_last_value_at(hg, 2, 1);
    lemma_last_value_at(hg, 70, 2);
    lemma_last_value_at(hg, 10, 3);
    lemma_last_value_at(hg, 20, 4);
    lemma_last_value_at(hg, 30, 5);
    lemma_last_value_none(hg, 5);
    lemma_last_value_none(hg, 62);
    lemma_last_value_none(hg, 6);
    let first = hg.take(6);
    let last = hg.skip(6);
    assert(hg =~= first + last);
    let xk = |c: i32| is_xdata_code(c);
    let ek = |c: i32| extra_code(k, c);
    lemma_select_append(first, last, xk);
    lemma_select_append(first, last, ek);
    lemma_select_none(first, xk);
    lemma_select_none(last, xk);
    lemma_select_none(first, ek);
    lemma_select_all(last, ek);
    assert(strip(last) =~= seq![(3i32, b.name), (1i32, ""@)]);
    assert(select(hg, xk) =~= Seq::<(i32, Seq<char>)>::empty());
    assert(select(hg, ek) =~= seq![(3i32, b.name), (1i32, ""@)]);
    assert(props_of(k, hg) =~= block_props_back(b.name));
    assert(crate::parser::spec_block_header(hg) =~= BlockV { entities: seq![], ..block_back(b) });
}

/// The coordinate text of the built-in blocks is a number literal.
pub proof fn lemma_zero_coordinate()
    ensures
        num_ok("0.000"@),
        int_text(0) == "0"@,
{
    lemma_words_stable();
    reveal_strlit("0.000");
    reveal_strlit("0");
    let t = "0.000"@;
    assert(t.len() == 5);
    assert(crate::numeric::strip_sign(t) == t);
    crate::numeric::lemma_pos_of_exp_skip(t, 5);
    assert(t.skip(5).len() == 0);
    assert(crate::numeric::pos_of_exp(t) == 5);
    assert(t.take(5) =~= t);
    crate::numeric::lemma_pos_of_dot_skip(t, 1);
    assert(t.skip(1)[0] == '.');
    assert(crate::numeric::pos_of_dot(t) == 1);
    assert(crate::numeric::all_digits(t.take(1)));
    assert(crate::numeric::all_digits(t.skip(2)));
    assert(crate::numeric::number_ok(t));
    assert(int_text(0) =~= "0"@);
}

} // verus!
