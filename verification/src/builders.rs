//! Entity assembly: the group-code pairs of one entity become an `Entity`.
//!
//! The assembly is lenient: a value that should be a number and is not does
//! not stop the parse. `0` stands in its place, and a `ParseWarning` records
//! the group, so that a caller can tell a damaged file from a clean one.
//!
//! Each entity type has a recipe: the group codes it reads as numbers, as
//! integers and as text. Codes common to all entities (layer, handle,
//! color, linetype, subclass marker, XDATA) are read the same way for all;
//! any other code is kept, in order, among the entity's extra groups.
//! Where a code occurs more than once, the last occurrence sets the field.

use vstd::prelude::*;

use crate::entity::{
    Entity, EntityProps, EntityV, LayerName, NumPoint, PointV, PropsV, opt_texts_view, opt_view,
    pairs_view, points_view, texts_view,
};
use crate::error::{ParseWarning, WarningV, warnings_view};
use crate::numeric::{is_float_literal, is_float_text, parse_i64, spec_parse_i64};
use crate::reader::{Pair, PairV, pair_seq_view};
use crate::text::{push_char, text_eq, trim, trim_seq};

verus! {

/// The entity types that have a recipe, and the block header.
#[derive(Debug, Clone, Copy, PartialEq, Eq, Structural)]
pub enum Recipe {
    Line,
    Circle,
    Arc,
    LwPolyline,
    Text,
    Insert,
    MText,
    Dimension,
    Block,
}

pub open spec fn is_xdata_code(c: i32) -> bool {
    1001 <= c <= 1071
}

/// Layer (8), handle (5), color (62), linetype (6), subclass marker (100)
/// and XDATA.
pub open spec fn is_common_code(c: i32) -> bool {
    c == 8 || c == 5 || c == 62 || c == 6 || c == 100 || is_xdata_code(c)
}

/// Codes whose value the recipe reads as a floating-point number.
pub open spec fn float_code(k: Recipe, c: i32) -> bool {
    match k {
        Recipe::Line => c == 10 || c == 20 || c == 30 || c == 11 || c == 21 || c == 31,
        Recipe::Circle => c == 10 || c == 20 || c == 30 || c == 40,
        Recipe::Arc => c == 10 || c == 20 || c == 30 || c == 40 || c == 50 || c == 51,
        Recipe::LwPolyline => c == 10 || c == 20 || c == 42,
        Recipe::Text => c == 10 || c == 20 || c == 30 || c == 40 || c == 50,
        Recipe::Insert => c == 10 || c == 20 || c == 30 || c == 41 || c == 42 || c == 43 || c
            == 50,
        Recipe::MText => c == 10 || c == 20 || c == 30 || c == 40 || c == 50,
        Recipe::Dimension => c == 42 || c == 50 || (10 <= c <= 14) || (20 <= c <= 24) || (30
            <= c <= 34),
        Recipe::Block => c == 10 || c == 20 || c == 30,
    }
}

/// Codes whose value the recipe reads as an integer.
pub open spec fn int_code(k: Recipe, c: i32) -> bool {
    c == 62 || match k {
        Recipe::LwPolyline => c == 70,
        Recipe::MText => c == 71,
        Recipe::Dimension => c == 70,
        Recipe::Block => c == 70,
        _ => false,
    }
}

/// Codes whose value the recipe keeps as text in a field of its own.
pub open spec fn text_code(k: Recipe, c: i32) -> bool {
    match k {
        Recipe::Text => c == 1,
        Recipe::Insert => c == 2,
        Recipe::MText => c == 1 || c == 3,
        Recipe::Dimension => c == 1 || c == 2,
        Recipe::Block => c == 2,
        _ => false,
    }
}

/// The vertex count of an LWPOLYLINE (90): its vertices give it, so it is
/// read and not kept.
pub open spec fn count_code(k: Recipe, c: i32) -> bool {
    k == Recipe::LwPolyline && c == 90
}

/// Codes that the recipe reads into a field (the common ones aside).
pub open spec fn own_code(k: Recipe, c: i32) -> bool {
    float_code(k, c) || (int_code(k, c) && c != 62) || text_code(k, c) || count_code(k, c)
}

/// Codes that the recipe keeps among the extra groups.
pub open spec fn extra_code(k: Recipe, c: i32) -> bool {
    !own_code(k, c) && !is_common_code(c)
}

pub open spec fn entity_name(k: Recipe) -> Seq<char> {
    match k {
        Recipe::Line => "LINE"@,
        Recipe::Circle => "CIRCLE"@,
        Recipe::Arc => "ARC"@,
        Recipe::LwPolyline => "LWPOLYLINE"@,
        Recipe::Text => "TEXT"@,
        Recipe::Insert => "INSERT"@,
        Recipe::MText => "MTEXT"@,
        Recipe::Dimension => "DIMENSION"@,
        Recipe::Block => "BLOCK"@,
    }
}

pub fn entity_name_of(k: Recipe) -> (r: &'static str)
    ensures
        r@ == entity_name(k),
{
    match k {
        Recipe::Line => "LINE",
        Recipe::Circle => "CIRCLE",
        Recipe::Arc => "ARC",
        Recipe::LwPolyline => "LWPOLYLINE",
        Recipe::Text => "TEXT",
        Recipe::Insert => "INSERT",
        Recipe::MText => "MTEXT",
        Recipe::Dimension => "DIMENSION",
        Recipe::Block => "BLOCK",
    }
}

/// The number that a value stands for: the value without surrounding
/// whitespace where that is a number literal, `0` otherwise.
pub open spec fn num_text(v: Seq<char>) -> Seq<char> {
    if is_float_literal(trim_seq(v)) {
        trim_seq(v)
    } else {
        seq!['0']
    }
}

/// The integer that a value stands for, `0` where it is none.
pub open spec fn int_or_zero(v: Seq<char>) -> i64 {
    match spec_parse_i64(trim_seq(v)) {
        Some(n) => n,
        None => 0,
    }
}

/// A group whose value the recipe cannot read.
pub open spec fn bad_group(k: Recipe, g: PairV) -> bool {
    (float_code(k, g.code) && !is_float_literal(trim_seq(g.value))) || (int_code(k, g.code)
        && spec_parse_i64(trim_seq(g.value)) is None)
}

pub open spec fn warning_for(k: Recipe, g: PairV) -> WarningV {
    WarningV {
        code: g.code,
        value: g.value,
        kind: if float_code(k, g.code) {
            "f64"@
        } else {
            "i64"@
        },
        entity: entity_name(k),
    }
}

/// The warnings that the recipe records for `gs`, in order.
pub open spec fn warnings_of(k: Recipe, gs: Seq<PairV>) -> Seq<WarningV>
    decreases gs.len(),
{
    if gs.len() == 0 {
        seq![]
    } else {
        let w = warnings_of(k, gs.drop_last());
        if bad_group(k, gs.last()) {
            w.push(warning_for(k, gs.last()))
        } else {
            w
        }
    }
}

/// The value of the last group with code `code`.
pub open spec fn last_value(gs: Seq<PairV>, code: i32) -> Option<Seq<char>>
    decreases gs.len(),
{
    if gs.len() == 0 {
        None
    } else if gs.last().code == code {
        Some(gs.last().value)
    } else {
        last_value(gs.drop_last(), code)
    }
}

/// The value of the first group with code `code`.
pub open spec fn first_value(gs: Seq<PairV>, code: i32) -> Option<Seq<char>>
    decreases gs.len(),
{
    if gs.len() == 0 {
        None
    } else if gs[0].code == code {
        Some(gs[0].value)
    } else {
        first_value(gs.drop_first(), code)
    }
}

/// The groups whose code `keep` selects, in order.
pub open spec fn select(gs: Seq<PairV>, keep: spec_fn(i32) -> bool) -> Seq<(i32, Seq<char>)>
    decreases gs.len(),
{
    if gs.len() == 0 {
        seq![]
    } else {
        let s = select(gs.drop_last(), keep);
        if keep(gs.last().code) {
            s.push((gs.last().code, gs.last().value))
        } else {
            s
        }
    }
}

pub open spec fn text_field(gs: Seq<PairV>, code: i32, default: Seq<char>) -> Seq<char> {
    match last_value(gs, code) {
        Some(v) => v,
        None => default,
    }
}

pub open spec fn num_field(gs: Seq<PairV>, code: i32, default: Seq<char>) -> Seq<char> {
    match last_value(gs, code) {
        Some(v) => num_text(v),
        None => default,
    }
}

/// The number of the last group `code`, or `None` where there is none.
pub open spec fn opt_num_field(gs: Seq<PairV>, code: i32) -> Option<Seq<char>> {
    match last_value(gs, code) {
        Some(v) => Some(num_text(v)),
        None => None,
    }
}

pub open spec fn point_field(gs: Seq<PairV>, cx: i32, cy: i32, cz: i32) -> PointV {
    PointV {
        x: num_field(gs, cx, seq!['0']),
        y: num_field(gs, cy, seq!['0']),
        z: num_field(gs, cz, seq!['0']),
    }
}

/// Handle, color, linetype, XDATA and extra groups of an entity.
pub open spec fn props_of(k: Recipe, gs: Seq<PairV>) -> PropsV {
    PropsV {
        handle: last_value(gs, 5),
        color: match last_value(gs, 62) {
            Some(v) => Some(int_or_zero(v) as i16),
            None => None,
        },
        linetype: last_value(gs, 6),
        xdata: select(gs, |c: i32| is_xdata_code(c)),
        raw_extras: select(gs, |c: i32| extra_code(k, c)),
    }
}

proof fn lemma_take_step(gs: Seq<PairV>, i: int)
    requires
        0 <= i < gs.len(),
    ensures
        gs.take(i + 1).drop_last() == gs.take(i),
        gs.take(i + 1).last() == gs[i],
        gs.take(i + 1).len() == i + 1,
{
    assert(gs.take(i + 1).drop_last() =~= gs.take(i));
}

fn string_of(c: char) -> (r: String)
    ensures
        r@ == seq![c],
{
    let mut s = String::new();
    push_char(&mut s, c);
    assert(s@ =~= seq![c]);
    s
}

/// What `parse_f` keeps of a value: the number literal, or `0`.
pub fn num_of(v: &str) -> (r: String)
    ensures
        r@ == num_text(v@),
{
    let t = trim(v);
    if is_float_text(t.as_str()) {
        t
    } else {
        string_of('0')
    }
}

/// What `parse_i` keeps of a value: the integer, or `0`.
pub fn int_of(v: &str) -> (r: i64)
    ensures
        r == int_or_zero(v@),
{
    let t = trim(v);
    match parse_i64(t.as_str()) {
        Some(n) => n,
        None => 0,
    }
}

/// The value of the last group with code `code`.
pub fn last_value_of(gs: &[Pair], code: i32) -> (r: Option<&String>)
    ensures
        opt_view(match r { Some(s) => Some(*s), None => None }) == last_value(pair_seq_view(gs@), code),
{
    let ghost gv = pair_seq_view(gs@);
    let mut i = gs.len();
    assert(gv.take(i as int) =~= gv);
    while i > 0
        invariant
            i <= gs@.len(),
            gv == pair_seq_view(gs@),
            last_value(gv, code) == last_value(gv.take(i as int), code),
        decreases i,
    {
        proof {
            lemma_take_step(gv, i - 1);
        }
        if gs[i - 1].code == code {
            return Some(&gs[i - 1].value);
        }
        i = i - 1;
    }
    assert(gv.take(0).len() == 0);
    None
}

pub fn text_field_of(gs: &[Pair], code: i32, default: String) -> (r: String)
    ensures
        r@ == text_field(pair_seq_view(gs@), code, default@),
{
    match last_value_of(gs, code) {
        Some(v) => v.clone(),
        None => default,
    }
}

pub fn num_field_of(gs: &[Pair], code: i32, default: String) -> (r: String)
    ensures
        r@ == num_field(pair_seq_view(gs@), code, default@),
{
    match last_value_of(gs, code) {
        Some(v) => num_of(v.as_str()),
        None => default,
    }
}

pub fn opt_num_field_of(gs: &[Pair], code: i32) -> (r: Option<String>)
    ensures
        opt_view(r) == opt_num_field(pair_seq_view(gs@), code),
{
    match last_value_of(gs, code) {
        Some(v) => Some(num_of(v.as_str())),
        None => None,
    }
}

pub fn point_field_of(gs: &[Pair], cx: i32, cy: i32, cz: i32) -> (r: NumPoint)
    ensures
        r@ == point_field(pair_seq_view(gs@), cx, cy, cz),
{
    NumPoint {
        x: num_field_of(gs, cx, string_of('0')),
        y: num_field_of(gs, cy, string_of('0')),
        z: num_field_of(gs, cz, string_of('0')),
    }
}

pub fn is_float_code(k: Recipe, c: i32) -> (b: bool)
    ensures
        b == float_code(k, c),
{
    match k {
        Recipe::Line => c == 10 || c == 20 || c == 30 || c == 11 || c == 21 || c == 31,
        Recipe::Circle => c == 10 || c == 20 || c == 30 || c == 40,
        Recipe::Arc => c == 10 || c == 20 || c == 30 || c == 40 || c == 50 || c == 51,
        Recipe::LwPolyline => c == 10 || c == 20 || c == 42,
        Recipe::Text => c == 10 || c == 20 || c == 30 || c == 40 || c == 50,
        Recipe::Insert => c == 10 || c == 20 || c == 30 || c == 41 || c == 42 || c == 43 || c
            == 50,
        Recipe::MText => c == 10 || c == 20 || c == 30 || c == 40 || c == 50,
        Recipe::Dimension => c == 42 || c == 50 || (10 <= c && c <= 14) || (20 <= c && c <= 24)
            || (30 <= c && c <= 34),
        Recipe::Block => c == 10 || c == 20 || c == 30,
    }
}

pub fn is_int_code(k: Recipe, c: i32) -> (b: bool)
    ensures
        b == int_code(k, c),
{
    c == 62 || match k {
        Recipe::LwPolyline => c == 70,
        Recipe::MText => c == 71,
        Recipe::Dimension => c == 70,
        Recipe::Block => c == 70,
        _ => false,
    }
}

pub fn is_text_code(k: Recipe, c: i32) -> (b: bool)
    ensures
        b == text_code(k, c),
{
    match k {
        Recipe::Text => c == 1,
        Recipe::Insert => c == 2,
        Recipe::MText => c == 1 || c == 3,
        Recipe::Dimension => c == 1 || c == 2,
        Recipe::Block => c == 2,
        _ => false,
    }
}

/// Reads the common groups of an entity and records a warning for each
/// value that the recipe cannot read.
pub fn scan_groups(k: Recipe, gs: &[Pair], warnings: &mut Vec<ParseWarning>) -> (p: EntityProps)
    ensures
        p@ == props_of(k, pair_seq_view(gs@)),
        warnings_view(final(warnings)@) == warnings_view(old(warnings)@) + warnings_of(
            k,
            pair_seq_view(gs@),
        ),
{
    let ghost gv = pair_seq_view(gs@);
    let ghost w0 = warnings_view(warnings@);
    let mut props = EntityProps::default();
    let mut i: usize = 0;
    assert(gv.take(0).len() == 0);
    assert(warnings_view(warnings@) =~= w0 + warnings_of(k, gv.take(0)));
    assert(pairs_view(props.xdata@) =~= select(gv.take(0), |c: i32| is_xdata_code(c)));
    assert(pairs_view(props.raw_extras@) =~= select(gv.take(0), |c: i32| extra_code(k, c)));
    while i < gs.len()
        invariant
            i <= gs@.len(),
            gv == pair_seq_view(gs@),
            props@ == props_of(k, gv.take(i as int)),
            warnings_view(warnings@) == w0 + warnings_of(k, gv.take(i as int)),
        decreases gs@.len() - i,
    {
        proof {
            lemma_take_step(gv, i as int);
        }
        let g = &gs[i];
        assert(gv[i as int] == g@);
        let fl = is_float_code(k, g.code);
        let it = is_int_code(k, g.code);
        if fl || it {
            let t = trim(g.value.as_str());
            let bad = if fl {
                !is_float_text(t.as_str())
            } else {
                parse_i64(t.as_str()).is_none()
            };
            if bad {
                let w = ParseWarning {
                    code: g.code,
                    value: g.value.clone(),
                    kind: if fl {
                        "f64"
                    } else {
                        "i64"
                    },
                    entity: entity_name_of(k),
                };
                let ghost before = warnings@;
                warnings.push(w);
                assert(warnings_view(warnings@) =~= warnings_view(before).push(w@));
            }
        }
        let c = g.code;
        if c == 5 {
            props.handle = Some(g.value.clone());
        } else if c == 62 {
            props.color = Some(int_of(g.value.as_str()) as i16);
        } else if c == 6 {
            props.linetype = Some(g.value.clone());
        } else if 1001 <= c && c <= 1071 {
            let ghost before = props.xdata@;
            props.xdata.push((c, g.value.clone()));
            assert(pairs_view(props.xdata@) =~= pairs_view(before).push((c, g.value@)));
        } else if c != 8 && c != 100 && !fl && !(it && c != 62) && !is_text_code(k, c) && !(
        matches!(k, Recipe::LwPolyline) && c == 90) {
            let ghost before = props.raw_extras@;
            props.raw_extras.push((c, g.value.clone()));
            assert(pairs_view(props.raw_extras@) =~= pairs_view(before).push((c, g.value@)));
        }
        i = i + 1;
    }
    assert(gv.take(gs.len() as int) =~= gv);
    props
}


/// The state of the LWPOLYLINE vertex assembly: the vertices so far, their
/// bulges, and the coordinates and bulge of the vertex being read.
pub struct LwState {
    pub vertices: Seq<PointV>,
    pub bulges: Seq<Option<Seq<char>>>,
    pub x: Option<Seq<char>>,
    pub y: Option<Seq<char>>,
    pub bulge: Option<Seq<char>>,
}

pub open spec fn lw_start() -> LwState {
    LwState { vertices: seq![], bulges: seq![], x: None, y: None, bulge: None }
}

/// The vertex being read, if both its coordinates have been read, closes.
pub open spec fn lw_close(s: LwState) -> LwState {
    match (s.x, s.y) {
        (Some(x), Some(y)) => LwState {
            vertices: s.vertices.push(PointV { x, y, z: seq!['0'] }),
            bulges: s.bulges.push(s.bulge),
            x: s.x,
            y: s.y,
            bulge: None,
        },
        _ => s,
    }
}

/// One group of an LWPOLYLINE: code 10 starts a new vertex (closing the one
/// before), 20 gives its y, 42 its bulge.
pub open spec fn lw_step(s: LwState, g: PairV) -> LwState {
    if g.code == 10 {
        let c = lw_close(s);
        LwState { x: Some(num_text(g.value)), y: None, ..c }
    } else if g.code == 20 {
        LwState { y: Some(num_text(g.value)), ..s }
    } else if g.code == 42 {
        LwState { bulge: Some(num_text(g.value)), ..s }
    } else {
        s
    }
}

pub open spec fn lw_fold(gs: Seq<PairV>) -> LwState
    decreases gs.len(),
{
    if gs.len() == 0 {
        lw_start()
    } else {
        lw_step(lw_fold(gs.drop_last()), gs.last())
    }
}

/// The values of the groups with code 1 or 3, joined in order.
pub open spec fn joined_text(gs: Seq<PairV>) -> Seq<char>
    decreases gs.len(),
{
    if gs.len() == 0 {
        seq![]
    } else if gs.last().code == 1 || gs.last().code == 3 {
        joined_text(gs.drop_last()) + gs.last().value
    } else {
        joined_text(gs.drop_last())
    }
}

pub open spec fn dimension_points(gs: Seq<PairV>) -> Seq<PointV> {
    seq![
        point_field(gs, 10, 20, 30),
        point_field(gs, 11, 21, 31),
        point_field(gs, 12, 22, 32),
        point_field(gs, 13, 23, 33),
        point_field(gs, 14, 24, 34),
    ]
}

/// The entity that a recipe assembles from its groups.
pub open spec fn spec_entity(k: Recipe, gs: Seq<PairV>) -> EntityV {
    let layer = text_field(gs, 8, seq!['0']);
    let props = props_of(k, gs);
    let zero = seq!['0'];
    let one = seq!['1'];
    match k {
        Recipe::Line => EntityV::Line {
            p1: point_field(gs, 10, 20, 30),
            p2: point_field(gs, 11, 21, 31),
            layer,
            props,
        },
        Recipe::Circle => EntityV::Circle {
            center: point_field(gs, 10, 20, 30),
            radius: num_field(gs, 40, zero),
            layer,
            props,
        },
        Recipe::Arc => EntityV::Arc {
            center: point_field(gs, 10, 20, 30),
            radius: num_field(gs, 40, zero),
            start_angle: num_field(gs, 50, zero),
            end_angle: num_field(gs, 51, zero),
            layer,
            props,
        },
        Recipe::LwPolyline => {
            let s = lw_close(lw_fold(gs));
            EntityV::LwPolyline {
                vertices: s.vertices,
                bulges: s.bulges,
                closed: match last_value(gs, 70) {
                    Some(v) => int_or_zero(v) % 2 != 0,
                    None => false,
                },
                layer,
                props,
            }
        },
        Recipe::Text => EntityV::Text {
            position: point_field(gs, 10, 20, 30),
            value: text_field(gs, 1, seq![]),
            height: num_field(gs, 40, zero),
            rotation: opt_num_field(gs, 50),
            layer,
            props,
        },
        Recipe::Insert => EntityV::Insert {
            block_name: text_field(gs, 2, seq![]),
            position: point_field(gs, 10, 20, 30),
            scale_x: num_field(gs, 41, one),
            scale_y: num_field(gs, 42, one),
            scale_z: num_field(gs, 43, one),
            rotation: opt_num_field(gs, 50),
            layer,
            props,
        },
        Recipe::MText => EntityV::MText {
            position: point_field(gs, 10, 20, 30),
            value: joined_text(gs),
            height: num_field(gs, 40, zero),
            rotation: opt_num_field(gs, 50),
            attachment_point: match last_value(gs, 71) {
                Some(v) => int_or_zero(v) as i16,
                None => 1,
            },
            layer,
            props,
        },
        Recipe::Dimension => EntityV::Dimension {
            kind: match last_value(gs, 70) {
                Some(v) => int_or_zero(v) as u16,
                None => 0,
            },
            block_name: last_value(gs, 2),
            text_override: last_value(gs, 1),
            measured_value: match last_value(gs, 42) {
                Some(v) => Some(num_text(v)),
                None => None,
            },
            defining_points: dimension_points(gs),
            rotation: opt_num_field(gs, 50),
            layer,
            props,
        },
        Recipe::Block => EntityV::Raw {
            kind: entity_name(k),
            layer,
            groups: select(gs, |c: i32| true),
        },
    }
}

/// The recipe for an entity type name, if it has one.
pub open spec fn recipe_of(name: Seq<char>) -> Option<Recipe> {
    if name == "LINE"@ {
        Some(Recipe::Line)
    } else if name == "CIRCLE"@ {
        Some(Recipe::Circle)
    } else if name == "ARC"@ {
        Some(Recipe::Arc)
    } else if name == "LWPOLYLINE"@ {
        Some(Recipe::LwPolyline)
    } else if name == "TEXT"@ {
        Some(Recipe::Text)
    } else if name == "MTEXT"@ {
        Some(Recipe::MText)
    } else if name == "INSERT"@ {
        Some(Recipe::Insert)
    } else if name == "DIMENSION"@ {
        Some(Recipe::Dimension)
    } else {
        None
    }
}

/// The entity that a `0/<name>` record with groups `gs` stands for: the
/// recipe's entity, or, for a type without a recipe, all its groups kept
/// verbatim with the layer of the first group 8.
pub open spec fn spec_build_entity(name: Seq<char>, gs: Seq<PairV>) -> EntityV {
    match recipe_of(name) {
        Some(k) => spec_entity(k, gs),
        None => EntityV::Raw {
            kind: name,
            layer: match first_value(gs, 8) {
                Some(v) => v,
                None => seq!['0'],
            },
            groups: select(gs, |c: i32| true),
        },
    }
}

pub open spec fn entity_warnings(name: Seq<char>, gs: Seq<PairV>) -> Seq<WarningV> {
    match recipe_of(name) {
        Some(k) => warnings_of(k, gs),
        None => seq![],
    }
}

pub fn recipe_for(name: &str) -> (r: Option<Recipe>)
    ensures
        r == recipe_of(name@),
{
    if text_eq(name, "LINE") {
        Some(Recipe::Line)
    } else if text_eq(name, "CIRCLE") {
        Some(Recipe::Circle)
    } else if text_eq(name, "ARC") {
        Some(Recipe::Arc)
    } else if text_eq(name, "LWPOLYLINE") {
        Some(Recipe::LwPolyline)
    } else if text_eq(name, "TEXT") {
        Some(Recipe::Text)
    } else if text_eq(name, "MTEXT") {
        Some(Recipe::MText)
    } else if text_eq(name, "INSERT") {
        Some(Recipe::Insert)
    } else if text_eq(name, "DIMENSION") {
        Some(Recipe::Dimension)
    } else {
        None
    }
}

pub fn build_line(groups: &[Pair], warnings: &mut Vec<ParseWarning>) -> (e: Entity)
    ensures
        e@ == spec_entity(Recipe::Line, pair_seq_view(groups@)),
        warnings_view(final(warnings)@) == warnings_view(old(warnings)@) + warnings_of(
            Recipe::Line,
            pair_seq_view(groups@),
        ),
{
    let props = scan_groups(Recipe::Line, groups, warnings);
    Entity::Line {
        p1: point_field_of(groups, 10, 20, 30),
        p2: point_field_of(groups, 11, 21, 31),
        layer: text_field_of(groups, 8, string_of('0')),
        props,
    }
}

pub fn build_circle(groups: &[Pair], warnings: &mut Vec<ParseWarning>) -> (e: Entity)
    ensures
        e@ == spec_entity(Recipe::Circle, pair_seq_view(groups@)),
        warnings_view(final(warnings)@) == warnings_view(old(warnings)@) + warnings_of(
            Recipe::Circle,
            pair_seq_view(groups@),
        ),
{
    let props = scan_groups(Recipe::Circle, groups, warnings);
    Entity::Circle {
        center: point_field_of(groups, 10, 20, 30),
        radius: num_field_of(groups, 40, string_of('0')),
        layer: text_field_of(groups, 8, string_of('0')),
        props,
    }
}

pub fn build_arc(groups: &[Pair], warnings: &mut Vec<ParseWarning>) -> (e: Entity)
    ensures
        e@ == spec_entity(Recipe::Arc, pair_seq_view(groups@)),
        warnings_view(final(warnings)@) == warnings_view(old(warnings)@) + warnings_of(
            Recipe::Arc,
            pair_seq_view(groups@),
        ),
{
    let props = scan_groups(Recipe::Arc, groups, warnings);
    Entity::Arc {
        center: point_field_of(groups, 10, 20, 30),
        radius: num_field_of(groups, 40, string_of('0')),
        start_angle: num_field_of(groups, 50, string_of('0')),
        end_angle: num_field_of(groups, 51, string_of('0')),
        layer: text_field_of(groups, 8, string_of('0')),
        props,
    }
}

pub fn build_text(groups: &[Pair], warnings: &mut Vec<ParseWarning>) -> (e: Entity)
    ensures
        e@ == spec_entity(Recipe::Text, pair_seq_view(groups@)),
        warnings_view(final(warnings)@) == warnings_view(old(warnings)@) + warnings_of(
            Recipe::Text,
            pair_seq_view(groups@),
        ),
{
    let props = scan_groups(Recipe::Text, groups, warnings);
    Entity::Text {
        position: point_field_of(groups, 10, 20, 30),
        value: text_field_of(groups, 1, String::new()),
        height: num_field_of(groups, 40, string_of('0')),
        rotation: opt_num_field_of(groups, 50),
        layer: text_field_of(groups, 8, string_of('0')),
        props,
    }
}

pub fn build_insert(groups: &[Pair], warnings: &mut Vec<ParseWarning>) -> (e: Entity)
    ensures
        e@ == spec_entity(Recipe::Insert, pair_seq_view(groups@)),
        warnings_view(final(warnings)@) == warnings_view(old(warnings)@) + warnings_of(
            Recipe::Insert,
            pair_seq_view(groups@),
        ),
{
    let props = scan_groups(Recipe::Insert, groups, warnings);
    Entity::Insert {
        block_name: text_field_of(groups, 2, String::new()),
        position: point_field_of(groups, 10, 20, 30),
        scale_x: num_field_of(groups, 41, string_of('1')),
        scale_y: num_field_of(groups, 42, string_of('1')),
        scale_z: num_field_of(groups, 43, string_of('1')),
        rotation: opt_num_field_of(groups, 50),
        layer: text_field_of(groups, 8, string_of('0')),
        props,
    }
}

fn joined_text_of(gs: &[Pair]) -> (r: String)
    ensures
        r@ == joined_text(pair_seq_view(gs@)),
{
    let ghost gv = pair_seq_view(gs@);
    let mut out = String::new();
    let mut i: usize = 0;
    assert(gv.take(0).len() == 0);
    while i < gs.len()
        invariant
            i <= gs@.len(),
            gv == pair_seq_view(gs@),
            out@ == joined_text(gv.take(i as int)),
        decreases gs@.len() - i,
    {
        proof {
            lemma_take_step(gv, i as int);
        }
        assert(gv[i as int] == gs[i as int]@);
        if gs[i].code == 1 || gs[i].code == 3 {
            out.append(gs[i].value.as_str());
        }
        i = i + 1;
    }
    assert(gv.take(gs.len() as int) =~= gv);
    out
}

pub fn build_mtext(groups: &[Pair], warnings: &mut Vec<ParseWarning>) -> (e: Entity)
    ensures
        e@ == spec_entity(Recipe::MText, pair_seq_view(groups@)),
        warnings_view(final(warnings)@) == warnings_view(old(warnings)@) + warnings_of(
            Recipe::MText,
            pair_seq_view(groups@),
        ),
{
    let props = scan_groups(Recipe::MText, groups, warnings);
    let attachment_point = match last_value_of(groups, 71) {
        Some(v) => int_of(v.as_str()) as i16,
        None => 1,
    };
    Entity::MText {
        position: point_field_of(groups, 10, 20, 30),
        value: joined_text_of(groups),
        height: num_field_of(groups, 40, string_of('0')),
        rotation: opt_num_field_of(groups, 50),
        attachment_point,
        layer: text_field_of(groups, 8, string_of('0')),
        props,
    }
}

pub fn build_dimension(groups: &[Pair], warnings: &mut Vec<ParseWarning>) -> (e: Entity)
    ensures
        e@ == spec_entity(Recipe::Dimension, pair_seq_view(groups@)),
        warnings_view(final(warnings)@) == warnings_view(old(warnings)@) + warnings_of(
            Recipe::Dimension,
            pair_seq_view(groups@),
        ),
{
    let ghost gv = pair_seq_view(groups@);
    let props = scan_groups(Recipe::Dimension, groups, warnings);
    let kind_raw: u16 = match last_value_of(groups, 70) {
        Some(v) => int_of(v.as_str()) as u16,
        None => 0,
    };
    let block_name = match last_value_of(groups, 2) {
        Some(v) => Some(v.clone()),
        None => None,
    };
    let text_override = match last_value_of(groups, 1) {
        Some(v) => Some(v.clone()),
        None => None,
    };
    let measured_value = match last_value_of(groups, 42) {
        Some(v) => Some(num_of(v.as_str())),
        None => None,
    };
    let mut points: Vec<NumPoint> = Vec::new();
    points.push(point_field_of(groups, 10, 20, 30));
    points.push(point_field_of(groups, 11, 21, 31));
    points.push(point_field_of(groups, 12, 22, 32));
    points.push(point_field_of(groups, 13, 23, 33));
    points.push(point_field_of(groups, 14, 24, 34));
    assert(points_view(points@) =~= dimension_points(gv));
    Entity::Dimension {
        kind: crate::entity::DimensionKindRaw(kind_raw),
        block_name,
        text_override,
        measured_value,
        defining_points: points,
        rotation: opt_num_field_of(groups, 50),
        layer: text_field_of(groups, 8, string_of('0')),
        props,
    }
}

pub fn build_lwpolyline(groups: &[Pair], warnings: &mut Vec<ParseWarning>) -> (e: Entity)
    ensures
        e@ == spec_entity(Recipe::LwPolyline, pair_seq_view(groups@)),
        warnings_view(final(warnings)@) == warnings_view(old(warnings)@) + warnings_of(
            Recipe::LwPolyline,
            pair_seq_view(groups@),
        ),
{
    let ghost gv = pair_seq_view(groups@);
    let props = scan_groups(Recipe::LwPolyline, groups, warnings);
    let mut vertices: Vec<NumPoint> = Vec::new();
    let mut bulges: Vec<Option<String>> = Vec::new();
    let mut cur_x: Option<String> = None;
    let mut cur_y: Option<String> = None;
    let mut cur_bulge: Option<String> = None;
    let mut i: usize = 0;
    assert(gv.take(0).len() == 0);
    assert(points_view(vertices@) =~= seq![]);
    assert(opt_texts_view(bulges@) =~= seq![]);
    while i < groups.len()
        invariant
            i <= groups@.len(),
            gv == pair_seq_view(groups@),
            ({
                let s = lw_fold(gv.take(i as int));
                &&& points_view(vertices@) == s.vertices
                &&& opt_texts_view(bulges@) == s.bulges
                &&& opt_view(cur_x) == s.x
                &&& opt_view(cur_y) == s.y
                &&& opt_view(cur_bulge) == s.bulge
            }),
        decreases groups@.len() - i,
    {
        proof {
            lemma_take_step(gv, i as int);
        }
        let g = &groups[i];
        assert(gv[i as int] == g@);
        if g.code == 10 {
            if cur_x.is_some() && cur_y.is_some() {
                let x = cur_x.clone().unwrap();
                let y = cur_y.clone().unwrap();
                let ghost vb = vertices@;
                let ghost bb = bulges@;
                vertices.push(NumPoint { x, y, z: string_of('0') });
                bulges.push(cur_bulge);
                assert(points_view(vertices@) =~= points_view(vb).push(vertices@.last()@));
                assert(opt_texts_view(bulges@) =~= opt_texts_view(bb).push(opt_view(bulges@.last())));
                cur_bulge = None;
            }
            cur_x = Some(num_of(g.value.as_str()));
            cur_y = None;
        } else if g.code == 20 {
            cur_y = Some(num_of(g.value.as_str()));
        } else if g.code == 42 {
            cur_bulge = Some(num_of(g.value.as_str()));
        }
        i = i + 1;
    }
    assert(gv.take(groups.len() as int) =~= gv);
    if cur_x.is_some() && cur_y.is_some() {
        let x = cur_x.unwrap();
        let y = cur_y.unwrap();
        let ghost vb = vertices@;
        let ghost bb = bulges@;
        vertices.push(NumPoint { x, y, z: string_of('0') });
        bulges.push(cur_bulge);
        assert(points_view(vertices@) =~= points_view(vb).push(vertices@.last()@));
        assert(opt_texts_view(bulges@) =~= opt_texts_view(bb).push(opt_view(bulges@.last())));
    }
    let closed = match last_value_of(groups, 70) {
        Some(v) => int_of(v.as_str()) % 2 != 0,
        None => false,
    };
    Entity::LwPolyline {
        vertices,
        bulges,
        closed,
        layer: text_field_of(groups, 8, string_of('0')),
        props,
    }
}

/// The layer of the first group 8, or `0`.
pub fn extract_layer(groups: &[Pair]) -> (r: LayerName)
    ensures
        r@ == (match first_value(pair_seq_view(groups@), 8) {
            Some(v) => v,
            None => seq!['0'],
        }),
{
    let ghost gv = pair_seq_view(groups@);
    let mut i: usize = 0;
    assert(gv.skip(0) =~= gv);
    while i < groups.len()
        invariant
            i <= groups@.len(),
            gv == pair_seq_view(groups@),
            first_value(gv, 8) == first_value(gv.skip(i as int), 8),
        decreases groups@.len() - i,
    {
        assert(gv.skip(i as int)[0] == groups[i as int]@);
        assert(gv.skip(i as int).drop_first() =~= gv.skip(i + 1));
        if groups[i].code == 8 {
            return groups[i].value.clone();
        }
        i = i + 1;
    }
    assert(gv.skip(i as int).len() == 0);
    string_of('0')
}

fn all_groups(gs: &[Pair]) -> (r: Vec<(i32, String)>)
    ensures
        pairs_view(r@) == select(pair_seq_view(gs@), |c: i32| true),
{
    let ghost gv = pair_seq_view(gs@);
    let mut out: Vec<(i32, String)> = Vec::new();
    let mut i: usize = 0;
    assert(gv.take(0).len() == 0);
    assert(pairs_view(out@) =~= select(gv.take(0), |c: i32| true));
    while i < gs.len()
        invariant
            i <= gs@.len(),
            gv == pair_seq_view(gs@),
            pairs_view(out@) == select(gv.take(i as int), |c: i32| true),
        decreases gs@.len() - i,
    {
        proof {
            lemma_take_step(gv, i as int);
        }
        assert(gv[i as int] == gs[i as int]@);
        let ghost before = out@;
        out.push((gs[i].code, gs[i].value.clone()));
        assert(pairs_view(out@) =~= pairs_view(before).push((gs[i as int].code, gs[i as int].value@)));
        i = i + 1;
    }
    assert(gv.take(gs.len() as int) =~= gv);
    out
}

/// Top-level dispatch from an entity type name to its recipe.
pub fn build_entity(kind: &str, groups: &[Pair], warnings: &mut Vec<ParseWarning>) -> (e: Entity)
    ensures
        e@ == spec_build_entity(kind@, pair_seq_view(groups@)),
        warnings_view(final(warnings)@) == warnings_view(old(warnings)@) + entity_warnings(
            kind@,
            pair_seq_view(groups@),
        ),
{
    match recipe_for(kind) {
        Some(Recipe::Line) => build_line(groups, warnings),
        Some(Recipe::Circle) => build_circle(groups, warnings),
        Some(Recipe::Arc) => build_arc(groups, warnings),
        Some(Recipe::LwPolyline) => build_lwpolyline(groups, warnings),
        Some(Recipe::Text) => build_text(groups, warnings),
        Some(Recipe::MText) => build_mtext(groups, warnings),
        Some(Recipe::Insert) => build_insert(groups, warnings),
        Some(Recipe::Dimension) => build_dimension(groups, warnings),
        _ => {
            assert(warnings_view(warnings@) =~= warnings_view(warnings@) + seq![]);
            Entity::Raw(
                crate::entity::RawEntity {
                    kind: kind.to_owned(),
                    layer: extract_layer(groups),
                    groups: all_groups(groups),
                },
            )
        },
    }
}

} // verus!
