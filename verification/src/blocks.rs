//! Standard BLOCK definitions for doors and windows: defined at the origin,
//! in whole millimeters, and named `<KIND>_<width>` so that a reader can
//! tell the width from the name. Numbers are the literals the emitter
//! writes: the digits and three decimal zeros.

use vstd::prelude::*;

use crate::classify::trailing_digits;
use crate::entity::{
    entities_view, BlockDef, BlockV, Entity, EntityProps, EntityV, NumPoint, PointV, PropsV,
};
use crate::numeric::{all_digits, format_int, int_text, is_digit, lemma_nat_text, nat_text};

verus! {

/// The literal for a whole number of millimeters.
pub open spec fn mm_text(n: int) -> Seq<char> {
    int_text(n) + ".000"@
}

/// The point `(x, y, 0)` in whole millimeters.
pub open spec fn mm_point(x: int, y: int) -> PointV {
    PointV { x: mm_text(x), y: mm_text(y), z: mm_text(0) }
}

/// No handle, color or linetype, and no kept groups.
pub open spec fn no_props() -> PropsV {
    PropsV { handle: None, color: None, linetype: None, xdata: seq![], raw_extras: seq![] }
}

/// The LINE from `(x1, y1)` to `(x2, y2)` on `layer`.
pub open spec fn mm_line(x1: int, y1: int, x2: int, y2: int, layer: Seq<char>) -> EntityV {
    EntityV::Line { p1: mm_point(x1, y1), p2: mm_point(x2, y2), layer, props: no_props() }
}

/// The door block of width `w`: its leaf, a LINE from the hinge at the
/// origin along +X, and its swing, an ARC about the hinge of radius `w`
/// from 0 to 90 degrees.
pub open spec fn door_block(w: int) -> BlockV {
    BlockV {
        name: "DOOR_"@ + int_text(w),
        layer: "DOORS"@,
        base_point: mm_point(0, 0),
        flags: 0,
        entities: seq![
            mm_line(0, 0, w, 0, "DOORS"@),
            EntityV::Arc {
                center: mm_point(0, 0),
                radius: mm_text(w),
                start_angle: mm_text(0),
                end_angle: mm_text(90),
                layer: "DOORS"@,
                props: no_props(),
            },
        ],
        props: no_props(),
    }
}

/// The window block of width `w` and depth `d`: the rectangle from the
/// origin to `(w, d)`, bottom, top, left and right edge.
pub open spec fn window_block(w: int, d: int) -> BlockV {
    BlockV {
        name: "WINDOW_"@ + int_text(w),
        layer: "WINDOWS"@,
        base_point: mm_point(0, 0),
        flags: 0,
        entities: seq![
            mm_line(0, 0, w, 0, "WINDOWS"@),
            mm_line(0, d, w, d, "WINDOWS"@),
            mm_line(0, 0, 0, d, "WINDOWS"@),
            mm_line(w, 0, w, d, "WINDOWS"@),
        ],
        props: no_props(),
    }
}

fn mm(n: u32) -> (r: String)
    ensures
        r@ == mm_text(n as int),
{
    let mut s = format_int(n as i128);
    s.append(".000");
    s
}

fn mm_pt(x: u32, y: u32) -> (p: NumPoint)
    ensures
        p@ == mm_point(x as int, y as int),
{
    NumPoint { x: mm(x), y: mm(y), z: mm(0) }
}

fn bare_props() -> (p: EntityProps)
    ensures
        p@ == no_props(),
{
    let p = EntityProps::default();
    assert(p@.xdata =~= seq![]);
    assert(p@.raw_extras =~= seq![]);
    p
}

fn line(x1: u32, y1: u32, x2: u32, y2: u32, layer: &str) -> (e: Entity)
    ensures
        e@ == mm_line(x1 as int, y1 as int, x2 as int, y2 as int, layer@),
{
    Entity::Line { p1: mm_pt(x1, y1), p2: mm_pt(x2, y2), layer: layer.to_owned(), props: bare_props() }
}

fn named(prefix: &str, w: u32) -> (r: String)
    ensures
        r@ == prefix@ + int_text(w as int),
{
    let mut s = prefix.to_owned();
    let t = format_int(w as i128);
    s.append(t.as_str());
    s
}

/// The standard door block of the given width.
pub fn standard_door_block(width_mm: u32) -> (b: BlockDef)
    ensures
        b@ == door_block(width_mm as int),
{
    let arc = Entity::Arc {
        center: mm_pt(0, 0),
        radius: mm(width_mm),
        start_angle: mm(0),
        end_angle: mm(90),
        layer: "DOORS".to_owned(),
        props: bare_props(),
    };
    let entities = vec![line(0, 0, width_mm, 0, "DOORS"), arc];
    let b = BlockDef {
        name: named("DOOR_", width_mm),
        layer: "DOORS".to_owned(),
        base_point: mm_pt(0, 0),
        flags: 0,
        entities,
        props: bare_props(),
    };
    assert(entities_view(b.entities@) =~= door_block(width_mm as int).entities);
    b
}

/// The standard window block of the given width and depth.
pub fn standard_window_block(width_mm: u32, depth_mm: u32) -> (b: BlockDef)
    ensures
        b@ == window_block(width_mm as int, depth_mm as int),
{
    let w = width_mm;
    let d = depth_mm;
    let entities = vec![
        line(0, 0, w, 0, "WINDOWS"),
        line(0, d, w, d, "WINDOWS"),
        line(0, 0, 0, d, "WINDOWS"),
        line(w, 0, w, d, "WINDOWS"),
    ];
    let b = BlockDef {
        name: named("WINDOW_", w),
        layer: "WINDOWS".to_owned(),
        base_point: mm_pt(0, 0),
        flags: 0,
        entities,
        props: bare_props(),
    };
    assert(entities_view(b.entities@) =~= window_block(w as int, d as int).entities);
    b
}

/// The widths of the standard doors, in millimeters.
pub open spec fn door_widths() -> Seq<u32> {
    seq![600, 700, 800, 900, 1000, 1200]
}

/// The widths of the standard windows, in millimeters.
pub open spec fn window_widths() -> Seq<u32> {
    seq![600, 900, 1200, 1500, 1800, 2400]
}

/// The depth of a standard window, in millimeters.
pub const DEFAULT_WINDOW_DEPTH_MM: u32 = 80;

/// The widths of the standard doors (mm), smallest first.
pub fn standard_door_widths_mm() -> (r: Vec<u32>)
    ensures
        r@ == door_widths(),
{
    let r: Vec<u32> = vec![600, 700, 800, 900, 1000, 1200];
    assert(r@ =~= door_widths());
    r
}

/// The widths of the standard windows (mm), smallest first.
pub fn standard_window_widths_mm() -> (r: Vec<u32>)
    ensures
        r@ == window_widths(),
{
    let r: Vec<u32> = vec![600, 900, 1200, 1500, 1800, 2400];
    assert(r@ =~= window_widths());
    r
}

/// The standard door blocks, one for each standard width, then the
/// standard window blocks at the default depth, each list in width order.
pub fn standard_opening_blocks() -> (r: Vec<BlockDef>)
    ensures
        r@.len() == door_widths().len() + window_widths().len(),
        forall|i: int|
            0 <= i < door_widths().len() ==> (#[trigger] r@[i])@ == door_block(
                door_widths()[i] as int,
            ),
        forall|i: int|
            0 <= i < window_widths().len() ==> (#[trigger] r@[door_widths().len() + i])@
                == window_block(window_widths()[i] as int, DEFAULT_WINDOW_DEPTH_MM as int),
{
    let doors = standard_door_widths_mm();
    let windows = standard_window_widths_mm();
    let nd = doors.len();
    let mut r: Vec<BlockDef> = Vec::new();
    let mut k: usize = 0;
    while k < nd
        invariant
            nd == doors@.len(),
            doors@ == door_widths(),
            k <= nd,
            r@.len() == k,
            forall|i: int| 0 <= i < k ==> (#[trigger] r@[i])@ == door_block(door_widths()[i] as int),
        decreases nd - k,
    {
        r.push(standard_door_block(doors[k]));
        k = k + 1;
    }
    let nw = windows.len();
    let mut k: usize = 0;
    while k < nw
        invariant
            nd == door_widths().len(),
            nw == windows@.len(),
            windows@ == window_widths(),
            k <= nw,
            r@.len() == nd + k,
            forall|i: int| 0 <= i < nd ==> (#[trigger] r@[i])@ == door_block(door_widths()[i] as int),
            forall|i: int|
                0 <= i < k ==> (#[trigger] r@[nd + i])@ == window_block(
                    window_widths()[i] as int,
                    DEFAULT_WINDOW_DEPTH_MM as int,
                ),
        decreases nw - k,
    {
        let ghost before = r@;
        r.push(standard_window_block(windows[k], DEFAULT_WINDOW_DEPTH_MM));
        proof {
            assert forall|i: int| 0 <= i < k + 1 implies (#[trigger] r@[nd + i])@ == window_block(
                window_widths()[i] as int,
                DEFAULT_WINDOW_DEPTH_MM as int,
            ) by {
                if i < k {
                    assert(r@[nd + i] == before[nd + i]);
                }
            }
        }
        k = k + 1;
    }
    r
}

/// `p` is a corner of the rectangle from the origin to `(w, d)`.
pub open spec fn rect_corner(p: PointV, w: int, d: int) -> bool {
    &&& (p.x == mm_text(0) || p.x == mm_text(w))
    &&& (p.y == mm_text(0) || p.y == mm_text(d))
    &&& p.z == mm_text(0)
}

/// `e` is a LINE between `a` and `b`, either way round.
pub open spec fn joins(e: EntityV, a: PointV, b: PointV) -> bool {
    e matches EntityV::Line { p1, p2, .. } && ((p1 == a && p2 == b) || (p1 == b && p2 == a))
}

/// The window block is the rectangle from the origin to `(w, d)`: it has
/// four LINEs on the WINDOWS layer, each running along an axis between two
/// corners of the rectangle, and each side of the rectangle is one of
/// them; the third is the left edge, from the origin up to `(0, d)`.
pub proof fn lemma_window_block_is_rectangle(w: int, d: int)
    ensures
        ({
            let es = window_block(w, d).entities;
            &&& es.len() == 4
            &&& forall|k: int|
                0 <= k < 4 ==> (#[trigger] es[k] matches EntityV::Line { p1, p2, layer, .. }
                    && layer == "WINDOWS"@ && rect_corner(p1, w, d) && rect_corner(p2, w, d) && (
                p1.x == p2.x || p1.y == p2.y))
            &&& exists|k: int| 0 <= k < 4 && joins(#[trigger] es[k], mm_point(0, 0), mm_point(w, 0))
            &&& exists|k: int| 0 <= k < 4 && joins(#[trigger] es[k], mm_point(0, d), mm_point(w, d))
            &&& exists|k: int| 0 <= k < 4 && joins(#[trigger] es[k], mm_point(0, 0), mm_point(0, d))
            &&& exists|k: int| 0 <= k < 4 && joins(#[trigger] es[k], mm_point(w, 0), mm_point(w, d))
            &&& es[2] matches EntityV::Line { p1, p2, .. } && p1 == mm_point(0, 0) && p2 == mm_point(
                0,
                d,
            )
        }),
{
    let es = window_block(w, d).entities;
    assert(joins(es[0], mm_point(0, 0), mm_point(w, 0)));
    assert(joins(es[1], mm_point(0, d), mm_point(w, d)));
    assert(joins(es[2], mm_point(0, 0), mm_point(0, d)));
    assert(joins(es[3], mm_point(w, 0), mm_point(w, d)));
}

/// The door block is a leaf and its swing: a LINE on the DOORS layer from
/// the hinge at the origin to `(w, 0)`, and an ARC on the same layer about
/// that hinge whose radius is the leaf's length `w`, sweeping the quarter
/// turn from 0 to 90 degrees.
pub proof fn lemma_door_block_swings(w: int)
    ensures
        ({
            let es = door_block(w).entities;
            &&& es.len() == 2
            &&& es[0] matches EntityV::Line { p1, p2, layer, .. } && layer == "DOORS"@ && p1
                == mm_point(0, 0) && p2 == mm_point(w, 0)
            &&& es[1] matches EntityV::Arc { center, radius, start_angle, end_angle, layer, .. }
                && layer == "DOORS"@ && center == mm_point(0, 0) && radius == mm_text(w)
                && start_angle == mm_text(0) && end_angle == mm_text(90)
        }),
{
}

proof fn lemma_trailing_digits_append(s: Seq<char>, t: Seq<char>)
    requires
        s.len() > 0,
        !is_digit(s.last()),
        all_digits(t),
    ensures
        trailing_digits(s + t) == t,
    decreases t.len(),
{
    if t.len() == 0 {
        assert(s + t =~= s);
    } else {
        assert((s + t).last() == t.last());
        assert((s + t).drop_last() =~= s + t.drop_last());
        lemma_trailing_digits_append(s, t.drop_last());
        assert(t.drop_last().push(t.last()) =~= t);
    }
}

/// A standard block's name ends with its width: the digits that end the
/// name of the door or window block of width `w` are the decimal digits
/// of `w`.
pub proof fn lemma_block_name_gives_width(w: u32, d: u32)
    ensures
        trailing_digits(door_block(w as int).name) == int_text(w as int),
        trailing_digits(window_block(w as int, d as int).name) == int_text(w as int),
{
    reveal_strlit("DOOR_");
    reveal_strlit("WINDOW_");
    lemma_nat_text(w as nat);
    assert("DOOR_"@.last() == '_');
    assert("WINDOW_"@.last() == '_');
    lemma_trailing_digits_append("DOOR_"@, nat_text(w as nat));
    lemma_trailing_digits_append("WINDOW_"@, nat_text(w as nat));
}

} // verus!
