//! DXF emitter: writes sections, tables, blocks and entities as group-code
//! pairs, one line for the code and one for the value.
//!
//! The writer collects the lines of the file; the caller writes each of
//! them followed by a line break. Numbers are written as the literal texts
//! that the entities hold.

use vstd::prelude::*;

use crate::entity::{
    BlockDef, BlockV, Entity, EntityProps, EntityV, PointV, PropsV, entities_view, opt_view,
    pairs_view,
};
use crate::numeric::{
    exp_index, format_int, int_text, number_in, number_ok, parse_i64, pos_of_exp, spec_parse_i64,
    strip_sign,
};
use crate::text::push_char;

verus! {

/// The lines that a sequence of pairs is written as: for each pair, the
/// decimal code, then the value.
pub open spec fn render(ps: Seq<(i32, Seq<char>)>) -> Seq<Seq<char>>
    decreases ps.len(),
{
    if ps.len() == 0 {
        seq![]
    } else {
        render(ps.drop_last()) + seq![int_text(ps.last().0 as int), ps.last().1]
    }
}

/// A layer of the LAYER table.
#[derive(Debug, Clone)]
pub struct LayerDef {
    pub name: String,
    /// AutoCAD color index (1=red, 2=yellow, 3=green, 4=cyan, 5=blue,
    /// 6=magenta, 7=white, 8=grey, 9=light grey).
    pub color: i16,
    pub linetype: String,
    pub flags: i64,
}

pub struct LayerV {
    pub name: Seq<char>,
    pub color: i16,
    pub linetype: Seq<char>,
    pub flags: i64,
}

impl View for LayerDef {
    type V = LayerV;

    open spec fn view(&self) -> LayerV {
        LayerV { name: self.name@, color: self.color, linetype: self.linetype@, flags: self.flags }
    }
}

impl LayerDef {
    pub fn new(name: &str, color: i16) -> (l: Self)
        ensures
            l@ == (LayerV { name: name@, color, linetype: "CONTINUOUS"@, flags: 0 }),
    {
        LayerDef { name: name.to_owned(), color, linetype: "CONTINUOUS".to_owned(), flags: 0 }
    }
}

pub open spec fn layer_v(name: Seq<char>, color: i16) -> LayerV {
    LayerV { name, color, linetype: "CONTINUOUS"@, flags: 0 }
}

/// The architectural layers used by synthesis, with their colors.
pub open spec fn arch_layers() -> Seq<LayerV> {
    seq![
        layer_v("0"@, 7),
        layer_v("WALLS"@, 7),
        layer_v("DOORS"@, 2),
        layer_v("WINDOWS"@, 4),
        layer_v("DIMENSIONS"@, 3),
        layer_v("TEXT"@, 6),
        layer_v("GRID"@, 8),
    ]
}

pub open spec fn layers_view(v: Seq<LayerDef>) -> Seq<LayerV> {
    v.map_values(|l: LayerDef| l@)
}

/// The set of architectural layers used by synthesis.
pub fn standard_arch_layers() -> (v: Vec<LayerDef>)
    ensures
        layers_view(v@) == arch_layers(),
{
    let mut v = Vec::new();
    v.push(LayerDef::new("0", 7));
    v.push(LayerDef::new("WALLS", 7));
    v.push(LayerDef::new("DOORS", 2));
    v.push(LayerDef::new("WINDOWS", 4));
    v.push(LayerDef::new("DIMENSIONS", 3));
    v.push(LayerDef::new("TEXT", 6));
    v.push(LayerDef::new("GRID", 8));
    assert(layers_view(v@) =~= arch_layers());
    v
}

/// The groups that props add after an entity's own groups: handle, color,
/// linetype, then the extra groups, then the XDATA.
pub open spec fn props_groups(p: PropsV) -> Seq<(i32, Seq<char>)> {
    (match p.handle {
        Some(h) => seq![(5i32, h)],
        None => seq![],
    }) + (match p.color {
        Some(c) => seq![(62i32, int_text(c as int))],
        None => seq![],
    }) + (match p.linetype {
        Some(t) => seq![(6i32, t)],
        None => seq![],
    }) + p.raw_extras + p.xdata
}

pub open spec fn point_groups(p: PointV, cx: i32, cy: i32, cz: i32) -> Seq<(i32, Seq<char>)> {
    seq![(cx, p.x), (cy, p.y), (cz, p.z)]
}

/// Whether a group of code `c` is among `gs`.
pub open spec fn has_code(gs: Seq<(i32, Seq<char>)>, c: i32) -> bool {
    exists|i: int| 0 <= i < gs.len() && gs[i].0 == c
}

/// The text style group of a TEXT: the default style, where the entity
/// carries no style group of its own among its extra groups.
pub open spec fn style_group(p: PropsV) -> Seq<(i32, Seq<char>)> {
    if has_code(p.raw_extras, 7) {
        seq![]
    } else {
        seq![(7i32, "STANDARD"@)]
    }
}

/// A rotation group, written where the entity has a rotation.
pub open spec fn rotation_group(r: Option<Seq<char>>) -> Seq<(i32, Seq<char>)> {
    match r {
        Some(t) => seq![(50i32, t)],
        None => seq![],
    }
}

pub open spec fn opt_group(code: i32, v: Option<Seq<char>>) -> Seq<(i32, Seq<char>)> {
    match v {
        Some(t) => seq![(code, t)],
        None => seq![],
    }
}

/// The vertices of an LWPOLYLINE: x, y, and the bulge where the vertex
/// has one.
pub open spec fn lw_vertex_groups(vs: Seq<PointV>, bs: Seq<Option<Seq<char>>>) -> Seq<(i32, Seq<char>)>
    decreases vs.len(),
{
    if vs.len() == 0 {
        seq![]
    } else {
        let i = vs.len() - 1;
        lw_vertex_groups(vs.drop_last(), bs) + seq![(10i32, vs.last().x), (20i32, vs.last().y)]
            + if i < bs.len() && bs[i] is Some {
            seq![(42i32, bs[i]->0)]
        } else {
            seq![]
        }
    }
}

/// The defining points of a DIMENSION: point `i` under codes 10+i, 20+i,
/// 30+i.
pub open spec fn dim_point_groups(ps: Seq<PointV>) -> Seq<(i32, Seq<char>)>
    decreases ps.len(),
{
    if ps.len() == 0 {
        seq![]
    } else {
        let i = ps.len() - 1;
        dim_point_groups(ps.drop_last()) + point_groups(
            ps.last(),
            (10 + i) as i32,
            (20 + i) as i32,
            (30 + i) as i32,
        )
    }
}

/// The groups of a DIMENSION.
pub open spec fn dimension_groups(
    kind: u16,
    block_name: Option<Seq<char>>,
    text_override: Option<Seq<char>>,
    measured_value: Option<Seq<char>>,
    defining_points: Seq<PointV>,
    rotation: Option<Seq<char>>,
    layer: Seq<char>,
    props: PropsV,
) -> Seq<(i32, Seq<char>)> {
    seq![(0i32, "DIMENSION"@), (8i32, layer), (100i32, "AcDbEntity"@)] + opt_group(2, block_name)
        + dim_point_groups(defining_points) + seq![(70i32, int_text(kind as int))] + opt_group(
        1,
        text_override,
    ) + opt_group(42, measured_value) + rotation_group(rotation) + props_groups(props)
}

/// The groups an entity is written as, starting with its `0/<type>` pair.
pub open spec fn emit_groups(e: EntityV) -> Seq<(i32, Seq<char>)> {
    match e {
        EntityV::Line { p1, p2, layer, props } => seq![
            (0i32, "LINE"@),
            (8i32, layer),
            (100i32, "AcDbEntity"@),
            (100i32, "AcDbLine"@),
        ] + point_groups(p1, 10, 20, 30) + point_groups(p2, 11, 21, 31) + props_groups(props),
        EntityV::Circle { center, radius, layer, props } => seq![
            (0i32, "CIRCLE"@),
            (8i32, layer),
            (100i32, "AcDbEntity"@),
            (100i32, "AcDbCircle"@),
        ] + point_groups(center, 10, 20, 30) + seq![(40i32, radius)] + props_groups(props),
        EntityV::Arc { center, radius, start_angle, end_angle, layer, props } => seq![
            (0i32, "ARC"@),
            (8i32, layer),
            (100i32, "AcDbEntity"@),
            (100i32, "AcDbCircle"@),
        ] + point_groups(center, 10, 20, 30) + seq![
            (40i32, radius),
            (100i32, "AcDbArc"@),
            (50i32, start_angle),
            (51i32, end_angle),
        ] + props_groups(props),
        EntityV::LwPolyline { vertices, bulges, closed, layer, props } => seq![
            (0i32, "LWPOLYLINE"@),
            (8i32, layer),
            (100i32, "AcDbEntity"@),
            (100i32, "AcDbPolyline"@),
            (90i32, int_text(vertices.len() as int)),
            (70i32, if closed {
                "1"@
            } else {
                "0"@
            }),
        ] + lw_vertex_groups(vertices, bulges) + props_groups(props),
        EntityV::Text { position, value, height, rotation, layer, props } => seq![
            (0i32, "TEXT"@),
            (8i32, layer),
            (100i32, "AcDbEntity"@),
            (100i32, "AcDbText"@),
        ] + point_groups(position, 10, 20, 30) + seq![(40i32, height), (1i32, value)]
            + rotation_group(rotation) + style_group(props) + props_groups(props),
        EntityV::MText { position, value, height, rotation, attachment_point, layer, props } => seq![
            (0i32, "MTEXT"@),
            (8i32, layer),
            (100i32, "AcDbEntity"@),
            (100i32, "AcDbMText"@),
        ] + point_groups(position, 10, 20, 30) + seq![
            (40i32, height),
            (71i32, int_text(attachment_point as int)),
            (1i32, value),
        ] + rotation_group(rotation) + props_groups(props),
        EntityV::Insert {
            block_name,
            position,
            scale_x,
            scale_y,
            scale_z,
            rotation,
            layer,
            props,
        } => seq![
            (0i32, "INSERT"@),
            (8i32, layer),
            (100i32, "AcDbEntity"@),
            (100i32, "AcDbBlockReference"@),
            (2i32, block_name),
        ] + point_groups(position, 10, 20, 30) + seq![
            (41i32, scale_x),
            (42i32, scale_y),
            (43i32, scale_z),
        ] + rotation_group(rotation) + props_groups(props),
        EntityV::Dimension {
            kind,
            block_name,
            text_override,
            measured_value,
            defining_points,
            rotation,
            layer,
            props,
        } => dimension_groups(
            kind,
            block_name,
            text_override,
            measured_value,
            defining_points,
            rotation,
            layer,
            props,
        ),
        EntityV::Raw { kind, layer, groups } => seq![(0i32, kind)] + groups,
    }
}

pub open spec fn lines_view(v: Seq<String>) -> Seq<Seq<char>> {
    v.map_values(|s: String| s@)
}

/// Streaming DXF writer. The caller keeps the section order: HEADER,
/// TABLES, BLOCKS, ENTITIES, then `finish`.
pub struct DxfWriter {
    lines: Vec<String>,
    written: Ghost<Seq<(i32, Seq<char>)>>,
}

impl DxfWriter {
    /// The pairs written so far.
    pub closed spec fn written(&self) -> Seq<(i32, Seq<char>)> {
        self.written@
    }

    pub closed spec fn wf(&self) -> bool {
        lines_view(self.lines@) == render(self.written@)
    }

    pub fn new() -> (w: Self)
        ensures
            w.wf(),
            w.written() == Seq::<(i32, Seq<char>)>::empty(),
    {
        let w = DxfWriter { lines: Vec::new(), written: Ghost(Seq::empty()) };
        assert(lines_view(w.lines@) =~= render(Seq::empty()));
        w
    }

    pub fn write_pair(&mut self, code: i32, value: &str)
        requires
            old(self).wf(),
        ensures
            final(self).wf(),
            final(self).written() == old(self).written().push((code, value@)),
    {
        let ghost before = self.lines@;
        let ghost w0 = self.written@;
        self.lines.push(format_int(code as i128));
        self.lines.push(value.to_owned());
        self.written = Ghost(w0.push((code, value@)));
        proof {
            let ps = w0.push((code, value@));
            assert(ps.drop_last() =~= w0);
            assert(lines_view(self.lines@) =~= lines_view(before) + seq![int_text(code as int), value@]);
        }
    }

    fn write_pair_string(&mut self, code: i32, value: String)
        requires
            old(self).wf(),
        ensures
            final(self).wf(),
            final(self).written() == old(self).written().push((code, value@)),
    {
        self.write_pair(code, value.as_str());
    }

    fn write_point(&mut self, p: &crate::entity::NumPoint, cx: i32, cy: i32, cz: i32)
        requires
            old(self).wf(),
        ensures
            final(self).wf(),
            final(self).written() == old(self).written() + point_groups(p@, cx, cy, cz),
    {
        let ghost w0 = self.written();
        self.write_pair(cx, p.x.as_str());
        self.write_pair(cy, p.y.as_str());
        self.write_pair(cz, p.z.as_str());
        assert(self.written() =~= w0 + point_groups(p@, cx, cy, cz));
    }

    fn write_pairs(&mut self, ps: &Vec<(i32, String)>)
        requires
            old(self).wf(),
        ensures
            final(self).wf(),
            final(self).written() == old(self).written() + pairs_view(ps@),
    {
        let ghost w0 = self.written();
        let mut i: usize = 0;
        assert(pairs_view(ps@).take(0) =~= seq![]);
        assert(w0 + seq![] =~= w0);
        while i < ps.len()
            invariant
                self.wf(),
                i <= ps@.len(),
                self.written() == w0 + pairs_view(ps@).take(i as int),
            decreases ps@.len() - i,
        {
            self.write_pair(ps[i].0, ps[i].1.as_str());
            assert(pairs_view(ps@).take(i + 1) =~= pairs_view(ps@).take(i as int).push(
                (ps@[i as int].0, ps@[i as int].1@),
            ));
            i = i + 1;
        }
        assert(pairs_view(ps@).take(ps@.len() as int) =~= pairs_view(ps@));
    }

    fn write_rotation(&mut self, r: &Option<String>)
        requires
            old(self).wf(),
        ensures
            final(self).wf(),
            final(self).written() == old(self).written() + rotation_group(opt_view(*r)),
    {
        let ghost w0 = self.written();
        match r {
            Some(t) => {
                self.write_pair(50, t.as_str());
                assert(self.written() =~= w0 + rotation_group(opt_view(*r)));
            },
            None => {
                assert(w0 + rotation_group(opt_view(*r)) =~= w0);
            },
        }
    }

    fn write_opt(&mut self, code: i32, v: &Option<String>)
        requires
            old(self).wf(),
        ensures
            final(self).wf(),
            final(self).written() == old(self).written() + opt_group(code, crate::entity::opt_view(*v)),
    {
        let ghost w0 = self.written();
        match v {
            Some(t) => {
                self.write_pair(code, t.as_str());
                assert(self.written() =~= w0 + opt_group(code, crate::entity::opt_view(*v)));
            },
            None => {
                assert(w0 + opt_group(code, crate::entity::opt_view(*v)) =~= w0);
            },
        }
    }

    /// Color, linetype, the extra groups, then the XDATA.
    pub fn emit_extras(&mut self, props: &EntityProps)
        requires
            old(self).wf(),
        ensures
            final(self).wf(),
            final(self).written() == old(self).written() + props_groups(props@),
    {
        let ghost wh = self.written();
        if let Some(h) = &props.handle {
            self.write_pair(5, h.as_str());
        }
        let ghost w0 = self.written();
        if let Some(c) = props.color {
            self.write_pair_string(62, format_int(c as i128));
        }
        let ghost w1 = self.written();
        if let Some(t) = &props.linetype {
            self.write_pair(6, t.as_str());
        }
        let ghost w2 = self.written();
        self.write_pairs(&props.raw_extras);
        self.write_pairs(&props.xdata);
        proof {
            let cg = match props@.color {
                Some(c) => seq![(62i32, int_text(c as int))],
                None => seq![],
            };
            let lg = match props@.linetype {
                Some(t) => seq![(6i32, t)],
                None => seq![],
            };
            let hg = match props@.handle {
                Some(h) => seq![(5i32, h)],
                None => seq![],
            };
            assert(w0 =~= wh + hg);
            assert(w1 =~= w0 + cg);
            assert(w2 =~= w1 + lg);
            assert(self.written() =~= wh + props_groups(props@));
        }
    }
}


/// Writes one entity: its type, its recipe's groups, then its props.
pub fn emit_entity(w: &mut DxfWriter, e: &Entity)
    requires
        old(w).wf(),
    ensures
        final(w).wf(),
        final(w).written() == old(w).written() + emit_groups(e@),
{
    match e {
        Entity::Line { .. } => emit_line(w, e),
        Entity::Circle { .. } => emit_circle(w, e),
        Entity::Arc { .. } => emit_arc(w, e),
        Entity::LwPolyline { .. } => emit_lwpolyline(w, e),
        Entity::Text { .. } => emit_text(w, e),
        Entity::MText { .. } => emit_mtext(w, e),
        Entity::Insert { .. } => emit_insert(w, e),
        Entity::Dimension { .. } => emit_dimension(w, e),
        Entity::Raw(_) => emit_raw(w, e),
    }
}

fn emit_line(w: &mut DxfWriter, e: &Entity)
    requires
        old(w).wf(),
        e is Line,
    ensures
        final(w).wf(),
        final(w).written() == old(w).written() + emit_groups(e@),
{
    let ghost w0 = w.written();
    match e {
        Entity::Line { p1, p2, layer, props } => {
            w.write_pair(0, "LINE");
            w.write_pair(8, layer.as_str());
            w.write_pair(100, "AcDbEntity");
            w.write_pair(100, "AcDbLine");
            let ghost a = w.written();
            w.write_point(p1, 10, 20, 30);
            w.write_point(p2, 11, 21, 31);
            let ghost b = w.written();
            w.emit_extras(props);
            assert(a =~= w0 + seq![
                (0i32, "LINE"@),
                (8i32, layer@),
                (100i32, "AcDbEntity"@),
                (100i32, "AcDbLine"@),
            ]);
            assert(w.written() =~= w0 + emit_groups(e@));
        },
        _ => {},
    }
}

fn emit_circle(w: &mut DxfWriter, e: &Entity)
    requires
        old(w).wf(),
        e is Circle,
    ensures
        final(w).wf(),
        final(w).written() == old(w).written() + emit_groups(e@),
{
    let ghost w0 = w.written();
    match e {
        Entity::Circle { center, radius, layer, props } => {
            w.write_pair(0, "CIRCLE");
            w.write_pair(8, layer.as_str());
            w.write_pair(100, "AcDbEntity");
            w.write_pair(100, "AcDbCircle");
            let ghost a = w.written();
            w.write_point(center, 10, 20, 30);
            w.write_pair(40, radius.as_str());
            w.emit_extras(props);
            assert(a =~= w0 + seq![
                (0i32, "CIRCLE"@),
                (8i32, layer@),
                (100i32, "AcDbEntity"@),
                (100i32, "AcDbCircle"@),
            ]);
            assert(w.written() =~= w0 + emit_groups(e@));
        },
        _ => {},
    }
}

fn emit_arc(w: &mut DxfWriter, e: &Entity)
    requires
        old(w).wf(),
        e is Arc,
    ensures
        final(w).wf(),
        final(w).written() == old(w).written() + emit_groups(e@),
{
    let ghost w0 = w.written();
    match e {
        Entity::Arc { center, radius, start_angle, end_angle, layer, props } => {
            w.write_pair(0, "ARC");
            w.write_pair(8, layer.as_str());
            w.write_pair(100, "AcDbEntity");
            w.write_pair(100, "AcDbCircle");
            let ghost a = w.written();
            w.write_point(center, 10, 20, 30);
            let ghost b = w.written();
            w.write_pair(40, radius.as_str());
            w.write_pair(100, "AcDbArc");
            w.write_pair(50, start_angle.as_str());
            w.write_pair(51, end_angle.as_str());
            let ghost c = w.written();
            w.emit_extras(props);
            assert(a =~= w0 + seq![
                (0i32, "ARC"@),
                (8i32, layer@),
                (100i32, "AcDbEntity"@),
                (100i32, "AcDbCircle"@),
            ]);
            assert(c =~= b + seq![
                (40i32, radius@),
                (100i32, "AcDbArc"@),
                (50i32, start_angle@),
                (51i32, end_angle@),
            ]);
            assert(w.written() =~= w0 + emit_groups(e@));
        },
        _ => {},
    }
}

fn emit_lwpolyline(w: &mut DxfWriter, e: &Entity)
    requires
        old(w).wf(),
        e is LwPolyline,
    ensures
        final(w).wf(),
        final(w).written() == old(w).written() + emit_groups(e@),
{
    let ghost w0 = w.written();
    match e {
        Entity::LwPolyline { vertices, bulges, closed, layer, props } => {
            w.write_pair(0, "LWPOLYLINE");
            w.write_pair(8, layer.as_str());
            w.write_pair(100, "AcDbEntity");
            w.write_pair(100, "AcDbPolyline");
            w.write_pair_string(90, format_int(vertices.len() as i128));
            w.write_pair(
                70,
                if *closed {
                    "1"
                } else {
                    "0"
                },
            );
            let ghost a = w.written();
            assert(a =~= w0 + seq![
                (0i32, "LWPOLYLINE"@),
                (8i32, layer@),
                (100i32, "AcDbEntity"@),
                (100i32, "AcDbPolyline"@),
                (90i32, int_text(vertices@.len() as int)),
                (70i32, if *closed {
                    "1"@
                } else {
                    "0"@
                }),
            ]);
            emit_lw_vertices(w, vertices, bulges);
            w.emit_extras(props);
            assert(w.written() =~= w0 + emit_groups(e@));
        },
        _ => {},
    }
}

fn emit_text(w: &mut DxfWriter, e: &Entity)
    requires
        old(w).wf(),
        e is Text,
    ensures
        final(w).wf(),
        final(w).written() == old(w).written() + emit_groups(e@),
{
    let ghost w0 = w.written();
    match e {
        Entity::Text { position, value, height, rotation, layer, props } => {
            w.write_pair(0, "TEXT");
            w.write_pair(8, layer.as_str());
            w.write_pair(100, "AcDbEntity");
            w.write_pair(100, "AcDbText");
            let ghost a = w.written();
            w.write_point(position, 10, 20, 30);
            let ghost b = w.written();
            w.write_pair(40, height.as_str());
            w.write_pair(1, value.as_str());
            let ghost c = w.written();
            w.write_rotation(rotation);
            let ghost d = w.written();
            if !carries_code(&props.raw_extras, 7) {
                w.write_pair(7, "STANDARD");
            }
            let ghost e2 = w.written();
            assert(e2 =~= d + style_group(props@));
            w.emit_extras(props);
            assert(a =~= w0 + seq![
                (0i32, "TEXT"@),
                (8i32, layer@),
                (100i32, "AcDbEntity"@),
                (100i32, "AcDbText"@),
            ]);
            assert(c =~= b + seq![(40i32, height@), (1i32, value@)]);
            assert(w.written() =~= w0 + emit_groups(e@));
        },
        _ => {},
    }
}

/// Whether a group of code `c` is among `gs`.
fn carries_code(gs: &Vec<(i32, String)>, c: i32) -> (b: bool)
    ensures
        b == has_code(pairs_view(gs@), c),
{
    let mut i: usize = 0;
    while i < gs.len()
        invariant
            i <= gs@.len(),
            forall|j: int| 0 <= j < i ==> pairs_view(gs@)[j].0 != c,
        decreases gs@.len() - i,
    {
        if gs[i].0 == c {
            assert(pairs_view(gs@)[i as int].0 == c);
            return true;
        }
        i = i + 1;
    }
    false
}

fn emit_mtext(w: &mut DxfWriter, e: &Entity)
    requires
        old(w).wf(),
        e is MText,
    ensures
        final(w).wf(),
        final(w).written() == old(w).written() + emit_groups(e@),
{
    let ghost w0 = w.written();
    match e {
        Entity::MText { position, value, height, rotation, attachment_point, layer, props } => {
            w.write_pair(0, "MTEXT");
            w.write_pair(8, layer.as_str());
            w.write_pair(100, "AcDbEntity");
            w.write_pair(100, "AcDbMText");
            let ghost a = w.written();
            w.write_point(position, 10, 20, 30);
            let ghost b = w.written();
            w.write_pair(40, height.as_str());
            w.write_pair_string(71, format_int(*attachment_point as i128));
            w.write_pair(1, value.as_str());
            let ghost c = w.written();
            w.write_rotation(rotation);
            w.emit_extras(props);
            assert(a =~= w0 + seq![
                (0i32, "MTEXT"@),
                (8i32, layer@),
                (100i32, "AcDbEntity"@),
                (100i32, "AcDbMText"@),
            ]);
            assert(c =~= b + seq![
                (40i32, height@),
                (71i32, int_text(*attachment_point as int)),
                (1i32, value@),
            ]);
            assert(w.written() =~= w0 + emit_groups(e@));
        },
        _ => {},
    }
}

fn emit_insert(w: &mut DxfWriter, e: &Entity)
    requires
        old(w).wf(),
        e is Insert,
    ensures
        final(w).wf(),
        final(w).written() == old(w).written() + emit_groups(e@),
{
    let ghost w0 = w.written();
    match e {
        Entity::Insert {
            block_name,
            position,
            scale_x,
            scale_y,
            scale_z,
            rotation,
            layer,
            props,
        } => {
            w.write_pair(0, "INSERT");
            w.write_pair(8, layer.as_str());
            w.write_pair(100, "AcDbEntity");
            w.write_pair(100, "AcDbBlockReference");
            w.write_pair(2, block_name.as_str());
            let ghost a = w.written();
            w.write_point(position, 10, 20, 30);
            let ghost b = w.written();
            w.write_pair(41, scale_x.as_str());
            w.write_pair(42, scale_y.as_str());
            w.write_pair(43, scale_z.as_str());
            let ghost c = w.written();
            w.write_rotation(rotation);
            w.emit_extras(props);
            assert(a =~= w0 + seq![
                (0i32, "INSERT"@),
                (8i32, layer@),
                (100i32, "AcDbEntity"@),
                (100i32, "AcDbBlockReference"@),
                (2i32, block_name@),
            ]);
            assert(c =~= b + seq![(41i32, scale_x@), (42i32, scale_y@), (43i32, scale_z@)]);
            assert(w.written() =~= w0 + emit_groups(e@));
        },
        _ => {},
    }
}

fn emit_dimension(w: &mut DxfWriter, e: &Entity)
    requires
        old(w).wf(),
        e is Dimension,
    ensures
        final(w).wf(),
        final(w).written() == old(w).written() + emit_groups(e@),
{
    match e {
        Entity::Dimension {
            kind,
            block_name,
            text_override,
            measured_value,
            defining_points,
            rotation,
            layer,
            props,
        } => {
            emit_dimension_fields(
                w,
                kind.0,
                block_name,
                text_override,
                measured_value,
                defining_points,
                rotation,
                layer,
                props,
            );
        },
        _ => {},
    }
}

fn emit_dimension_fields(
    w: &mut DxfWriter,
    kind: u16,
    block_name: &Option<String>,
    text_override: &Option<String>,
    measured_value: &Option<String>,
    defining_points: &Vec<crate::entity::NumPoint>,
    rotation: &Option<String>,
    layer: &String,
    props: &EntityProps,
)
    requires
        old(w).wf(),
    ensures
        final(w).wf(),
        final(w).written() == old(w).written() + dimension_groups(
            kind,
            crate::entity::opt_view(*block_name),
            crate::entity::opt_view(*text_override),
            crate::entity::opt_view(*measured_value),
            crate::entity::points_view(defining_points@),
            crate::entity::opt_view(*rotation),
            layer@,
            props@,
        ),
{
    let ghost w0 = w.written();
    w.write_pair(0, "DIMENSION");
    w.write_pair(8, layer.as_str());
    w.write_pair(100, "AcDbEntity");
    let ghost a = w.written();
    assert(a =~= w0 + seq![(0i32, "DIMENSION"@), (8i32, layer@), (100i32, "AcDbEntity"@)]);
    w.write_opt(2, block_name);
    let ghost a2 = w.written();
    emit_dim_points(w, defining_points);
    let ghost b = w.written();
    w.write_pair_string(70, format_int(kind as i128));
    let ghost c = w.written();
    w.write_opt(1, text_override);
    let ghost d1 = w.written();
    w.write_opt(42, measured_value);
    let ghost d2 = w.written();
    w.write_rotation(rotation);
    let ghost d3 = w.written();
    w.emit_extras(props);
    assert(w.written() =~= w0 + dimension_groups(
        kind,
        crate::entity::opt_view(*block_name),
        crate::entity::opt_view(*text_override),
        crate::entity::opt_view(*measured_value),
        crate::entity::points_view(defining_points@),
        crate::entity::opt_view(*rotation),
        layer@,
        props@,
    ));
}

fn emit_raw(w: &mut DxfWriter, e: &Entity)
    requires
        old(w).wf(),
        e is Raw,
    ensures
        final(w).wf(),
        final(w).written() == old(w).written() + emit_groups(e@),
{
    let ghost w0 = w.written();
    match e {
        Entity::Raw(raw) => {
            w.write_pair(0, raw.kind.as_str());
            w.write_pairs(&raw.groups);
            assert(w.written() =~= w0 + emit_groups(e@));
        },
        _ => {},
    }
}

fn emit_lw_vertices(
    w: &mut DxfWriter,
    vertices: &Vec<crate::entity::NumPoint>,
    bulges: &Vec<Option<String>>,
)
    requires
        old(w).wf(),
    ensures
        final(w).wf(),
        final(w).written() == old(w).written() + lw_vertex_groups(
            crate::entity::points_view(vertices@),
            crate::entity::opt_texts_view(bulges@),
        ),
{
    let ghost w0 = w.written();
    let ghost vs = crate::entity::points_view(vertices@);
    let ghost bs = crate::entity::opt_texts_view(bulges@);
    let mut i: usize = 0;
    assert(vs.take(0) =~= seq![]);
    assert(w0 + lw_vertex_groups(vs.take(0), bs) =~= w0);
    while i < vertices.len()
        invariant
            w.wf(),
            i <= vertices@.len(),
            vs == crate::entity::points_view(vertices@),
            bs == crate::entity::opt_texts_view(bulges@),
            w.written() == w0 + lw_vertex_groups(vs.take(i as int), bs),
        decreases vertices@.len() - i,
    {
        let ghost before = w.written();
        w.write_pair(10, vertices[i].x.as_str());
        w.write_pair(20, vertices[i].y.as_str());
        if i < bulges.len() {
            match &bulges[i] {
                Some(b) => {
                    w.write_pair(42, b.as_str());
                },
                None => {},
            }
        }
        proof {
            let t = vs.take(i + 1);
            assert(t.drop_last() =~= vs.take(i as int));
            assert(t.last() == vertices@[i as int]@);
            assert(w.written() =~= w0 + lw_vertex_groups(t, bs));
        }
        i = i + 1;
    }
    assert(vs.take(vertices@.len() as int) =~= vs);
}

fn emit_dim_points(w: &mut DxfWriter, points: &Vec<crate::entity::NumPoint>)
    requires
        old(w).wf(),
    ensures
        final(w).wf(),
        final(w).written() == old(w).written() + dim_point_groups(
            crate::entity::points_view(points@),
        ),
{
    let ghost w0 = w.written();
    let ghost ps = crate::entity::points_view(points@);
    let mut i: usize = 0;
    assert(ps.take(0) =~= seq![]);
    assert(w0 + dim_point_groups(ps.take(0)) =~= w0);
    while i < points.len()
        invariant
            w.wf(),
            i <= points@.len(),
            ps == crate::entity::points_view(points@),
            w.written() == w0 + dim_point_groups(ps.take(i as int)),
        decreases points@.len() - i,
    {
        let ghost before = w.written();
        let ii = i as i128;
        w.write_point(
            &points[i],
            #[verifier::truncate]
            ((10 + ii) as i32),
            #[verifier::truncate]
            ((20 + ii) as i32),
            #[verifier::truncate]
            ((30 + ii) as i32),
        );
        proof {
            let t = ps.take(i + 1);
            assert(t.drop_last() =~= ps.take(i as int));
            assert(t.last() == points@[i as int]@);
            assert(w.written() =~= w0 + dim_point_groups(t));
        }
        i = i + 1;
    }
    assert(ps.take(points@.len() as int) =~= ps);
}


/// A header variable, with the group code its value goes under: 70 for a
/// value that reads as an `i64`, 1 for any other.
pub open spec fn header_var_groups(name: Seq<char>, value: Seq<char>) -> Seq<(i32, Seq<char>)> {
    seq![(9i32, name), (if spec_parse_i64(value) is Some { 70i32 } else { 1i32 }, value)]
}

pub open spec fn header_vars_groups(vars: Seq<(Seq<char>, Seq<char>)>) -> Seq<(i32, Seq<char>)>
    decreases vars.len(),
{
    if vars.len() == 0 {
        seq![]
    } else {
        header_vars_groups(vars.drop_last()) + header_var_groups(vars.last().0, vars.last().1)
    }
}

pub open spec fn header_section(vars: Seq<(Seq<char>, Seq<char>)>) -> Seq<(i32, Seq<char>)> {
    seq![(0i32, "SECTION"@), (2i32, "HEADER"@)] + header_vars_groups(vars) + seq![
        (0i32, "ENDSEC"@),
    ]
}

pub open spec fn str_pairs_view(v: Seq<(&str, &str)>) -> Seq<(Seq<char>, Seq<char>)> {
    v.map_values(|p: (&str, &str)| (p.0@, p.1@))
}

pub open spec fn strs_view(v: Seq<&str>) -> Seq<Seq<char>> {
    v.map_values(|s: &str| s@)
}

pub open spec fn layer_groups(l: LayerV) -> Seq<(i32, Seq<char>)> {
    seq![
        (0i32, "LAYER"@),
        (2i32, l.name),
        (70i32, int_text(l.flags as int)),
        (62i32, int_text(l.color as int)),
        (6i32, l.linetype),
    ]
}

pub open spec fn layers_groups(ls: Seq<LayerV>) -> Seq<(i32, Seq<char>)>
    decreases ls.len(),
{
    if ls.len() == 0 {
        seq![]
    } else {
        layers_groups(ls.drop_last()) + layer_groups(ls.last())
    }
}

pub open spec fn block_record_groups(names: Seq<Seq<char>>) -> Seq<(i32, Seq<char>)>
    decreases names.len(),
{
    if names.len() == 0 {
        seq![]
    } else {
        block_record_groups(names.drop_last()) + seq![(0i32, "BLOCK_RECORD"@), (2i32, names.last())]
    }
}

/// The TABLES section: the LAYER table, then the BLOCK_RECORD table with
/// the two built-in records and one per block name.
pub open spec fn tables_section(ls: Seq<LayerV>, names: Seq<Seq<char>>) -> Seq<(i32, Seq<char>)> {
    seq![
        (0i32, "SECTION"@),
        (2i32, "TABLES"@),
        (0i32, "TABLE"@),
        (2i32, "LAYER"@),
        (70i32, int_text(ls.len() as int)),
    ] + layers_groups(ls) + seq![
        (0i32, "ENDTAB"@),
        (0i32, "TABLE"@),
        (2i32, "BLOCK_RECORD"@),
        (70i32, int_text(names.len() + 2int)),
    ] + block_record_groups(seq!["*Model_Space"@, "*Paper_Space"@] + names) + seq![
        (0i32, "ENDTAB"@),
        (0i32, "ENDSEC"@),
    ]
}

pub open spec fn entities_groups(es: Seq<EntityV>) -> Seq<(i32, Seq<char>)>
    decreases es.len(),
{
    if es.len() == 0 {
        seq![]
    } else {
        entities_groups(es.drop_last()) + emit_groups(es.last())
    }
}

/// A built-in block: empty, on layer 0, at the origin.
pub open spec fn builtin_block_groups(name: Seq<char>) -> Seq<(i32, Seq<char>)> {
    seq![
        (0i32, "BLOCK"@),
        (8i32, "0"@),
        (2i32, name),
        (70i32, "0"@),
        (10i32, "0.000"@),
        (20i32, "0.000"@),
        (30i32, "0.000"@),
        (3i32, name),
        (1i32, ""@),
        (0i32, "ENDBLK"@),
        (8i32, "0"@),
    ]
}

pub open spec fn block_groups(b: BlockV) -> Seq<(i32, Seq<char>)> {
    seq![
        (0i32, "BLOCK"@),
        (8i32, b.layer),
        (2i32, b.name),
        (70i32, int_text(b.flags as int)),
        (10i32, b.base_point.x),
        (20i32, b.base_point.y),
        (30i32, b.base_point.z),
        (3i32, b.name),
        (1i32, ""@),
    ] + entities_groups(b.entities) + seq![(0i32, "ENDBLK"@), (8i32, b.layer)]
}

pub open spec fn blocks_groups(bs: Seq<BlockV>) -> Seq<(i32, Seq<char>)>
    decreases bs.len(),
{
    if bs.len() == 0 {
        seq![]
    } else {
        blocks_groups(bs.drop_last()) + block_groups(bs.last())
    }
}

/// The BLOCKS section: the built-in `*Model_Space` and `*Paper_Space`,
/// then each block with its entities.
pub open spec fn blocks_section(bs: Seq<BlockV>) -> Seq<(i32, Seq<char>)> {
    seq![(0i32, "SECTION"@), (2i32, "BLOCKS"@)] + builtin_block_groups("*Model_Space"@)
        + builtin_block_groups("*Paper_Space"@) + blocks_groups(bs) + seq![(0i32, "ENDSEC"@)]
}

pub open spec fn blocks_view(v: Seq<BlockDef>) -> Seq<BlockV> {
    v.map_values(|b: BlockDef| b@)
}

impl DxfWriter {
    /// Write the HEADER section with the given variables. A value that reads
    /// as an integer goes under group code 70, any other under group code 1.
    pub fn write_header(&mut self, vars: &[(&str, &str)])
        requires
            old(self).wf(),
        ensures
            final(self).wf(),
            final(self).written() == old(self).written() + header_section(str_pairs_view(vars@)),
    {
        let ghost w0 = self.written();
        let ghost vs = str_pairs_view(vars@);
        self.write_pair(0, "SECTION");
        self.write_pair(2, "HEADER");
        let ghost w1 = self.written();
        let mut i: usize = 0;
        assert(vs.take(0) =~= seq![]);
        assert(w1 =~= w1 + header_vars_groups(vs.take(0)));
        while i < vars.len()
            invariant
                self.wf(),
                i <= vars@.len(),
                vs == str_pairs_view(vars@),
                self.written() == w1 + header_vars_groups(vs.take(i as int)),
            decreases vars@.len() - i,
        {
            let (name, value) = vars[i];
            self.write_pair(9, name);
            if parse_i64(value).is_some() {
                self.write_pair(70, value);
            } else {
                self.write_pair(1, value);
            }
            proof {
                let t = vs.take(i + 1);
                assert(t.drop_last() =~= vs.take(i as int));
                assert(t.last() == (name@, value@));
                assert(self.written() =~= w1 + header_vars_groups(t));
            }
            i = i + 1;
        }
        assert(vs.take(vars@.len() as int) =~= vs);
        self.write_pair(0, "ENDSEC");
        assert(self.written() =~= w0 + header_section(vs));
    }

    fn write_layer_table(&mut self, layers: &[LayerDef])
        requires
            old(self).wf(),
        ensures
            final(self).wf(),
            final(self).written() == old(self).written() + seq![
                (0i32, "TABLE"@),
                (2i32, "LAYER"@),
                (70i32, int_text(layers@.len() as int)),
            ] + layers_groups(layers_view(layers@)) + seq![(0i32, "ENDTAB"@)],
    {
        let ghost w0 = self.written();
        let ghost ls = layers_view(layers@);
        self.write_pair(0, "TABLE");
        self.write_pair(2, "LAYER");
        self.write_pair_string(70, format_int(layers.len() as i128));
        let ghost w1 = self.written();
        let mut i: usize = 0;
        assert(ls.take(0) =~= seq![]);
        assert(w1 =~= w1 + layers_groups(ls.take(0)));
        while i < layers.len()
            invariant
                self.wf(),
                i <= layers@.len(),
                ls == layers_view(layers@),
                self.written() == w1 + layers_groups(ls.take(i as int)),
            decreases layers@.len() - i,
        {
            let l = &layers[i];
            self.write_pair(0, "LAYER");
            self.write_pair(2, l.name.as_str());
            self.write_pair_string(70, format_int(l.flags as i128));
            self.write_pair_string(62, format_int(l.color as i128));
            self.write_pair(6, l.linetype.as_str());
            proof {
                let t = ls.take(i + 1);
                assert(t.drop_last() =~= ls.take(i as int));
                assert(t.last() == l@);
                assert(self.written() =~= w1 + layers_groups(t));
            }
            i = i + 1;
        }
        assert(ls.take(layers@.len() as int) =~= ls);
        self.write_pair(0, "ENDTAB");
        assert(self.written() =~= w0 + seq![
            (0i32, "TABLE"@),
            (2i32, "LAYER"@),
            (70i32, int_text(layers@.len() as int)),
        ] + layers_groups(ls) + seq![(0i32, "ENDTAB"@)]);
    }

    fn write_block_record_table(&mut self, block_names: &[&str])
        requires
            old(self).wf(),
        ensures
            final(self).wf(),
            final(self).written() == old(self).written() + seq![
                (0i32, "TABLE"@),
                (2i32, "BLOCK_RECORD"@),
                (70i32, int_text(block_names@.len() + 2int)),
            ] + block_record_groups(
                seq!["*Model_Space"@, "*Paper_Space"@] + strs_view(block_names@),
            ) + seq![(0i32, "ENDTAB"@)],
    {
        let ghost w0 = self.written();
        let ghost ns = strs_view(block_names@);
        self.write_pair(0, "TABLE");
        self.write_pair(2, "BLOCK_RECORD");
        self.write_pair_string(70, format_int(block_names.len() as i128 + 2));
        let ghost w2 = self.written();
        let ghost all = seq!["*Model_Space"@, "*Paper_Space"@] + ns;
        self.write_pair(0, "BLOCK_RECORD");
        self.write_pair(2, "*Model_Space");
        self.write_pair(0, "BLOCK_RECORD");
        self.write_pair(2, "*Paper_Space");
        proof {
            let t0 = all.take(0);
            let t1 = all.take(1);
            let t2 = all.take(2);
            assert(t0 =~= seq![]);
            assert(block_record_groups(t0) == Seq::<(i32, Seq<char>)>::empty());
            assert(t1.drop_last() =~= t0);
            assert(t1.last() == "*Model_Space"@);
            assert(block_record_groups(t1) =~= seq![(0i32, "BLOCK_RECORD"@), (2i32, "*Model_Space"@)]);
            assert(t2.drop_last() =~= t1);
            assert(t2.last() == "*Paper_Space"@);
            assert(block_record_groups(t2) =~= seq![
                (0i32, "BLOCK_RECORD"@),
                (2i32, "*Model_Space"@),
                (0i32, "BLOCK_RECORD"@),
                (2i32, "*Paper_Space"@),
            ]);
            assert(self.written() =~= w2 + block_record_groups(t2));
        }
        let mut j: usize = 0;
        while j < block_names.len()
            invariant
                self.wf(),
                j <= block_names@.len(),
                ns == strs_view(block_names@),
                all == seq!["*Model_Space"@, "*Paper_Space"@] + ns,
                self.written() == w2 + block_record_groups(all.take(j + 2)),
            decreases block_names@.len() - j,
        {
            let name = block_names[j];
            self.write_pair(0, "BLOCK_RECORD");
            self.write_pair(2, name);
            proof {
                let t = all.take(j + 3);
                assert(t.drop_last() =~= all.take(j + 2));
                assert(t.last() == name@);
                assert(self.written() =~= w2 + block_record_groups(t));
            }
            j = j + 1;
        }
        assert(all.take(block_names@.len() + 2int) =~= all);
        self.write_pair(0, "ENDTAB");
        assert(self.written() =~= w0 + seq![
            (0i32, "TABLE"@),
            (2i32, "BLOCK_RECORD"@),
            (70i32, int_text(block_names@.len() + 2int)),
        ] + block_record_groups(all) + seq![(0i32, "ENDTAB"@)]);
    }

    /// Write the TABLES section: the LAYER table and the BLOCK_RECORD table.
    pub fn write_tables(&mut self, layers: &[LayerDef], block_names: &[&str])
        requires
            old(self).wf(),
        ensures
            final(self).wf(),
            final(self).written() == old(self).written() + tables_section(
                layers_view(layers@),
                strs_view(block_names@),
            ),
    {
        let ghost w0 = self.written();
        self.write_pair(0, "SECTION");
        self.write_pair(2, "TABLES");
        let ghost w1 = self.written();
        self.write_layer_table(layers);
        let ghost w2 = self.written();
        self.write_block_record_table(block_names);
        let ghost w3 = self.written();
        self.write_pair(0, "ENDSEC");
        assert(self.written() =~= w0 + tables_section(layers_view(layers@), strs_view(block_names@)));
    }

    fn write_entities(&mut self, es: &Vec<Entity>)
        requires
            old(self).wf(),
        ensures
            final(self).wf(),
            final(self).written() == old(self).written() + entities_groups(entities_view(es@)),
    {
        let ghost w0 = self.written();
        let ghost ev = entities_view(es@);
        let mut i: usize = 0;
        assert(ev.take(0) =~= seq![]);
        assert(w0 =~= w0 + entities_groups(ev.take(0)));
        while i < es.len()
            invariant
                self.wf(),
                i <= es@.len(),
                ev == entities_view(es@),
                self.written() == w0 + entities_groups(ev.take(i as int)),
            decreases es@.len() - i,
        {
            emit_entity(self, &es[i]);
            proof {
                let t = ev.take(i + 1);
                assert(t.drop_last() =~= ev.take(i as int));
                assert(t.last() == es@[i as int]@);
                assert(self.written() =~= w0 + entities_groups(t));
            }
            i = i + 1;
        }
        assert(ev.take(es@.len() as int) =~= ev);
    }

    fn write_builtin_block(&mut self, name: &str)
        requires
            old(self).wf(),
        ensures
            final(self).wf(),
            final(self).written() == old(self).written() + builtin_block_groups(name@),
    {
        let ghost w0 = self.written();
        self.write_pair(0, "BLOCK");
        self.write_pair(8, "0");
        self.write_pair(2, name);
        self.write_pair(70, "0");
        self.write_pair(10, "0.000");
        self.write_pair(20, "0.000");
        self.write_pair(30, "0.000");
        self.write_pair(3, name);
        self.write_pair(1, "");
        self.write_pair(0, "ENDBLK");
        self.write_pair(8, "0");
        assert(self.written() =~= w0 + builtin_block_groups(name@));
    }

    fn write_block(&mut self, b: &BlockDef)
        requires
            old(self).wf(),
        ensures
            final(self).wf(),
            final(self).written() == old(self).written() + block_groups(b@),
    {
        let ghost w0 = self.written();
        self.write_pair(0, "BLOCK");
        self.write_pair(8, b.layer.as_str());
        self.write_pair(2, b.name.as_str());
        self.write_pair_string(70, format_int(b.flags as i128));
        self.write_pair(10, b.base_point.x.as_str());
        self.write_pair(20, b.base_point.y.as_str());
        self.write_pair(30, b.base_point.z.as_str());
        self.write_pair(3, b.name.as_str());
        self.write_pair(1, "");
        let ghost w1 = self.written();
        self.write_entities(&b.entities);
        let ghost w2 = self.written();
        self.write_pair(0, "ENDBLK");
        self.write_pair(8, b.layer.as_str());
        assert(self.written() =~= w0 + block_groups(b@));
    }

    /// Write the BLOCKS section: the built-in `*Model_Space` and
    /// `*Paper_Space` blocks, then each block with its nested entities.
    pub fn write_blocks(&mut self, blocks: &[BlockDef])
        requires
            old(self).wf(),
        ensures
            final(self).wf(),
            final(self).written() == old(self).written() + blocks_section(blocks_view(blocks@)),
    {
        let ghost w0 = self.written();
        let ghost bv = blocks_view(blocks@);
        self.write_pair(0, "SECTION");
        self.write_pair(2, "BLOCKS");
        self.write_builtin_block("*Model_Space");
        self.write_builtin_block("*Paper_Space");
        let ghost w1 = self.written();
        let mut i: usize = 0;
        assert(bv.take(0) =~= seq![]);
        assert(w1 =~= w1 + blocks_groups(bv.take(0)));
        while i < blocks.len()
            invariant
                self.wf(),
                i <= blocks@.len(),
                bv == blocks_view(blocks@),
                self.written() == w1 + blocks_groups(bv.take(i as int)),
            decreases blocks@.len() - i,
        {
            self.write_block(&blocks[i]);
            proof {
                let t = bv.take(i + 1);
                assert(t.drop_last() =~= bv.take(i as int));
                assert(t.last() == blocks@[i as int]@);
                assert(self.written() =~= w1 + blocks_groups(t));
            }
            i = i + 1;
        }
        assert(bv.take(blocks@.len() as int) =~= bv);
        self.write_pair(0, "ENDSEC");
        assert(self.written() =~= w0 + blocks_section(bv));
    }

    /// Begin the ENTITIES section.
    pub fn begin_entities(&mut self)
        requires
            old(self).wf(),
        ensures
            final(self).wf(),
            final(self).written() == old(self).written() + seq![
                (0i32, "SECTION"@),
                (2i32, "ENTITIES"@),
            ],
    {
        let ghost w0 = self.written();
        self.write_pair(0, "SECTION");
        self.write_pair(2, "ENTITIES");
        assert(self.written() =~= w0 + seq![(0i32, "SECTION"@), (2i32, "ENTITIES"@)]);
    }

    /// End the ENTITIES section.
    pub fn end_entities(&mut self)
        requires
            old(self).wf(),
        ensures
            final(self).wf(),
            final(self).written() == old(self).written().push((0i32, "ENDSEC"@)),
    {
        self.write_pair(0, "ENDSEC");
    }

    /// Write a single entity to the current section.
    pub fn write_entity(&mut self, entity: &Entity)
        requires
            old(self).wf(),
        ensures
            final(self).wf(),
            final(self).written() == old(self).written() + emit_groups(entity@),
    {
        emit_entity(self, entity)
    }

    /// Close the file with the EOF marker and hand back its lines.
    pub fn finish(self) -> (lines: Vec<String>)
        requires
            self.wf(),
        ensures
            lines_view(lines@) == render(self.written().push((0i32, "EOF"@))),
    {
        let mut w = self;
        w.write_pair(0, "EOF");
        w.lines
    }
}

/// The pairs of a complete file: HEADER, TABLES (with one block record per
/// block), BLOCKS, ENTITIES, then the EOF marker.
pub open spec fn document_groups(
    vars: Seq<(Seq<char>, Seq<char>)>,
    ls: Seq<LayerV>,
    bs: Seq<BlockV>,
    es: Seq<EntityV>,
) -> Seq<(i32, Seq<char>)> {
    header_section(vars) + tables_section(ls, bs.map_values(|b: BlockV| b.name)) + blocks_section(
        bs,
    ) + seq![(0i32, "SECTION"@), (2i32, "ENTITIES"@)] + entities_groups(es) + seq![
        (0i32, "ENDSEC"@),
        (0i32, "EOF"@),
    ]
}

fn block_names_of(blocks: &[BlockDef]) -> (names: Vec<&str>)
    ensures
        strs_view(names@) == blocks_view(blocks@).map_values(|b: BlockV| b.name),
{
    let mut names: Vec<&str> = Vec::new();
    let mut i: usize = 0;
    while i < blocks.len()
        invariant
            i <= blocks@.len(),
            names@.len() == i,
            strs_view(names@) == blocks_view(blocks@).take(i as int).map_values(|b: BlockV| b.name),
        decreases blocks@.len() - i,
    {
        let ghost before = names@;
        let b = &blocks[i];
        let nm = b.name.as_str();
        assert(nm@ == b.name@);
        names.push(nm);
        assert(names@[i as int] == nm);
        assert(blocks_view(blocks@).take(i + 1).map_values(|b: BlockV| b.name) =~= blocks_view(blocks@).take(i as int).map_values(|b: BlockV| b.name).push(blocks@[i as int].name@));
        assert(strs_view(names@) =~= strs_view(before).push(blocks@[i as int].name@));
        assert(strs_view(names@) =~= blocks_view(blocks@).take(i + 1).map_values(|b: BlockV| b.name));
        i = i + 1;
    }
    assert(blocks_view(blocks@).take(blocks@.len() as int) =~= blocks_view(blocks@));
    names
}

/// Write a complete DXF file in one call; returns its lines.
pub fn write_dxf(
    header_vars: &[(&str, &str)],
    layers: &[LayerDef],
    blocks: &[BlockDef],
    entities: &[Entity],
) -> (lines: Vec<String>)
    ensures
        lines_view(lines@) == render(
            document_groups(
                str_pairs_view(header_vars@),
                layers_view(layers@),
                blocks_view(blocks@),
                entities_view(entities@),
            ),
        ),
{
    let mut w = DxfWriter::new();
    w.write_header(header_vars);
    let block_names = block_names_of(blocks);
    w.write_tables(layers, block_names.as_slice());
    w.write_blocks(blocks);
    w.begin_entities();
    let ghost w0 = w.written();
    let ghost ev = entities_view(entities@);
    let mut j: usize = 0;
    assert(ev.take(0) =~= seq![]);
    assert(w0 =~= w0 + entities_groups(ev.take(0)));
    while j < entities.len()
        invariant
            w.wf(),
            j <= entities@.len(),
            ev == entities_view(entities@),
            w.written() == w0 + entities_groups(ev.take(j as int)),
        decreases entities@.len() - j,
    {
        w.write_entity(&entities[j]);
        proof {
            let t = ev.take(j + 1);
            assert(t.drop_last() =~= ev.take(j as int));
            assert(t.last() == entities@[j as int]@);
            assert(w.written() =~= w0 + entities_groups(t));
        }
        j = j + 1;
    }
    assert(ev.take(entities@.len() as int) =~= ev);
    w.end_entities();
    let ghost final_pairs = w.written().push((0i32, "EOF"@));
    let lines = w.finish();
    assert(final_pairs =~= header_section(str_pairs_view(header_vars@)) + tables_section(
        layers_view(layers@),
        blocks_view(blocks@).map_values(|b: BlockV| b.name),
    ) + blocks_section(blocks_view(blocks@)) + seq![(0i32, "SECTION"@), (2i32, "ENTITIES"@)]
        + entities_groups(entities_view(entities@)) + seq![(0i32, "ENDSEC"@), (0i32, "EOF"@)]);
    assert(final_pairs =~= document_groups(
        str_pairs_view(header_vars@),
        layers_view(layers@),
        blocks_view(blocks@),
        entities_view(entities@),
    ));
    lines
}

} // verus!
