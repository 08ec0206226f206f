//! DXF entities as the file gives them. A number is kept as the literal
//! text that the file holds (see [`crate::numeric::is_float_literal`]); an
//! angle is kept in degrees, as the file writes it.

use vstd::prelude::*;

verus! {

pub type LayerName = String;

/// A three-coordinate point whose coordinates are number literals.
#[derive(Debug, Clone)]
pub struct NumPoint {
    pub x: String,
    pub y: String,
    pub z: String,
}

pub struct PointV {
    pub x: Seq<char>,
    pub y: Seq<char>,
    pub z: Seq<char>,
}

impl View for NumPoint {
    type V = PointV;

    open spec fn view(&self) -> PointV {
        PointV { x: self.x@, y: self.y@, z: self.z@ }
    }
}

/// DIMENSION group code 70 raw bit value. The lower 4 bits encode the
/// dimension type.
#[derive(Debug, Clone, Copy, PartialEq, Eq, Structural)]
pub struct DimensionKindRaw(pub u16);

impl DimensionKindRaw {
    pub fn primary_kind(self) -> (k: u8)
        ensures
            k == self.0 % 16,
    {
        let v: u16 = self.0;
        let k = v & 0x0F;
        assert(v & 0x0F == v % 16) by (bit_vector);
        k as u8
    }
}

/// A group code with its value.
pub open spec fn pair_view(p: (i32, String)) -> (i32, Seq<char>) {
    (p.0, p.1@)
}

pub open spec fn pairs_view(v: Seq<(i32, String)>) -> Seq<(i32, Seq<char>)> {
    v.map_values(|p: (i32, String)| pair_view(p))
}

pub open spec fn opt_view(o: Option<String>) -> Option<Seq<char>> {
    match o {
        Some(s) => Some(s@),
        None => None,
    }
}

#[derive(Debug, Clone)]
pub struct EntityProps {
    pub handle: Option<String>,
    pub color: Option<i16>,
    pub linetype: Option<String>,
    /// XDATA (group codes 1001-1071): application data, kept as read.
    pub xdata: Vec<(i32, String)>,
    /// Group codes the entity's recipe does not know, kept as read.
    pub raw_extras: Vec<(i32, String)>,
}

pub struct PropsV {
    pub handle: Option<Seq<char>>,
    pub color: Option<i16>,
    pub linetype: Option<Seq<char>>,
    pub xdata: Seq<(i32, Seq<char>)>,
    pub raw_extras: Seq<(i32, Seq<char>)>,
}

impl View for EntityProps {
    type V = PropsV;

    open spec fn view(&self) -> PropsV {
        PropsV {
            handle: opt_view(self.handle),
            color: self.color,
            linetype: opt_view(self.linetype),
            xdata: pairs_view(self.xdata@),
            raw_extras: pairs_view(self.raw_extras@),
        }
    }
}

impl Default for EntityProps {
    /// No handle, color or linetype, and no kept groups.
    fn default() -> (p: Self)
        ensures
            p@.handle is None,
            p@.color is None,
            p@.linetype is None,
            p@.xdata.len() == 0,
            p@.raw_extras.len() == 0,
    {
        EntityProps {
            handle: None,
            color: None,
            linetype: None,
            xdata: Vec::new(),
            raw_extras: Vec::new(),
        }
    }
}

/// Unknown entity type: all its groups are kept for emission.
#[derive(Debug, Clone)]
pub struct RawEntity {
    pub kind: String,
    pub layer: LayerName,
    pub groups: Vec<(i32, String)>,
}

/// A DXF entity. Numbers are literal texts; angles are in degrees. A
/// rotation or a vertex bulge is `None` where the entity has none: the file
/// gives no group for it, and the emitter writes none.
#[derive(Debug, Clone)]
pub enum Entity {
    Line { p1: NumPoint, p2: NumPoint, layer: LayerName, props: EntityProps },
    Circle { center: NumPoint, radius: String, layer: LayerName, props: EntityProps },
    Arc {
        center: NumPoint,
        radius: String,
        start_angle: String,
        end_angle: String,
        layer: LayerName,
        props: EntityProps,
    },
    LwPolyline {
        vertices: Vec<NumPoint>,
        bulges: Vec<Option<String>>,
        closed: bool,
        layer: LayerName,
        props: EntityProps,
    },
    Text {
        position: NumPoint,
        value: String,
        height: String,
        rotation: Option<String>,
        layer: LayerName,
        props: EntityProps,
    },
    Insert {
        block_name: String,
        position: NumPoint,
        scale_x: String,
        scale_y: String,
        scale_z: String,
        rotation: Option<String>,
        layer: LayerName,
        props: EntityProps,
    },
    MText {
        position: NumPoint,
        value: String,
        height: String,
        rotation: Option<String>,
        attachment_point: i16,
        layer: LayerName,
        props: EntityProps,
    },
    Dimension {
        kind: DimensionKindRaw,
        block_name: Option<String>,
        text_override: Option<String>,
        measured_value: Option<String>,
        defining_points: Vec<NumPoint>,
        rotation: Option<String>,
        layer: LayerName,
        props: EntityProps,
    },
    Raw(RawEntity),
}

pub enum EntityV {
    Line { p1: PointV, p2: PointV, layer: Seq<char>, props: PropsV },
    Circle { center: PointV, radius: Seq<char>, layer: Seq<char>, props: PropsV },
    Arc {
        center: PointV,
        radius: Seq<char>,
        start_angle: Seq<char>,
        end_angle: Seq<char>,
        layer: Seq<char>,
        props: PropsV,
    },
    LwPolyline {
        vertices: Seq<PointV>,
        bulges: Seq<Option<Seq<char>>>,
        closed: bool,
        layer: Seq<char>,
        props: PropsV,
    },
    Text {
        position: PointV,
        value: Seq<char>,
        height: Seq<char>,
        rotation: Option<Seq<char>>,
        layer: Seq<char>,
        props: PropsV,
    },
    Insert {
        block_name: Seq<char>,
        position: PointV,
        scale_x: Seq<char>,
        scale_y: Seq<char>,
        scale_z: Seq<char>,
        rotation: Option<Seq<char>>,
        layer: Seq<char>,
        props: PropsV,
    },
    MText {
        position: PointV,
        value: Seq<char>,
        height: Seq<char>,
        rotation: Option<Seq<char>>,
        attachment_point: i16,
        layer: Seq<char>,
        props: PropsV,
    },
    Dimension {
        kind: u16,
        block_name: Option<Seq<char>>,
        text_override: Option<Seq<char>>,
        measured_value: Option<Seq<char>>,
        defining_points: Seq<PointV>,
        rotation: Option<Seq<char>>,
        layer: Seq<char>,
        props: PropsV,
    },
    Raw { kind: Seq<char>, layer: Seq<char>, groups: Seq<(i32, Seq<char>)> },
}

pub open spec fn points_view(v: Seq<NumPoint>) -> Seq<PointV> {
    v.map_values(|p: NumPoint| p@)
}

pub open spec fn texts_view(v: Seq<String>) -> Seq<Seq<char>> {
    v.map_values(|s: String| s@)
}

pub open spec fn opt_texts_view(v: Seq<Option<String>>) -> Seq<Option<Seq<char>>> {
    v.map_values(|s: Option<String>| opt_view(s))
}

impl View for Entity {
    type V = EntityV;

    open spec fn view(&self) -> EntityV {
        match self {
            Entity::Line { p1, p2, layer, props } => EntityV::Line {
                p1: p1@,
                p2: p2@,
                layer: layer@,
                props: props@,
            },
            Entity::Circle { center, radius, layer, props } => EntityV::Circle {
                center: center@,
                radius: radius@,
                layer: layer@,
                props: props@,
            },
            Entity::Arc { center, radius, start_angle, end_angle, layer, props } => EntityV::Arc {
                center: center@,
                radius: radius@,
                start_angle: start_angle@,
                end_angle: end_angle@,
                layer: layer@,
                props: props@,
            },
            Entity::LwPolyline { vertices, bulges, closed, layer, props } => EntityV::LwPolyline {
                vertices: points_view(vertices@),
                bulges: opt_texts_view(bulges@),
                closed: *closed,
                layer: layer@,
                props: props@,
            },
            Entity::Text { position, value, height, rotation, layer, props } => EntityV::Text {
                position: position@,
                value: value@,
                height: height@,
                rotation: opt_view(*rotation),
                layer: layer@,
                props: props@,
            },
            Entity::Insert {
                block_name,
                position,
                scale_x,
                scale_y,
                scale_z,
                rotation,
                layer,
                props,
            } => EntityV::Insert {
                block_name: block_name@,
                position: position@,
                scale_x: scale_x@,
                scale_y: scale_y@,
                scale_z: scale_z@,
                rotation: opt_view(*rotation),
                layer: layer@,
                props: props@,
            },
            Entity::MText { position, value, height, rotation, attachment_point, layer, props } =>
                EntityV::MText {
                position: position@,
                value: value@,
                height: height@,
                rotation: opt_view(*rotation),
                attachment_point: *attachment_point,
                layer: layer@,
                props: props@,
            },
            Entity::Dimension {
                kind,
                block_name,
                text_override,
                measured_value,
                defining_points,
                rotation,
                layer,
                props,
            } => EntityV::Dimension {
                kind: kind.0,
                block_name: opt_view(*block_name),
                text_override: opt_view(*text_override),
                measured_value: opt_view(*measured_value),
                defining_points: points_view(defining_points@),
                rotation: opt_view(*rotation),
                layer: layer@,
                props: props@,
            },
            Entity::Raw(r) => EntityV::Raw {
                kind: r.kind@,
                layer: r.layer@,
                groups: pairs_view(r.groups@),
            },
        }
    }
}

/// The layer an entity is on.
pub open spec fn layer_of(e: EntityV) -> Seq<char> {
    match e {
        EntityV::Line { layer, .. } => layer,
        EntityV::Circle { layer, .. } => layer,
        EntityV::Arc { layer, .. } => layer,
        EntityV::LwPolyline { layer, .. } => layer,
        EntityV::Text { layer, .. } => layer,
        EntityV::Insert { layer, .. } => layer,
        EntityV::MText { layer, .. } => layer,
        EntityV::Dimension { layer, .. } => layer,
        EntityV::Raw { layer, .. } => layer,
    }
}

impl Entity {
    /// Return the layer this entity is on.
    pub fn layer(&self) -> (r: &LayerName)
        ensures
            r@ == layer_of(self@),
    {
        match self {
            Entity::Line { layer, .. } => layer,
            Entity::Circle { layer, .. } => layer,
            Entity::Arc { layer, .. } => layer,
            Entity::LwPolyline { layer, .. } => layer,
            Entity::Text { layer, .. } => layer,
            Entity::Insert { layer, .. } => layer,
            Entity::MText { layer, .. } => layer,
            Entity::Dimension { layer, .. } => layer,
            Entity::Raw(r) => &r.layer,
        }
    }
}

/// BLOCK definition from the BLOCKS section of a DXF file.
#[derive(Debug, Clone)]
pub struct BlockDef {
    pub name: String,
    pub layer: LayerName,
    pub base_point: NumPoint,
    pub flags: i64,
    pub entities: Vec<Entity>,
    pub props: EntityProps,
}

#[verifier::ext_equal]
pub struct BlockV {
    pub name: Seq<char>,
    pub layer: Seq<char>,
    pub base_point: PointV,
    pub flags: i64,
    pub entities: Seq<EntityV>,
    pub props: PropsV,
}

pub open spec fn entities_view(v: Seq<Entity>) -> Seq<EntityV> {
    v.map_values(|e: Entity| e@)
}

impl View for BlockDef {
    type V = BlockV;

    open spec fn view(&self) -> BlockV {
        BlockV {
            name: self.name@,
            layer: self.layer@,
            base_point: self.base_point@,
            flags: self.flags,
            entities: entities_view(self.entities@),
            props: self.props@,
        }
    }
}


pub fn clone_text_opt(o: &Option<String>) -> (r: Option<String>)
    ensures
        opt_view(r) == opt_view(*o),
{
    match o {
        Some(s) => Some(s.clone()),
        None => None,
    }
}

pub fn clone_point(p: &NumPoint) -> (r: NumPoint)
    ensures
        r@ == p@,
{
    NumPoint { x: p.x.clone(), y: p.y.clone(), z: p.z.clone() }
}

pub fn clone_pairs(v: &Vec<(i32, String)>) -> (r: Vec<(i32, String)>)
    ensures
        pairs_view(r@) == pairs_view(v@),
{
    let mut out: Vec<(i32, String)> = Vec::new();
    let mut i: usize = 0;
    while i < v.len()
        invariant
            i <= v@.len(),
            out@.len() == i,
            pairs_view(out@) == pairs_view(v@).take(i as int),
        decreases v@.len() - i,
    {
        let ghost before = out@;
        out.push((v[i].0, v[i].1.clone()));
        assert(pairs_view(out@) =~= pairs_view(v@).take(i + 1));
        i = i + 1;
    }
    assert(pairs_view(v@).take(v@.len() as int) =~= pairs_view(v@));
    out
}

pub fn clone_texts(v: &Vec<String>) -> (r: Vec<String>)
    ensures
        texts_view(r@) == texts_view(v@),
{
    let mut out: Vec<String> = Vec::new();
    let mut i: usize = 0;
    while i < v.len()
        invariant
            i <= v@.len(),
            out@.len() == i,
            texts_view(out@) == texts_view(v@).take(i as int),
        decreases v@.len() - i,
    {
        out.push(v[i].clone());
        assert(texts_view(out@) =~= texts_view(v@).take(i + 1));
        i = i + 1;
    }
    assert(texts_view(v@).take(v@.len() as int) =~= texts_view(v@));
    out
}

pub fn clone_opt_texts(v: &Vec<Option<String>>) -> (r: Vec<Option<String>>)
    ensures
        opt_texts_view(r@) == opt_texts_view(v@),
{
    let mut out: Vec<Option<String>> = Vec::new();
    let mut i: usize = 0;
    while i < v.len()
        invariant
            i <= v@.len(),
            out@.len() == i,
            opt_texts_view(out@) == opt_texts_view(v@).take(i as int),
        decreases v@.len() - i,
    {
        out.push(clone_text_opt(&v[i]));
        assert(opt_texts_view(out@) =~= opt_texts_view(v@).take(i + 1));
        i = i + 1;
    }
    assert(opt_texts_view(v@).take(v@.len() as int) =~= opt_texts_view(v@));
    out
}

pub fn clone_points(v: &Vec<NumPoint>) -> (r: Vec<NumPoint>)
    ensures
        points_view(r@) == points_view(v@),
{
    let mut out: Vec<NumPoint> = Vec::new();
    let mut i: usize = 0;
    while i < v.len()
        invariant
            i <= v@.len(),
            out@.len() == i,
            points_view(out@) == points_view(v@).take(i as int),
        decreases v@.len() - i,
    {
        out.push(clone_point(&v[i]));
        assert(points_view(out@) =~= points_view(v@).take(i + 1));
        i = i + 1;
    }
    assert(points_view(v@).take(v@.len() as int) =~= points_view(v@));
    out
}

pub fn clone_props(p: &EntityProps) -> (r: EntityProps)
    ensures
        r@ == p@,
{
    EntityProps {
        handle: clone_text_opt(&p.handle),
        color: p.color,
        linetype: clone_text_opt(&p.linetype),
        xdata: clone_pairs(&p.xdata),
        raw_extras: clone_pairs(&p.raw_extras),
    }
}

/// A copy of an entity, field for field.
pub fn clone_entity(e: &Entity) -> (r: Entity)
    ensures
        r@ == e@,
{
    match e {
        Entity::Line { p1, p2, layer, props } => Entity::Line {
            p1: clone_point(p1),
            p2: clone_point(p2),
            layer: layer.clone(),
            props: clone_props(props),
        },
        Entity::Circle { center, radius, layer, props } => Entity::Circle {
            center: clone_point(center),
            radius: radius.clone(),
            layer: layer.clone(),
            props: clone_props(props),
        },
        Entity::Arc { center, radius, start_angle, end_angle, layer, props } => Entity::Arc {
            center: clone_point(center),
            radius: radius.clone(),
            start_angle: start_angle.clone(),
            end_angle: end_angle.clone(),
            layer: layer.clone(),
            props: clone_props(props),
        },
        Entity::LwPolyline { vertices, bulges, closed, layer, props } => Entity::LwPolyline {
            vertices: clone_points(vertices),
            bulges: clone_opt_texts(bulges),
            closed: *closed,
            layer: layer.clone(),
            props: clone_props(props),
        },
        Entity::Text { position, value, height, rotation, layer, props } => Entity::Text {
            position: clone_point(position),
            value: value.clone(),
            height: height.clone(),
            rotation: clone_text_opt(rotation),
            layer: layer.clone(),
            props: clone_props(props),
        },
        Entity::Insert {
            block_name,
            position,
            scale_x,
            scale_y,
            scale_z,
            rotation,
            layer,
            props,
        } => Entity::Insert {
            block_name: block_name.clone(),
            position: clone_point(position),
            scale_x: scale_x.clone(),
            scale_y: scale_y.clone(),
            scale_z: scale_z.clone(),
            rotation: clone_text_opt(rotation),
            layer: layer.clone(),
            props: clone_props(props),
        },
        Entity::MText { position, value, height, rotation, attachment_point, layer, props } =>
            Entity::MText {
            position: clone_point(position),
            value: value.clone(),
            height: height.clone(),
            rotation: clone_text_opt(rotation),
            attachment_point: *attachment_point,
            layer: layer.clone(),
            props: clone_props(props),
        },
        Entity::Dimension {
            kind,
            block_name,
            text_override,
            measured_value,
            defining_points,
            rotation,
            layer,
            props,
        } => Entity::Dimension {
            kind: *kind,
            block_name: clone_text_opt(block_name),
            text_override: clone_text_opt(text_override),
            measured_value: clone_text_opt(measured_value),
            defining_points: clone_points(defining_points),
            rotation: clone_text_opt(rotation),
            layer: layer.clone(),
            props: clone_props(props),
        },
        Entity::Raw(r) => Entity::Raw(
            RawEntity { kind: r.kind.clone(), layer: r.layer.clone(), groups: clone_pairs(&r.groups) },
        ),
    }
}

} // verus!
