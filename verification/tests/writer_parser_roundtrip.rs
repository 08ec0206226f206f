//! Round trip: build a set of entities, emit them as DXF, parse the lines
//! back and compare.

use cad_open_layer::document::parse_all;
use cad_open_layer::entity::{BlockDef, Entity, EntityProps, NumPoint};
use cad_open_layer::writer::{standard_arch_layers, write_dxf};

fn num(v: f64) -> String {
    format!("{v:.3}")
}

fn pt(x: f64, y: f64, z: f64) -> NumPoint {
    NumPoint { x: num(x), y: num(y), z: num(z) }
}

fn val(t: &str) -> f64 {
    t.parse::<f64>().unwrap()
}

fn line(p1: NumPoint, p2: NumPoint, layer: &str) -> Entity {
    Entity::Line { p1, p2, layer: layer.into(), props: EntityProps::default() }
}

fn arc(c: NumPoint, r: f64, start_deg: f64, end_deg: f64, layer: &str) -> Entity {
    Entity::Arc {
        center: c,
        radius: num(r),
        start_angle: num(start_deg),
        end_angle: num(end_deg),
        layer: layer.into(),
        props: EntityProps::default(),
    }
}

fn text(pos: NumPoint, value: &str, layer: &str) -> Entity {
    Entity::Text {
        position: pos,
        value: value.into(),
        height: num(250.0),
        rotation: None,
        layer: layer.into(),
        props: EntityProps::default(),
    }
}

#[test]
fn round_trip_basic_entities() {
    let entities = vec![
        line(pt(0.0, 0.0, 0.0), pt(10000.0, 0.0, 0.0), "WALLS"),
        line(pt(10000.0, 0.0, 0.0), pt(10000.0, 6500.0, 0.0), "WALLS"),
        arc(pt(4000.0, 1200.0, 0.0), 800.0, 0.0, 90.0, "DOORS"),
        text(pt(800.0, 1200.0, 0.0), "LIVING", "TEXT"),
    ];

    let lines = write_dxf(
        &[("$ACADVER", "AC1015"), ("$INSUNITS", "4")],
        &standard_arch_layers(),
        &[],
        &entities,
    );

    let parsed = parse_all(lines).unwrap();

    assert_eq!(parsed.entities.len(), 4, "should round-trip 4 entities");
    assert_eq!(parsed.header.get("$ACADVER").map(String::as_str), Some("AC1015"));

    // Verify first entity is the LINE.
    if let Entity::Line { p1, p2, layer, .. } = &parsed.entities[0] {
        assert_eq!(layer, "WALLS");
        assert!((val(&p1.x) - 0.0).abs() < 1e-6);
        assert!((val(&p2.x) - 10000.0).abs() < 1e-6);
    } else {
        panic!("first entity should be a LINE, got {:?}", parsed.entities[0]);
    }

    // Verify ARC angles preserved (the file holds degrees).
    if let Entity::Arc { radius, start_angle, end_angle, layer, .. } = &parsed.entities[2] {
        assert_eq!(layer, "DOORS");
        assert!((val(radius) - 800.0).abs() < 1e-6);
        assert!((val(start_angle).to_radians() - 0.0).abs() < 1e-6);
        assert!((val(end_angle).to_radians() - std::f64::consts::FRAC_PI_2).abs() < 1e-6);
    } else {
        panic!("third entity should be an ARC, got {:?}", parsed.entities[2]);
    }

    // Verify TEXT value preserved.
    if let Entity::Text { value, layer, .. } = &parsed.entities[3] {
        assert_eq!(layer, "TEXT");
        assert_eq!(value, "LIVING");
    } else {
        panic!("fourth entity should be TEXT");
    }
}

#[test]
fn round_trip_with_block_definitions() {
    let block = BlockDef {
        name: "DOOR_800".into(),
        layer: "DOORS".into(),
        base_point: pt(0.0, 0.0, 0.0),
        flags: 0,
        entities: vec![
            line(pt(0.0, 0.0, 0.0), pt(800.0, 0.0, 0.0), "DOORS"),
            arc(pt(0.0, 0.0, 0.0), 800.0, 0.0, 90.0, "DOORS"),
        ],
        props: EntityProps::default(),
    };

    let entities = vec![Entity::Insert {
        block_name: "DOOR_800".into(),
        position: pt(4000.0, 1200.0, 0.0),
        scale_x: num(1.0),
        scale_y: num(1.0),
        scale_z: num(1.0),
        rotation: None,
        layer: "DOORS".into(),
        props: EntityProps::default(),
    }];

    let lines = write_dxf(
        &[("$ACADVER", "AC1015"), ("$INSUNITS", "4")],
        &standard_arch_layers(),
        &[block],
        &entities,
    );

    let parsed = parse_all(lines).unwrap();

    assert_eq!(parsed.entities.len(), 1, "should round-trip 1 INSERT");
    // Filter out built-in *Model_Space / *Paper_Space which the writer always emits.
    let user_blocks: Vec<_> = parsed.blocks.iter().filter(|b| !b.name.starts_with('*')).collect();
    assert_eq!(user_blocks.len(), 1, "should round-trip 1 user BLOCK definition");
    assert_eq!(user_blocks[0].name, "DOOR_800");
    assert_eq!(user_blocks[0].entities.len(), 2);

    if let Entity::Insert { block_name, position, .. } = &parsed.entities[0] {
        assert_eq!(block_name, "DOOR_800");
        assert!((val(&position.x) - 4000.0).abs() < 1e-6);
        assert!((val(&position.y) - 1200.0).abs() < 1e-6);
    } else {
        panic!("entity should be INSERT");
    }
}

#[test]
fn raw_extras_survive_round_trip() {
    // A LINE with a group code it does not model (999). The parser keeps it
    // among the extra groups, and the writer writes it back.
    let mut props = EntityProps::default();
    props.raw_extras.push((999, "preserved-marker".into()));

    let entities = vec![Entity::Line {
        p1: pt(0.0, 0.0, 0.0),
        p2: pt(1000.0, 0.0, 0.0),
        layer: "WALLS".into(),
        props,
    }];

    let lines = write_dxf(
        &[("$ACADVER", "AC1015"), ("$INSUNITS", "4")],
        &standard_arch_layers(),
        &[],
        &entities,
    );

    let parsed = parse_all(lines).unwrap();
    assert_eq!(parsed.entities.len(), 1);

    let extras = match &parsed.entities[0] {
        Entity::Line { props, .. } => &props.raw_extras,
        _ => panic!("expected LINE"),
    };
    let has_marker = extras.iter().any(|(c, v)| *c == 999 && v == "preserved-marker");
    assert!(has_marker, "raw_extras (999) must survive write/re-parse, got {extras:?}");
}

#[test]
fn dxf_output_parses_as_valid_r2000() {
    // Smoke test: minimal valid DXF with no entities still parses.
    let lines = write_dxf(
        &[("$ACADVER", "AC1015"), ("$INSUNITS", "4")],
        &standard_arch_layers(),
        &[],
        &[],
    );

    let parsed = parse_all(lines).unwrap();
    assert_eq!(parsed.entities.len(), 0);
    assert_eq!(parsed.header.get("$ACADVER").map(String::as_str), Some("AC1015"));
}
