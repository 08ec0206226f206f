//! Concrete cases of what the library states in general: numbers read
//! back as written, files read back as written, and the small rules of the
//! data model and the server.

use cad_open_layer::document::parse_all;
use cad_open_layer::entity::{BlockDef, DimensionKindRaw, Entity, EntityProps, NumPoint, RawEntity};
use cad_open_layer::mcp::{
    method_not_found, parse_counts, route_method, route_tool, unknown_tool_message, Method, Tool,
    METHOD_NOT_FOUND,
};
use cad_open_layer::numeric::{format_int, is_float_text, parse_i32, parse_i64};
use cad_open_layer::semantic::{
    check_equivalence, opening_kind_name, wall_kind_name, CleanupMetric, Difference, ElementCounts,
    EquivalenceResult, OpeningKind, WallKind,
};
use cad_open_layer::text::{text_eq, trim};
use cad_open_layer::units::DxfUnits;
use cad_open_layer::writer::{standard_arch_layers, write_dxf, DxfWriter, LayerDef};

fn p(x: &str, y: &str, z: &str) -> NumPoint {
    NumPoint { x: x.into(), y: y.into(), z: z.into() }
}

#[test]
fn integers_read_back_as_written() {
    for n in [0i128, 7, -7, 42, -32768, 2147483647, -2147483647, 9007199254740993] {
        let t = format_int(n);
        assert_eq!(t, n.to_string());
        assert_eq!(parse_i64(&t), Some(n as i64));
    }
    assert_eq!(parse_i32("-12"), Some(-12));
    assert_eq!(parse_i32("+5"), Some(5));
    assert_eq!(parse_i32("2147483648"), None);
    assert_eq!(parse_i64("1e3"), None);
}

#[test]
fn float_literals_follow_the_standard_grammar() {
    for t in ["0", "0.000", "-1.5", "+.5", "5.", "1e-3", "2.5E+10", "inf", "-Infinity", "NaN"] {
        assert!(is_float_text(t), "{t} is a literal");
        assert!(t.parse::<f64>().is_ok());
    }
    for t in ["", ".", "e5", "1e", "--1", "1.2.3", "0x10", "one"] {
        assert!(!is_float_text(t), "{t} is no literal");
        assert!(t.parse::<f64>().is_err());
    }
}

#[test]
fn trimming_matches_the_standard_library() {
    for t in ["  a b  ", "\t\r\nx", "", "   ", "\u{3000}y\u{2003}"] {
        assert_eq!(trim(t), t.trim());
    }
    assert!(text_eq("HEADER", "HEADER"));
    assert!(!text_eq("HEADER", "HEADERS"));
}

fn every_kind() -> Vec<Entity> {
    let mut props = EntityProps::default();
    props.color = Some(3);
    props.linetype = Some("DASHED".into());
    props.raw_extras.push((999, "note".into()));
    props.xdata.push((1001, "APP".into()));
    vec![
        Entity::Line { p1: p("0", "0", "0"), p2: p("1.5", "2", "0"), layer: "WALLS".into(), props },
        Entity::Circle {
            center: p("5", "5", "0"),
            radius: "2.5".into(),
            layer: "C".into(),
            props: EntityProps::default(),
        },
        Entity::Arc {
            center: p("0", "0", "0"),
            radius: "800".into(),
            start_angle: "0".into(),
            end_angle: "90".into(),
            layer: "DOORS".into(),
            props: EntityProps::default(),
        },
        Entity::LwPolyline {
            vertices: vec![p("0", "0", "0"), p("10", "0", "0"), p("10", "10", "0")],
            bulges: vec![None, Some("0.5".into()), None],
            closed: true,
            layer: "ROOM".into(),
            props: EntityProps::default(),
        },
        Entity::Text {
            position: p("1", "2", "0"),
            value: "LIVING".into(),
            height: "250".into(),
            rotation: Some("45".into()),
            layer: "TEXT".into(),
            props: EntityProps::default(),
        },
        Entity::MText {
            position: p("1", "2", "0"),
            value: "KITCHEN".into(),
            height: "200".into(),
            rotation: None,
            attachment_point: 5,
            layer: "TEXT".into(),
            props: EntityProps::default(),
        },
        Entity::Insert {
            block_name: "DOOR_800".into(),
            position: p("4000", "1200", "0"),
            scale_x: "1".into(),
            scale_y: "-1".into(),
            scale_z: "1".into(),
            rotation: Some("90".into()),
            layer: "DOORS".into(),
            props: EntityProps::default(),
        },
        Entity::Dimension {
            kind: DimensionKindRaw(33),
            block_name: Some("*D1".into()),
            text_override: None,
            measured_value: Some("3600".into()),
            defining_points: vec![
                p("0", "0", "0"),
                p("3600", "0", "0"),
                p("0", "500", "0"),
                p("0", "0", "0"),
                p("0", "0", "0"),
            ],
            rotation: None,
            layer: "DIMS".into(),
            props: EntityProps::default(),
        },
        Entity::Raw(RawEntity {
            kind: "HATCH".into(),
            layer: "FILL".into(),
            groups: vec![(8, "FILL".into()), (2, "SOLID".into()), (70, "1".into())],
        }),
    ]
}

/// What reading back gives for an entity: the same, but a TEXT that
/// carries no style keeps the default one among its extra groups.
fn read_back(e: &Entity) -> Entity {
    let mut e = e.clone();
    if let Entity::Text { props, .. } = &mut e {
        if !props.raw_extras.iter().any(|g| g.0 == 7) {
            props.raw_extras.insert(0, (7, "STANDARD".into()));
        }
    }
    e
}

#[test]
fn every_entity_kind_reads_back_as_written() {
    let written = every_kind();
    let block = BlockDef {
        name: "DOOR_800".into(),
        layer: "DOORS".into(),
        base_point: p("0", "0", "0"),
        flags: 2,
        entities: vec![written[2].clone(), written[0].clone()],
        props: EntityProps::default(),
    };
    let lines = write_dxf(
        &[("$ACADVER", "AC1015"), ("$INSUNITS", "4"), ("$ACADVER", "AC1018")],
        &standard_arch_layers(),
        &[block],
        &written,
    );
    let doc = parse_all(lines).unwrap();
    assert!(doc.parse_warnings.is_empty());
    assert_eq!(doc.header.len(), 2);
    assert_eq!(doc.header.get("$ACADVER").map(String::as_str), Some("AC1018"));
    assert_eq!(doc.entities.len(), written.len());
    for (got, want) in doc.entities.iter().zip(written.iter()) {
        assert_eq!(format!("{got:?}"), format!("{:?}", read_back(want)));
    }
    let names: Vec<&str> = doc.blocks.iter().map(|b| b.name.as_str()).collect();
    assert_eq!(names, vec!["*Model_Space", "*Paper_Space", "DOOR_800"]);
    let b = &doc.blocks[2];
    assert_eq!((b.layer.as_str(), b.flags, b.entities.len()), ("DOORS", 2, 2));
    assert_eq!(b.props.raw_extras, vec![(3, "DOOR_800".to_string()), (1, String::new())]);
    assert_eq!(format!("{:?}", b.entities[1]), format!("{:?}", written[0]));
}

#[test]
fn writer_writes_pairs_as_two_lines() {
    let mut w = DxfWriter::new();
    w.write_pair(0, "SECTION");
    w.write_pair(-5, "x");
    let lines = w.finish();
    assert_eq!(lines, vec!["0", "SECTION", "-5", "x", "0", "EOF"]);
}

#[test]
fn standard_layers_are_the_architectural_set() {
    let ls = standard_arch_layers();
    let names: Vec<&str> = ls.iter().map(|l| l.name.as_str()).collect();
    assert_eq!(names, vec!["0", "WALLS", "DOORS", "WINDOWS", "DIMENSIONS", "TEXT", "GRID"]);
    let l = LayerDef::new("X", 9);
    assert_eq!((l.name.as_str(), l.color, l.linetype.as_str(), l.flags), ("X", 9, "CONTINUOUS", 0));
}

#[test]
fn units_from_insunits_codes() {
    assert_eq!(DxfUnits::from_dxf_code(4), DxfUnits::Millimeter);
    assert_eq!(DxfUnits::from_dxf_code(6), DxfUnits::Meter);
    assert_eq!(DxfUnits::from_dxf_code(1), DxfUnits::Inch);
    assert_eq!(DxfUnits::from_dxf_code(10), DxfUnits::Yard);
    assert_eq!(DxfUnits::from_dxf_code(0), DxfUnits::Unitless);
    assert_eq!(DxfUnits::from_dxf_code(99), DxfUnits::Unitless);
}

#[test]
fn equivalence_by_element_counts() {
    let a = ElementCounts { walls: 8, openings: 4, rooms: 3, dimensions: 2 };
    assert!(matches!(check_equivalence(&a, &a), EquivalenceResult::Equivalent));
    let b = ElementCounts { walls: 7, openings: 4, rooms: 3, dimensions: 5 };
    match check_equivalence(&a, &b) {
        EquivalenceResult::Different { differences } => {
            assert_eq!(differences.len(), 2);
            assert!(matches!(differences[0], Difference::WallCountMismatch { a: 8, b: 7 }));
            assert!(matches!(differences[1], Difference::DimensionCountMismatch { a: 2, b: 5 }));
        }
        EquivalenceResult::Equivalent => panic!("counts differ"),
    }
}

#[test]
fn cleanup_metric_totals_and_threshold() {
    let m = CleanupMetric { layer_renames: 1, dimension_text_fixes: 2, other: 3, ..Default::default() };
    assert_eq!(m.total(), 6);
    assert!(m.passes_threshold(6));
    assert!(!m.passes_threshold(5));
    assert_eq!(CleanupMetric::default().total(), 0);
}

#[test]
fn unknown_method_returns_error() {
    assert_eq!(route_method("nope"), Method::NotFound);
    let e = method_not_found("nope");
    assert_eq!(e.code, -32601);
    assert_eq!(e.code, METHOD_NOT_FOUND);
    assert_eq!(e.message, "method not found: nope");
}

#[test]
fn methods_and_tools_are_routed() {
    assert_eq!(route_method("initialize"), Method::Initialize);
    assert_eq!(route_method("tools/list"), Method::ToolsList);
    assert_eq!(route_method("tools/call"), Method::ToolsCall);
    assert_eq!(route_method("notifications/initialized"), Method::Initialized);
    assert_eq!(route_tool("parse_dxf"), Tool::ParseDxf);
    assert_eq!(route_tool("extract_floorplan"), Tool::ExtractFloorplan);
    assert_eq!(route_tool("render"), Tool::Unknown);
    assert_eq!(unknown_tool_message("render"), "unknown tool: render");
}

#[test]
fn parse_counts_of_a_document() {
    let lines = write_dxf(&[("$ACADVER", "AC1015")], &[], &[], &every_kind());
    let doc = parse_all(lines).unwrap();
    let c = parse_counts(&doc);
    assert_eq!((c.entities, c.blocks, c.header_vars, c.parse_warnings), (9, 2, 1, 0));
}

#[test]
fn kind_names_are_spelled_for_reports() {
    assert_eq!(wall_kind_name(WallKind::Exterior), "Exterior");
    assert_eq!(wall_kind_name(WallKind::Interior), "Interior");
    assert_eq!(wall_kind_name(WallKind::Partition), "Partition");
    assert_eq!(wall_kind_name(WallKind::Unknown), "Unknown");
    assert_eq!(opening_kind_name(OpeningKind::Door), "Door");
    assert_eq!(opening_kind_name(OpeningKind::Window), "Window");
    assert_eq!(opening_kind_name(OpeningKind::Pass), "Pass");
}

fn has_pair(lines: &[String], code: &str, value: &str) -> bool {
    lines.windows(2).any(|w| w[0] == code && w[1] == value)
}

#[test]
fn small_rotations_and_bulges_keep_their_groups() {
    let poly = Entity::LwPolyline {
        vertices: vec![p("0", "0", "0"), p("10", "0", "0")],
        bulges: vec![Some("0.000".into()), None],
        closed: false,
        layer: "ROOM".into(),
        props: EntityProps::default(),
    };
    let dim = Entity::Dimension {
        kind: DimensionKindRaw(0),
        block_name: None,
        text_override: None,
        measured_value: None,
        defining_points: vec![p("0", "0", "0"); 5],
        rotation: Some("0.000".into()),
        layer: "DIMS".into(),
        props: EntityProps::default(),
    };
    let lines = write_dxf(&[], &[], &[], &[poly, dim]);
    assert!(has_pair(&lines, "42", "0.000"));
    assert!(has_pair(&lines, "50", "0.000"));
    let doc = parse_all(lines).unwrap();
    match &doc.entities[0] {
        Entity::LwPolyline { bulges, .. } => {
            assert_eq!(bulges, &vec![Some("0.000".to_string()), None]);
        }
        other => panic!("expected the polyline, got {other:?}"),
    }
    match &doc.entities[1] {
        Entity::Dimension { rotation, .. } => assert_eq!(rotation.as_deref(), Some("0.000")),
        other => panic!("expected the dimension, got {other:?}"),
    }
}

#[test]
fn handles_survive_a_round_trip() {
    let mut props = EntityProps::default();
    props.handle = Some("1A".into());
    let line = Entity::Line { p1: p("0", "0", "0"), p2: p("1", "1", "0"), layer: "A".into(), props };
    let lines = write_dxf(&[], &[], &[], &[line]);
    assert!(has_pair(&lines, "5", "1A"));
    let doc = parse_all(lines).unwrap();
    match &doc.entities[0] {
        Entity::Line { props, .. } => assert_eq!(props.handle.as_deref(), Some("1A")),
        other => panic!("expected the line, got {other:?}"),
    }
}

#[test]
fn a_second_write_and_read_changes_nothing() {
    let text = Entity::Text {
        position: p("800", "1200", "0"),
        value: "LIVING".into(),
        height: "250".into(),
        rotation: None,
        layer: "TEXT".into(),
        props: EntityProps::default(),
    };
    let poly = Entity::LwPolyline {
        vertices: vec![p("0", "0", "0"), p("10", "0", "0")],
        bulges: vec![None, None],
        closed: false,
        layer: "ROOM".into(),
        props: EntityProps::default(),
    };
    let d1 = parse_all(write_dxf(&[], &[], &[], &[text, poly])).unwrap();
    let d2 = parse_all(write_dxf(&[], &[], &[], &d1.entities)).unwrap();
    assert_eq!(format!("{:?}", d1.entities), format!("{:?}", d2.entities));
    match &d1.entities[0] {
        Entity::Text { props, .. } => {
            assert_eq!(props.raw_extras, vec![(7, "STANDARD".to_string())]);
        }
        other => panic!("expected the text, got {other:?}"),
    }
    match &d1.entities[1] {
        Entity::LwPolyline { props, .. } => assert!(props.raw_extras.is_empty()),
        other => panic!("expected the polyline, got {other:?}"),
    }
}
