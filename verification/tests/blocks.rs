use std::f64::consts::PI;

use cad_open_layer::blocks::{standard_door_block, standard_window_block};
use cad_open_layer::classify::block_width_digits;
use cad_open_layer::entity::Entity;

fn num(t: &str) -> f64 {
    t.parse::<f64>().unwrap()
}

#[test]
fn door_block_has_leaf_and_arc() {
    let b = standard_door_block(800);
    assert_eq!(b.name, "DOOR_800");
    assert_eq!(b.entities.len(), 2);
    let has_line = b.entities.iter().any(|e| matches!(e, Entity::Line { .. }));
    let has_arc = b.entities.iter().any(|e| matches!(e, Entity::Arc { .. }));
    assert!(has_line && has_arc);

    // Angles are kept in degrees.
    for e in &b.entities {
        if let Entity::Line { p1, p2, .. } = e {
            assert!((num(&p1.x) - 0.0).abs() < 1e-6);
            assert!((num(&p2.x) - 800.0).abs() < 1e-6);
        }
        if let Entity::Arc { radius, start_angle, end_angle, .. } = e {
            assert!((num(radius) - 800.0).abs() < 1e-6);
            assert!((num(start_angle).to_radians() - 0.0).abs() < 1e-6);
            assert!((num(end_angle).to_radians() - PI / 2.0).abs() < 1e-6);
        }
    }
}

#[test]
fn window_block_has_four_edges() {
    let b = standard_window_block(1200, 80);
    assert_eq!(b.name, "WINDOW_1200");
    assert_eq!(b.entities.len(), 4);
}

#[test]
fn block_literals_are_written_with_three_decimals() {
    let b = standard_door_block(800);
    assert_eq!(b.layer, "DOORS");
    assert_eq!((b.base_point.x.as_str(), b.base_point.y.as_str()), ("0.000", "0.000"));
    match &b.entities[1] {
        Entity::Arc { radius, start_angle, end_angle, layer, .. } => {
            assert_eq!(radius, "800.000");
            assert_eq!(start_angle, "0.000");
            assert_eq!(end_angle, "90.000");
            assert_eq!(layer, "DOORS");
        }
        other => panic!("expected the swing arc, got {other:?}"),
    }
    let w = standard_window_block(900, 80);
    match &w.entities[3] {
        Entity::Line { p1, p2, .. } => {
            assert_eq!((p1.x.as_str(), p1.y.as_str()), ("900.000", "0.000"));
            assert_eq!((p2.x.as_str(), p2.y.as_str()), ("900.000", "80.000"));
        }
        other => panic!("expected the right edge, got {other:?}"),
    }
}

#[test]
fn block_names_give_back_their_widths() {
    for w in [600u32, 700, 800, 900, 1000, 1200, 1500, 1800, 2400] {
        assert_eq!(block_width_digits(&standard_door_block(w).name), w.to_string());
        assert_eq!(block_width_digits(&standard_window_block(w, 80).name), w.to_string());
    }
}

#[test]
fn the_standard_openings_are_the_doors_then_the_windows() {
    let blocks = cad_open_layer::blocks::standard_opening_blocks();
    let names: Vec<String> = blocks.iter().map(|b| b.name.clone()).collect();
    assert_eq!(
        names,
        vec![
            "DOOR_600", "DOOR_700", "DOOR_800", "DOOR_900", "DOOR_1000", "DOOR_1200",
            "WINDOW_600", "WINDOW_900", "WINDOW_1200", "WINDOW_1500", "WINDOW_1800",
            "WINDOW_2400",
        ]
    );
    assert_eq!(cad_open_layer::blocks::standard_door_widths_mm(), vec![600, 700, 800, 900, 1000, 1200]);
    assert_eq!(
        cad_open_layer::blocks::standard_window_widths_mm(),
        vec![600, 900, 1200, 1500, 1800, 2400]
    );
    // Windows are drawn at the default depth: the second line lies at y = 80.
    match &blocks[6].entities[1] {
        cad_open_layer::entity::Entity::Line { p1, .. } => assert_eq!(p1.y, "80.000"),
        other => panic!("expected a line, got {other:?}"),
    }
}
