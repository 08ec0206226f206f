//! Wall classification, dimension texts and the other naming rules of the
//! extraction.

use cad_open_layer::classify::{
    block_width_digits, classify_block, classify_one_wall, dim_kind_from_raw,
    dimension_text_digits, in_names, is_room_label_layer, layer_wall_hint, probe, wall_layer,
    LayerNamingConvention, ThicknessBand, WallStyle,
};
use cad_open_layer::entity::DimensionKindRaw;
use cad_open_layer::semantic::{DimensionKind, OpeningKind, WallKind};

/// The hierarchy thresholds of the default configuration, in millimeters.
const EXTERIOR_THRESHOLD: f64 = 180.0;
const INTERIOR_THRESHOLD: f64 = 100.0;

fn band(thickness: f64) -> ThicknessBand {
    if thickness >= EXTERIOR_THRESHOLD {
        ThicknessBand::Exterior
    } else if thickness >= INTERIOR_THRESHOLD {
        ThicknessBand::Interior
    } else {
        ThicknessBand::Thin
    }
}

fn classify(layer: &str, thickness: f64) -> WallKind {
    classify_one_wall(layer, band(thickness))
}

/// The dimension text read as a positive number.
fn parse_dimension_text(s: &str) -> Option<f64> {
    dimension_text_digits(s).and_then(|t| t.parse::<f64>().ok()).filter(|v| *v > 0.0)
}

#[test]
fn classify_layer_hints_override_thickness() {
    // Korean hints — even with sub-partition thickness, layer hint wins.
    assert_eq!(classify("외벽", 50.0), WallKind::Exterior);
    assert_eq!(classify("내벽", 50.0), WallKind::Interior);
    assert_eq!(classify("파티션", 500.0), WallKind::Partition);

    // English hints (case-insensitive substring match).
    assert_eq!(classify("EXTR-WALL", 50.0), WallKind::Exterior);
    assert_eq!(classify("intr_wall", 50.0), WallKind::Interior);
    assert_eq!(classify("PART_01", 500.0), WallKind::Partition);
}

#[test]
fn classify_thickness_fallback_when_no_hint() {
    assert_eq!(classify("WALLS", 200.0), WallKind::Exterior);
    assert_eq!(classify("WALLS", 150.0), WallKind::Interior);
    assert_eq!(classify("WALLS", 50.0), WallKind::Partition);
}

#[test]
fn parses_numeric_text_value() {
    assert_eq!(parse_dimension_text("10000"), Some(10000.0));
    assert_eq!(parse_dimension_text("6500"), Some(6500.0));
    assert_eq!(parse_dimension_text("123.45"), Some(123.45));
    assert_eq!(parse_dimension_text("hello"), None);
    assert_eq!(parse_dimension_text(""), None);
    assert_eq!(parse_dimension_text("0"), None);
}

#[test]
fn wall_hint_matches_anywhere_in_any_case() {
    assert_eq!(layer_wall_hint("A-WALL-Extr"), Some(WallKind::Exterior));
    assert_eq!(layer_wall_hint("1층 내벽"), Some(WallKind::Interior));
    assert_eq!(layer_wall_hint("Partition"), Some(WallKind::Partition));
    assert_eq!(layer_wall_hint("WALLS"), None);
    assert_eq!(layer_wall_hint(""), None);
}

#[test]
fn dimension_text_keeps_digits_points_and_minus() {
    assert_eq!(dimension_text_digits("  3,600 mm "), Some("3600".to_string()));
    assert_eq!(dimension_text_digits("-12.5m"), Some("-12.5".to_string()));
    assert_eq!(dimension_text_digits("   "), None);
    assert_eq!(parse_dimension_text("3600mm"), Some(3600.0));
}

#[test]
fn blocks_classified_by_name_then_layer() {
    let doors = vec!["DOORS".to_string(), "문".to_string()];
    let windows = vec!["WINDOWS".to_string(), "창".to_string()];
    assert_eq!(classify_block("DOOR_800", "0", &doors, &windows), Some(OpeningKind::Door));
    assert_eq!(classify_block("door900", "0", &doors, &windows), Some(OpeningKind::Door));
    assert_eq!(classify_block("A-DOOR_1", "0", &doors, &windows), Some(OpeningKind::Door));
    assert_eq!(classify_block("WINDOW_1200", "0", &doors, &windows), Some(OpeningKind::Window));
    assert_eq!(classify_block("win_600", "0", &doors, &windows), Some(OpeningKind::Window));
    assert_eq!(classify_block("X-WINDOW_2", "0", &doors, &windows), Some(OpeningKind::Window));
    assert_eq!(classify_block("LEAF", "문", &doors, &windows), Some(OpeningKind::Door));
    assert_eq!(classify_block("PANE", "창", &doors, &windows), Some(OpeningKind::Window));
    assert_eq!(classify_block("CHAIR", "FURN", &doors, &windows), None);
}

#[test]
fn block_width_is_the_trailing_digits() {
    assert_eq!(block_width_digits("DOOR_800"), "800");
    assert_eq!(block_width_digits("WIN_1200X"), "");
    assert_eq!(block_width_digits("1500"), "1500");
    assert_eq!(block_width_digits(""), "");
}

#[test]
fn dimension_kinds_from_low_bits() {
    assert_eq!(dim_kind_from_raw(DimensionKindRaw(0)), DimensionKind::Linear);
    assert_eq!(dim_kind_from_raw(DimensionKindRaw(33)), DimensionKind::Aligned);
    assert_eq!(dim_kind_from_raw(DimensionKindRaw(2)), DimensionKind::Angular);
    assert_eq!(dim_kind_from_raw(DimensionKindRaw(3 + 128)), DimensionKind::Diameter);
    assert_eq!(dim_kind_from_raw(DimensionKindRaw(4)), DimensionKind::Radius);
    assert_eq!(dim_kind_from_raw(DimensionKindRaw(6)), DimensionKind::Linear);
    assert_eq!(DimensionKindRaw(0x42).primary_kind(), 2);
}

#[test]
fn probe_reports_unknown_conventions() {
    let p = probe(&[]);
    assert_eq!(p.wall_style, WallStyle::Unknown);
    assert_eq!(p.layer_naming, LayerNamingConvention::Unknown);
}

#[test]
fn walls_keep_their_layer_unless_it_is_blank_or_zero() {
    assert_eq!(wall_layer("외벽", "WALLS"), "외벽");
    assert_eq!(wall_layer("A-WALL", "WALLS"), "A-WALL");
    assert_eq!(wall_layer("", "WALLS"), "WALLS");
    assert_eq!(wall_layer("0", "WALLS"), "WALLS");
    assert_eq!(wall_layer("00", "WALLS"), "00");
}

#[test]
fn room_labels_come_from_text_layers() {
    assert!(is_room_label_layer("TEXT"));
    assert!(is_room_label_layer("TEXTS"));
    assert!(is_room_label_layer("ROOMS"));
    assert!(!is_room_label_layer("text"));
    assert!(!is_room_label_layer("DIMENSIONS"));
}

#[test]
fn layer_membership_is_exact() {
    let layers = vec!["WALLS".to_string(), "벽".to_string()];
    assert!(in_names(&layers, "WALLS"));
    assert!(in_names(&layers, "벽"));
    assert!(!in_names(&layers, "walls"));
    assert!(!in_names(&[], "WALLS"));
}
