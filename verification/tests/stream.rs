//! The pair reader, the streaming parser and the document, on small
//! hand-written streams.

use cad_open_layer::document::{parse_all, parse_stream, DxfDocument, HeaderVars};
use cad_open_layer::entity::Entity;
use cad_open_layer::error::CadError;
use cad_open_layer::parser::{ParseEvent, SectionKind, StreamingParser};
use cad_open_layer::reader::{Pair, PairReader};

fn lines_of(text: &str) -> Vec<String> {
    text.lines().map(String::from).collect()
}

#[test]
fn reader_trims_both_lines_and_counts_them() {
    let mut r = PairReader::new(lines_of("  10 \n 1.5  \n8\nWALLS"));
    let p = r.read_pair().unwrap().unwrap();
    assert_eq!((p.code, p.value.as_str(), p.line_no), (10, "1.5", 1));
    assert_eq!(r.line_no(), 2);
    let q = r.read_pair().unwrap().unwrap();
    assert_eq!((q.code, q.value.as_str(), q.line_no), (8, "WALLS", 3));
    assert!(r.read_pair().unwrap().is_none());
}

#[test]
fn reader_gives_back_a_pushed_back_pair() {
    let mut r = PairReader::new(lines_of("0\nEOF"));
    let p = r.read_pair().unwrap().unwrap();
    r.push_back(p);
    let again = r.read_pair().unwrap().unwrap();
    assert_eq!(again.value, "EOF");
    assert_eq!(r.line_no(), 2);
}

#[test]
fn reader_rejects_a_code_that_is_no_integer() {
    let mut r = PairReader::new(lines_of("abc\nx"));
    match r.read_pair() {
        Err(CadError::InvalidGroupCode { line, got }) => {
            assert_eq!(line, 1);
            assert_eq!(got, "abc");
        }
        other => panic!("expected InvalidGroupCode, got {other:?}"),
    }
}

#[test]
fn reader_rejects_a_code_without_value() {
    let mut r = PairReader::new(lines_of("0"));
    match r.read_pair() {
        Err(CadError::UnexpectedEof { expected, line }) => {
            assert_eq!(expected, "group value");
            assert_eq!(line, 1);
        }
        other => panic!("expected UnexpectedEof, got {other:?}"),
    }
}

#[test]
fn reader_reports_the_failure_of_the_stream() {
    let mut r = PairReader::with_read_error(lines_of("0"), "disk gone".to_string());
    match r.read_pair() {
        Err(CadError::Io(m)) => assert_eq!(m, "disk gone"),
        other => panic!("expected Io, got {other:?}"),
    }
}

#[test]
fn section_without_name_is_invalid() {
    match parse_all(lines_of("0\nSECTION\n8\nHEADER\n0\nEOF")) {
        Err(CadError::InvalidValue { code, value, line, expected }) => {
            assert_eq!(code, 8);
            assert_eq!(value, "HEADER");
            assert_eq!(line, 3);
            assert_eq!(expected, "section name (group code 2)");
        }
        other => panic!("expected InvalidValue, got {other:?}"),
    }
}

#[test]
fn section_cut_short_is_unexpected_eof() {
    match parse_all(lines_of("0\nSECTION")) {
        Err(CadError::UnexpectedEof { expected, line }) => {
            assert_eq!(expected, "section name (group 2)");
            assert_eq!(line, 2);
        }
        other => panic!("expected UnexpectedEof, got {other:?}"),
    }
}

const SMALL: &str = "0
SECTION
2
HEADER
9
$ACADVER
1
AC1015
9
$INSUNITS
70
4
0
ENDSEC
0
SECTION
2
TABLES
0
TABLE
2
LAYER
0
ENDTAB
0
ENDSEC
0
SECTION
2
BLOCKS
0
BLOCK
8
0
2
DOOR
10
0.0
20
0.0
30
0.0
0
LINE
8
DOORS
10
0.0
20
0.0
30
0.0
11
800.0
21
0.0
31
0.0
0
ENDBLK
8
0
0
ENDSEC
0
SECTION
2
ENTITIES
0
CIRCLE
8
COLUMNS
10
5.0
20
6.0
30
0.0
40
250.0
0
HATCH
8
FILL
2
SOLID
0
ENDSEC
0
EOF
";

#[test]
fn streaming_parser_reports_events_in_order() {
    let mut p = StreamingParser::new(lines_of(SMALL));
    let mut kinds: Vec<String> = vec![];
    while let Some(ev) = p.next_event().unwrap() {
        let k = match ev {
            ParseEvent::SectionStart(SectionKind::Header) => "start HEADER".to_string(),
            ParseEvent::SectionStart(SectionKind::Tables) => "start TABLES".to_string(),
            ParseEvent::SectionStart(SectionKind::Blocks) => "start BLOCKS".to_string(),
            ParseEvent::SectionStart(SectionKind::Entities) => "start ENTITIES".to_string(),
            ParseEvent::SectionStart(_) => "start other".to_string(),
            ParseEvent::SectionEnd => "end".to_string(),
            ParseEvent::HeaderVariable { name, value } => format!("{name}={value}"),
            ParseEvent::Entity(e) => format!("entity on {}", e.layer()),
            ParseEvent::BlockDefinitionStart { name, .. } => format!("block {name}"),
            ParseEvent::EntityInBlock(e) => format!("in block on {}", e.layer()),
            ParseEvent::BlockDefinitionEnd(b) => format!("end block {}", b.name),
            ParseEvent::Eof => "eof".to_string(),
        };
        kinds.push(k);
    }
    assert_eq!(
        kinds,
        vec![
            "start HEADER",
            "$ACADVER=AC1015",
            "$INSUNITS=4",
            "end",
            "start TABLES",
            "end",
            "start BLOCKS",
            "block DOOR",
            "in block on DOORS",
            "end block DOOR",
            "end",
            "start ENTITIES",
            "entity on COLUMNS",
            "entity on FILL",
            "end",
            "eof",
        ]
    );
    // After the end marker there is nothing more.
    assert!(p.next_event().unwrap().is_none());
    assert!(p.take_warnings().is_empty());
}

#[test]
fn document_collects_header_blocks_and_entities() {
    let doc = parse_stream(StreamingParser::new(lines_of(SMALL))).unwrap();
    assert_eq!(doc.header.len(), 2);
    assert_eq!(doc.header.get("$INSUNITS").map(String::as_str), Some("4"));
    assert!(doc.header.contains_key("$ACADVER"));
    assert!(!doc.header.contains_key("$EXTMIN"));
    assert_eq!(doc.blocks.len(), 1);
    assert_eq!(doc.blocks[0].entities.len(), 1);
    assert_eq!(doc.entities.len(), 2);
    match &doc.entities[0] {
        Entity::Circle { center, radius, .. } => {
            assert_eq!(center.x, "5.0");
            assert_eq!(radius, "250.0");
        }
        other => panic!("expected CIRCLE, got {other:?}"),
    }
    match &doc.entities[1] {
        Entity::Raw(r) => {
            assert_eq!(r.kind, "HATCH");
            assert_eq!(r.layer, "FILL");
            assert_eq!(r.groups, vec![(8, "FILL".to_string()), (2, "SOLID".to_string())]);
        }
        other => panic!("expected a raw HATCH, got {other:?}"),
    }
}

#[test]
fn stream_without_end_marker_still_ends() {
    let doc = parse_all(lines_of("0\nSECTION\n2\nENTITIES\n0\nLINE\n8\nA")).unwrap();
    assert_eq!(doc.entities.len(), 1);
    assert_eq!(doc.entities[0].layer(), "A");
}

#[test]
fn header_vars_keep_the_last_value() {
    let mut h = HeaderVars::new();
    assert_eq!(h.insert("$A".to_string(), "1".to_string()), None);
    assert_eq!(h.insert("$B".to_string(), "2".to_string()), None);
    assert_eq!(h.insert("$A".to_string(), "3".to_string()), Some("1".to_string()));
    assert_eq!(h.len(), 2);
    assert_eq!(h.get("$A").map(String::as_str), Some("3"));
}

#[test]
fn document_applies_only_document_events() {
    let mut d = DxfDocument::default();
    d.apply(ParseEvent::SectionEnd);
    d.apply(ParseEvent::HeaderVariable { name: "$X".into(), value: "7".into() });
    d.apply(ParseEvent::Eof);
    assert_eq!(d.header.len(), 1);
    assert!(d.entities.is_empty() && d.blocks.is_empty());
}

#[test]
fn pair_is_plain_data() {
    let p = Pair { code: 5, value: "1F".into(), line_no: 7 };
    assert_eq!(p.clone().value, "1F");
}

#[test]
fn an_empty_block_is_announced_then_closed() {
    let text = "0\nSECTION\n2\nBLOCKS\n0\nBLOCK\n2\nEMPTY\n10\n1\n20\n2\n30\n0\n0\nENDBLK\n0\nENDSEC\n0\nEOF\n";
    let mut p = StreamingParser::new(lines_of(text));
    assert!(matches!(p.next_event().unwrap(), Some(ParseEvent::SectionStart(SectionKind::Blocks))));
    match p.next_event().unwrap() {
        Some(ParseEvent::BlockDefinitionStart { name, base_point }) => {
            assert_eq!(name, "EMPTY");
            assert_eq!((base_point.x.as_str(), base_point.y.as_str()), ("1", "2"));
        }
        other => panic!("expected the block to be announced, got {other:?}"),
    }
    match p.next_event().unwrap() {
        Some(ParseEvent::BlockDefinitionEnd(b)) => {
            assert_eq!(b.name, "EMPTY");
            assert!(b.entities.is_empty());
        }
        other => panic!("expected the block to end, got {other:?}"),
    }
    assert!(matches!(p.next_event().unwrap(), Some(ParseEvent::SectionEnd)));
    assert!(matches!(p.next_event().unwrap(), Some(ParseEvent::Eof)));
    assert!(p.next_event().unwrap().is_none());
}

#[test]
fn the_end_is_reported_once() {
    for text in [SMALL, "0\nSECTION\n2\nENTITIES\n0\nLINE\n8\nA"] {
        let mut p = StreamingParser::new(lines_of(text));
        let mut ends = 0;
        for _ in 0..100 {
            match p.next_event().unwrap() {
                Some(ParseEvent::Eof) => ends += 1,
                Some(_) => assert_eq!(ends, 0),
                None => assert_eq!(ends, 1),
            }
        }
        assert_eq!(ends, 1);
    }
}

#[test]
fn a_block_gives_start_each_entity_then_end() {
    let text = "0\nSECTION\n2\nBLOCKS\n0\nBLOCK\n2\nPAIR\n10\n3\n20\n4\n30\n0\n0\nLINE\n8\nA\n0\nCIRCLE\n8\nB\n40\n5\n0\nENDBLK\n0\nENDSEC\n0\nEOF\n";
    let mut p = StreamingParser::new(lines_of(text));
    assert!(matches!(p.next_event().unwrap(), Some(ParseEvent::SectionStart(SectionKind::Blocks))));
    match p.next_event().unwrap() {
        Some(ParseEvent::BlockDefinitionStart { name, base_point }) => {
            assert_eq!(name, "PAIR");
            assert_eq!((base_point.x.as_str(), base_point.y.as_str()), ("3", "4"));
        }
        other => panic!("expected the block to be announced, got {other:?}"),
    }
    let mut layers: Vec<String> = vec![];
    for _ in 0..2 {
        match p.next_event().unwrap() {
            Some(ParseEvent::EntityInBlock(e)) => layers.push(e.layer().to_string()),
            other => panic!("expected an entity of the block, got {other:?}"),
        }
    }
    assert_eq!(layers, vec!["A", "B"]);
    match p.next_event().unwrap() {
        Some(ParseEvent::BlockDefinitionEnd(b)) => {
            assert_eq!(b.name, "PAIR");
            let in_block: Vec<String> = b.entities.iter().map(|e| e.layer().to_string()).collect();
            assert_eq!(in_block, vec!["A", "B"]);
        }
        other => panic!("expected the block to end, got {other:?}"),
    }
    assert!(matches!(p.next_event().unwrap(), Some(ParseEvent::SectionEnd)));
}
