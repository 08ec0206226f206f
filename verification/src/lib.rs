//! CAD Open Layer: a vendor-neutral layer for the ASCII DXF drawing format.
//!
//! This crate holds the verified core: group-code pair reading, lenient
//! numeric recognition, entity assembly, the streaming section parser, the
//! DXF emitter, the standard door and window blocks, and the plain-valued
//! parts of semantic extraction: layer and block classification, greedy
//! pairing of wall and window lines, and the faces of the wall graph.

pub mod block_events;
pub mod blocks;
pub mod builders;
pub mod classify;
pub mod document;
pub mod document_roundtrip;
pub mod entity;
pub mod error;
pub mod faces;
pub mod geometry;
pub mod mcp;
pub mod numeric;
pub mod pairing;
pub mod parser;
pub mod reader;
pub mod roundtrip;
pub mod semantic;
pub mod text;
pub mod units;
pub mod writer;
