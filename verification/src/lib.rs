//! Incremental framing, classification and counting of H.264 Annex-B NAL
//! units.
//!
//! A raw Annex-B elementary stream is a sequence of NAL (Network Abstraction
//! Layer) units separated by start-code prefixes (`00 00 01`, optionally with
//! extra leading zero bytes).  This crate reconstructs the discrete units from
//! byte chunks of arbitrary size, classifies each unit by the type code in its
//! one-byte header, and keeps a running tally per type.

pub mod counter;
pub mod framer;
pub mod nal;

pub use counter::NalUnitCount;
pub use framer::parse;
pub use framer::NalUnitParser;
pub use nal::IdrPolicy;
pub use nal::NalUnit;
pub use nal::NalUnitType;
pub use nal::ValidationError;
