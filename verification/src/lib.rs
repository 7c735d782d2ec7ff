//! Decoding of diagram containers, extraction of the links their pages hold,
//! and selection of the diagram files whose exported artifacts are out of date.

pub mod codec;
pub mod decode;
pub mod drawio_desktop;
pub mod explorer;
pub mod exporter;
pub mod markup;
pub mod mxfile;
pub mod path;
pub mod pattern;
pub mod text;
