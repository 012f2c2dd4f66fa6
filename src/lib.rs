//! Portable bundles of data-transformation pipelines: a typed attribute and
//! model language, a registry of operator codecs, a recursive bundle
//! read/write protocol, and a columnar frame that loaded operators run on.

pub mod util;
pub mod dsl;
pub mod json;
pub mod frame;
pub mod tform;
pub mod ser;
pub mod graph;
pub mod shape;
pub mod double;
