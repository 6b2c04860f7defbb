//! Core of a package registry's append-only log format: the package-record
//! data model, its length-delimited binary codec, the signed envelope that
//! carries a record, and the bit path of a content-addressed map.

pub mod hash;
pub mod package;
pub mod path;
pub mod protobuf;
pub mod signing;
pub mod text;
pub mod version;
pub mod wire;
