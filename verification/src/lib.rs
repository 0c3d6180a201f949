//! The verified core of the POM base plugin: the request router of its
//! workspace endpoint, the query dispatcher of its host boundary, the
//! workspace listing, the Base64 encoder of its embedded UI assets and the
//! numerals that its replies carry.
pub mod assets;
pub mod base64;
pub mod ffi;
pub mod http;
pub mod json;
pub mod numerals;
pub mod query;
pub mod text;
pub mod workspace;
