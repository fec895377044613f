//! Verified parsing and decision logic of two Aidoku manga sources
//! (rouman5.com and nnhm7.com): URL construction, deep-link routing, page
//! list extraction from chapter scripts, HTML-entity and JSON-string
//! decoding, listing/detail record assembly, and the image-unscrambling
//! plan (Base64 + MD5 slice count, row permutation).
use vstd::prelude::*;

pub mod model;
pub mod nnhanman;
pub mod num;
pub mod roumanwu;
pub mod text;

pub use nnhanman::Nnhm7;
pub use roumanwu::Roumanwu;
