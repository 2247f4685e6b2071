//! A small resource-loading library.
//!
//! A caller-supplied resource name is resolved against an immutable base
//! location (a local directory or a base URL) to a full location; the host
//! program performs the read there and hands the raw outcome back to the
//! library, which turns it into text or bytes and can decode fetched text
//! as a 3D model description (geometry plus referenced material libraries).

pub mod base;
pub mod error;
pub mod fetch;
pub mod load;
pub mod model;
pub mod mtl;
pub mod obj;
pub mod text;
