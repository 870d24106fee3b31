//! Request handling for a minimal HTTP origin server that serves files from
//! a root folder and runs the executables under its `scripts/` directory for
//! POST requests.
//!
//! Policies: a directory is answered with an HTML listing of its entries; a
//! script that is not there is answered with 404 and one that cannot be
//! started with 500; request paths are used raw, without percent-decoding,
//! and any path whose `..` segments would climb above the root is refused
//! with 404.

pub mod mime;
pub mod path;
pub mod response;
pub mod router;
pub mod script;
pub mod static_files;
