//! Deployment records of a remote versioning service and the archive that
//! keeps a de-duplicated, append-only history of them for every deployment
//! space, binary type and channel.

pub mod archive;
pub mod codec;
pub mod domain;
pub mod error;
pub mod http;
pub mod text;
pub mod version;
