//! The text form of the archive's artifacts: what is written to
//! `DeployHistory.json` and `LatestDeploy.json`, and what is read back.

pub mod decode;
pub mod encode;
pub mod grammar;
pub mod layout;
pub mod listing;
pub mod pass;
pub mod roundtrip;
