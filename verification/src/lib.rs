//! Verified core of the desktop shell: version ordering, server readiness
//! detection, payload patch planning and update decisions.

pub mod json;
pub mod payload;
pub mod precedence;
pub mod semver;
pub mod server;
pub mod text;
pub mod update;
