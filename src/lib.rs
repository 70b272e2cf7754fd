//! Caches the environment produced by a directory-scoped shell-environment
//! loader and replays it on shell entry while the watched files are unchanged.
pub mod bash;
pub mod bytes;
pub mod cache;
pub mod env;
pub mod hook;
pub mod orchestrator;
pub mod script;
pub mod sums;
