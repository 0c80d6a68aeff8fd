//! Hydra's profile logic: canonical auth JSON, fingerprints and the profile store.
pub mod json;
pub mod order;
pub mod canonical;
pub mod canonicalize;
pub mod render;
pub mod text;
pub mod auth;
pub mod search;
pub mod store;
pub mod usage;
pub mod paths;
pub mod laws;
