//! Material parameter reconciliation for matl material definitions.
//!
//! Given a material definition (ordered collections of typed parameter
//! groups) and the set of parameters a shader reads, this library computes
//! which parameters are missing or unused, adds defaults for missing ones,
//! removes unused ones, applies presets, and keeps each group in the
//! canonical ascending order of parameter identifiers.

pub mod param_id;
pub mod bones;
pub mod material;
pub mod params;
pub mod sort;
