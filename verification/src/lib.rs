//! Shows applications another device: which properties, which build fields and which density an
//! application sees, and how the device is changed for it and brought back afterwards.

pub mod areas;
pub mod change;
pub mod config;
pub mod cow;
pub mod cow_laws;
pub mod cow_step_laws;
pub mod density;
pub mod error;
pub mod fingerprint;
pub mod hooks;
pub mod insert;
pub mod maps;
pub mod name_laws;
pub mod number;
pub mod patch;
pub mod profile;
pub mod properties;
pub mod property_laws;
pub mod property_map;
pub mod protocol;
pub mod run_laws;
pub mod session;
pub mod session_laws;
pub mod split;
pub mod step_laws;
pub mod string_map;
pub mod text;
pub mod text_laws;
pub mod tool;
pub mod upkeep;
