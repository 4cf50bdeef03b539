//! The version comparison engine.
pub mod checker;
pub mod dotted;
pub mod elixir;
pub mod hex_laws;
pub mod interval_laws;
pub mod maven;
pub mod normalize;
pub mod nuget;
pub mod parts;
pub mod pin;
pub mod python;
pub mod python_laws;
pub mod range_laws;
pub mod version;

pub use checker::{check_version, to_version_req, Evaluation};
pub use normalize::{
    is_prerelease, normalize_constraint, normalize_version, to_semver_constraint,
    try_to_semver_constraint, UnstableFilter,
};
