//! Comparing the package sets of two named environments.
//!
//! A listing line is parsed into a [`package::PackageInfo`]; the records of
//! one environment form a [`listing::PackageSet`]; [`diff::diff`] reports
//! the packages that one environment has and the other lacks.

pub mod diff;
pub mod hashing;
pub mod imports;
pub mod listing;
pub mod package;
pub mod render;
pub mod sorting;
pub mod text;

pub use crate::listing::get_package_info_by_env_name;
pub use crate::package::PackageInfo;
use vstd::prelude::*;

verus! {

/// The version of this library.
pub const TOOLS_CORE_VERSION: &'static str = "0.1.0";

/// The version of this library, as text.
pub fn get_tools_core_version() -> (r: String)
    ensures
        r@ == TOOLS_CORE_VERSION@,
{
    TOOLS_CORE_VERSION.to_owned()
}

} // verus!
