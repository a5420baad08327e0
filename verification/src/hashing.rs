//! Hashing of package records, kept in step with their equality.

use crate::package::PackageInfo;
use core::hash::{Hash, Hasher};
use vstd::prelude::*;

verus! {

/// `String`'s `Hash::hash` feeds the text to the hasher. Nothing is claimed
/// of the hasher's state afterwards.
pub assume_specification<H: Hasher>[ <String as Hash>::hash ](s: &String, state: &mut H);

impl Hash for PackageInfo {
    /// Feeds the four fields that decide equality, and not the environment
    /// name, so that equal records hash alike.
    fn hash<H: Hasher>(&self, state: &mut H) {
        self.name.hash(state);
        self.version.hash(state);
        self.build.hash(state);
        self.channel.hash(state);
    }
}

} // verus!
