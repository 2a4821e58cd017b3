//! Small helpers around std: hashing a value and probing for the
//! configuration file.

use std::collections::hash_map::DefaultHasher;
use std::hash::Hasher;
use vstd::prelude::*;

verus! {

/// Feeds a value into the hasher.  Relies on `std::hash::Hash::hash` of
/// the value's type; what it writes is that impl's business, so nothing
/// is promised of the state afterwards.
#[verifier::external_body]
fn write_hash<T: std::hash::Hash>(value: &T, state: &mut DefaultHasher) {
    value.hash(state)
}

/// The 64-bit hash of a value under std's default hasher.  Used only to
/// compare two configuration sections for change; nothing is promised
/// of the value.
pub fn hash_of<T: std::hash::Hash>(t: T) -> u64 {
    let mut state = DefaultHasher::new();
    write_hash(&t, &mut state);
    state.finish()
}

/// Whether no configuration file exists yet at `path`.  Relies on
/// `std::path::Path::exists`; the answer depends on the disk, so
/// nothing is promised of it.
#[verifier::external_body]
pub fn is_first_run(path: &str) -> bool {
    !std::path::Path::new(path).exists()
}

} // verus!
