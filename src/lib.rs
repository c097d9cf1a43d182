//! Container literals: build a hash map, hash set, ordered map or ordered set
//! from a list of entries in one call, with an optional bag of named options
//! for the hashed containers.
use vstd::prelude::*;

pub mod builders;
pub mod entries;
pub mod options;
pub mod string_sets;

pub use builders::{
    btreemap, btreeset, build_hash_map, build_hash_set, effective_capacity, hashmap, hashmap_with,
    hashset, hashset_with,
};
pub use entries::{entry_count, read_entry_list, ListItem};
pub use options::{
    resolve_options, BuildOptions, HasherKind, OptionError, OptionName, OptionToken,
};
pub use string_sets::{convert, make_map};

verus! {

} // verus!
