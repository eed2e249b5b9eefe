//! Trusted declarations for the `ahash` hash maps that the alphabet and the
//! substitution cipher keep their character lookups in.  `AHashMap` is a thin
//! wrapper around `std::collections::HashMap` with a faster hasher; each
//! wrapper below states, over the named contents of the map, what the
//! corresponding method does.

use vstd::prelude::*;

verus! {

#[verifier::external_type_specification]
#[verifier::external_body]
#[verifier::reject_recursive_types(K)]
#[verifier::reject_recursive_types(V)]
#[verifier::reject_recursive_types(S)]
pub struct ExAHashMap<K, V, S>(ahash::AHashMap<K, V, S>);

#[verifier::external_type_specification]
#[verifier::external_body]
pub struct ExARandomState(ahash::RandomState);

/// A character-to-position lookup table.
pub type CharIndexMap = ahash::AHashMap<char, usize>;

/// A character-to-character lookup table.
pub type CharCharMap = ahash::AHashMap<char, char>;

/// A character-to-partially-known-character lookup table.
pub type CharPartMap = ahash::AHashMap<char, Option<char>>;

/// What a character-to-position map holds.
pub uninterp spec fn char_index_map(m: CharIndexMap) -> Map<char, usize>;

/// The empty character-to-position map.
pub open spec fn empty_char_index_map() -> Map<char, usize> {
    Map::empty()
}

/// Relies on `ahash::AHashMap::new`: a fresh map holds nothing.
#[verifier::external_body]
pub(crate) fn char_index_map_new() -> (r: CharIndexMap)
    ensures
        char_index_map(r) == empty_char_index_map(),
{
    ahash::AHashMap::new()
}

/// Relies on `ahash::AHashMap::insert`: the key now maps to the value and
/// every other key is untouched.
#[verifier::external_body]
pub(crate) fn char_index_map_insert(m: &mut CharIndexMap, k: char, v: usize)
    ensures
        char_index_map(*final(m)) == char_index_map(*old(m)).insert(k, v),
{
    m.insert(k, v);
}

/// Relies on `ahash::AHashMap::get`: returns the stored value for the key,
/// or nothing when the key is absent.
#[verifier::external_body]
pub(crate) fn char_index_map_get(m: &CharIndexMap, k: char) -> (r: Option<usize>)
    ensures
        r == if char_index_map(*m).dom().contains(k) {
            Some(char_index_map(*m)[k])
        } else {
            None::<usize>
        },
{
    m.get(&k).copied()
}

/// What a character-to-character map holds.
pub uninterp spec fn char_char_map(m: CharCharMap) -> Map<char, char>;

/// The empty character-to-character map.
pub open spec fn empty_char_char_map() -> Map<char, char> {
    Map::empty()
}

/// Relies on `ahash::AHashMap::new`: a fresh map holds nothing.
#[verifier::external_body]
pub(crate) fn char_char_map_new() -> (r: CharCharMap)
    ensures
        char_char_map(r) == empty_char_char_map(),
{
    ahash::AHashMap::new()
}

/// Relies on `ahash::AHashMap::insert`: the key now maps to the value and
/// every other key is untouched.
#[verifier::external_body]
pub(crate) fn char_char_map_insert(m: &mut CharCharMap, k: char, v: char)
    ensures
        char_char_map(*final(m)) == char_char_map(*old(m)).insert(k, v),
{
    m.insert(k, v);
}

/// Relies on `ahash::AHashMap::get`: returns the stored value for the key,
/// or nothing when the key is absent.
#[verifier::external_body]
pub(crate) fn char_char_map_get(m: &CharCharMap, k: char) -> (r: Option<char>)
    ensures
        r == if char_char_map(*m).dom().contains(k) {
            Some(char_char_map(*m)[k])
        } else {
            None::<char>
        },
{
    m.get(&k).copied()
}

/// Relies on `ahash::AHashMap::iter`: yields each stored pair exactly once,
/// in arbitrary order.
#[verifier::external_body]
pub(crate) fn char_char_map_pairs(m: &CharCharMap) -> (r: Vec<(char, char)>)
    ensures
        forall|i: int|
            0 <= i < r@.len() ==> char_char_map(*m).dom().contains(#[trigger] r@[i].0)
                && char_char_map(*m)[r@[i].0] == r@[i].1,
        forall|i: int, j: int| 0 <= i < j < r@.len() ==> r@[i].0 != r@[j].0,
        forall|k: char| char_char_map(*m).dom().contains(k) ==> exists|i: int|
            0 <= i < r@.len() && (#[trigger] r@[i]).0 == k,
{
    m.iter().map(|(k, v)| (*k, *v)).collect()
}

/// What a character-to-partial-character map holds.
pub uninterp spec fn char_part_map(m: CharPartMap) -> Map<char, Option<char>>;

/// Relies on `ahash::AHashMap::get`: returns the stored value for the key,
/// or nothing when the key is absent.
#[verifier::external_body]
pub(crate) fn char_part_map_get(m: &CharPartMap, k: char) -> (r: Option<Option<char>>)
    ensures
        r == if char_part_map(*m).dom().contains(k) {
            Some(char_part_map(*m)[k])
        } else {
            None::<Option<char>>
        },
{
    m.get(&k).copied()
}

} // verus!
