//! Mappings of framebuffers that are kept for as long as the program runs.

use std::collections::HashMap;
use vstd::arithmetic::div_mod::lemma_fundamental_div_mod_converse;
use vstd::prelude::*;

verus! {

/// How looking a handle up turns `before` into `after`: a mapping that is there is returned, and
/// any other is kept where it could be made.
pub open spec fn is_lookup<V, E>(
    before: Map<u32, V>,
    handle: u32,
    r: Result<V, E>,
    after: Map<u32, V>,
) -> bool {
    if before.contains_key(handle) {
        r == Ok::<V, E>(before[handle]) && after == before
    } else {
        match r {
            Ok(map) => after == before.insert(handle, map),
            Err(_) => after == before,
        }
    }
}

/// A lookup forgets no mapping and changes none.
pub proof fn lemma_mappings_stay<V, E>(
    before: Map<u32, V>,
    handle: u32,
    r: Result<V, E>,
    after: Map<u32, V>,
)
    requires
        is_lookup(before, handle, r, after),
    ensures
        before.submap_of(after),
{
}

/// A handle is mapped once: every later lookup of it, after whatever lookups in between, gives the
/// same mapping and leaves all of them as they are.
pub proof fn lemma_handle_is_mapped_once<V, E>(
    before: Map<u32, V>,
    handle: u32,
    first: V,
    after: Map<u32, V>,
    later: Map<u32, V>,
    again: Result<V, E>,
    last: Map<u32, V>,
)
    requires
        is_lookup(before, handle, Ok::<V, E>(first), after),
        after.submap_of(later),
        is_lookup(later, handle, again, last),
    ensures
        again == Ok::<V, E>(first),
        last == later,
{
    assert(after.contains_key(handle));
    assert(later.contains_key(handle) && later[handle] == after[handle]);
}

/// The mapping of each framebuffer handle that has been mapped.
pub struct PersistentMaps<V> {
    maps: HashMap<u32, V>,
}

impl<V> View for PersistentMaps<V> {
    type V = Map<u32, V>;

    closed spec fn view(&self) -> Map<u32, V> {
        self.maps@
    }
}

impl<V: Copy> PersistentMaps<V> {
    /// No mappings.
    pub fn new() -> (r: PersistentMaps<V>)
        ensures
            r@ == Map::<u32, V>::empty(),
    {
        PersistentMaps { maps: HashMap::new() }
    }

    /// The mapping of a handle, made by `new_map` the first time that it is asked for. A handle
    /// that could not be mapped is tried again the next time.
    pub fn get_persistent_map<E, F: FnOnce() -> Result<V, E>>(
        &mut self,
        handle: u32,
        new_map: F,
    ) -> (r: Result<V, E>)
        requires
            !old(self)@.contains_key(handle) ==> new_map.requires(()),
        ensures
            is_lookup(old(self)@, handle, r, final(self)@),
            !old(self)@.contains_key(handle) ==> new_map.ensures((), r),
    {
        broadcast use vstd::std_specs::hash::group_hash_axioms;

        if let Some(map) = self.maps.get(&handle) {
            return Ok(*map);
        }
        match new_map() {
            Ok(map) => {
                self.maps.insert(handle, map);
                Ok(map)
            },
            Err(e) => Err(e),
        }
    }
}

/// The bytes to map for `len` items of `item` bytes each.
pub fn mapping_bytes(len: usize, item: usize) -> (r: usize)
    requires
        len * item <= usize::MAX,
    ensures
        r == len * item,
{
    len * item
}

/// A handle that has a mapping keeps it, whatever a new one would have been, and one that has none
/// gets the one that could be made, or none. No other handle is touched.
pub proof fn lemma_lookup_maps_once<V: Copy, E, F: FnOnce() -> Result<V, E>>(
    maps: &mut PersistentMaps<V>,
    handle: u32,
    new_map: F,
    r: Result<V, E>,
    other: u32,
)
    requires
        call_ensures(PersistentMaps::<V>::get_persistent_map::<E, F>, (maps, handle, new_map), r),
    ensures
        old(maps)@.contains_key(handle) ==> r == Ok::<V, E>(old(maps)@[handle]),
        !old(maps)@.contains_key(handle) ==> call_ensures(new_map, (), r),
        r is Ok ==> final(maps)@.contains_key(handle) && final(maps)@[handle] == r->Ok_0,
        r is Err ==> !final(maps)@.contains_key(handle),
        other != handle ==> final(maps)@.contains_key(other) == old(maps)@.contains_key(other),
        other != handle && old(maps)@.contains_key(other) ==> final(maps)@[other]
            == old(maps)@[other],
{
}

/// Two lookups of a handle, the first of which succeeded, give the same mapping.
pub proof fn lemma_lookups_agree<
    V: Copy,
    E,
    F: FnOnce() -> Result<V, E>,
    G: FnOnce() -> Result<V, E>,
>(
    a: &mut PersistentMaps<V>,
    handle: u32,
    first_map: F,
    first: V,
    b: &mut PersistentMaps<V>,
    second_map: G,
    second: Result<V, E>,
)
    requires
        call_ensures(
            PersistentMaps::<V>::get_persistent_map::<E, F>,
            (a, handle, first_map),
            Ok(first),
        ),
        *old(b) == *final(a),
        call_ensures(
            PersistentMaps::<V>::get_persistent_map::<E, G>,
            (b, handle, second_map),
            second,
        ),
    ensures
        second == Ok::<V, E>(first),
        final(b)@ == old(b)@,
{
}

/// There are no mappings to begin with.
pub proof fn lemma_nothing_is_mapped_at_first<V: Copy>(maps: PersistentMaps<V>, handle: u32)
    requires
        call_ensures(PersistentMaps::<V>::new, (), maps),
    ensures
        !maps@.contains_key(handle),
{
}

/// The bytes of a mapping hold its items and nothing more.
pub proof fn lemma_mapping_holds_items(len: usize, item: usize, r: usize)
    requires
        call_ensures(mapping_bytes, (len, item), r),
        item > 0,
    ensures
        r as int / item as int == len,
        r as int % item as int == 0,
{
    lemma_fundamental_div_mod_converse(r as int, item as int, len as int, 0);
}

} // verus!
