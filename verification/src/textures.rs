//! Bookkeeping of loaded textures: each gets a fresh numeric handle.
use std::collections::HashMap;
use vstd::prelude::*;

verus! {

broadcast use vstd::std_specs::hash::group_hash_axioms;

/// Textures stored under numeric handles, together with the handle the next
/// stored texture gets.
pub struct TextureHandler<T> {
    textures: HashMap<u32, T>,
    id_counter: u32,
}

impl<T> TextureHandler<T> {
    /// The stored textures by handle.
    pub closed spec fn textures(self) -> Map<u32, T> {
        self.textures@
    }

    /// The handle the next stored texture gets.
    pub closed spec fn next_id(self) -> u32 {
        self.id_counter
    }

    /// Every stored handle is below the next one, so a new handle is fresh.
    #[verifier::type_invariant]
    spec fn inv(self) -> bool {
        forall|id: u32| #[trigger] self.textures@.contains_key(id) ==> id < self.id_counter
    }

    /// No textures; the first handle is `0`.
    pub fn new() -> (r: TextureHandler<T>)
        ensures
            r.textures() == Map::<u32, T>::empty(),
            r.next_id() == 0,
    {
        TextureHandler { textures: HashMap::new(), id_counter: 0 }
    }

    /// Stores `texture` under the next handle and returns that handle.
    pub fn insert(&mut self, texture: T) -> (id: u32)
        requires
            old(self).next_id() < u32::MAX,
        ensures
            id == old(self).next_id(),
            !old(self).textures().contains_key(id),
            final(self).textures() == old(self).textures().insert(id, texture),
            final(self).next_id() == old(self).next_id() + 1,
    {
        proof { use_type_invariant(&*self); }
        let id = self.id_counter;
        self.id_counter = self.id_counter + 1;
        let mut textures: HashMap<u32, T> = HashMap::new();
        std::mem::swap(&mut textures, &mut self.textures);
        textures.insert(id, texture);
        assert forall|k: u32| #[trigger] textures@.contains_key(k) implies k < self.id_counter by {
            if k != id {
                assert(old(self).textures@.contains_key(k));
            }
        }
        self.textures = textures;
        id
    }

    /// Whether a texture is stored under `id`.
    pub fn contains(&self, id: u32) -> (r: bool)
        ensures
            r == self.textures().contains_key(id),
    {
        self.textures.contains_key(&id)
    }

    /// The handle the next stored texture gets.
    pub fn next_handle(&self) -> (r: u32)
        ensures
            r == self.next_id(),
    {
        self.id_counter
    }

    /// The texture stored under `id`.
    pub fn get(&self, id: u32) -> (r: &T)
        requires
            self.textures().contains_key(id),
        ensures
            *r == self.textures()[id],
    {
        self.textures.get(&id).unwrap()
    }

    /// Drops the texture stored under `id`, if any.
    pub fn remove(&mut self, id: u32)
        ensures
            final(self).textures() == old(self).textures().remove(id),
            final(self).next_id() == old(self).next_id(),
    {
        proof { use_type_invariant(&*self); }
        let mut textures: HashMap<u32, T> = HashMap::new();
        std::mem::swap(&mut textures, &mut self.textures);
        textures.remove(&id);
        assert forall|k: u32| #[trigger] textures@.contains_key(k) implies k < self.id_counter by {
            assert(old(self).textures@.contains_key(k));
        }
        self.textures = textures;
    }
}

/// A stored texture is what `get` gives back for its handle until that handle
/// is removed, whatever else is stored or removed meanwhile: storing under a
/// fresh handle and removing another handle leave it in place.
pub proof fn lemma_stored_texture_persists<T>(m: Map<u32, T>, id: u32, other: u32, t: T)
    requires
        m.contains_key(id),
        other != id,
    ensures
        m.insert(other, t).contains_key(id) && m.insert(other, t)[id] == m[id],
        m.remove(other).contains_key(id) && m.remove(other)[id] == m[id],
{
}

} // verus!
