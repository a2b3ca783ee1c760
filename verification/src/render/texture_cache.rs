//! Tracks the GL texture currently associated with each client surface.

use std::collections::HashMap;

use vstd::prelude::*;

use crate::render::Size;

verus! {

/// A GL texture imported from a client buffer.
#[derive(Debug, Clone, Copy)]
pub struct ImportedTexture {
    /// Raw GL texture id (`GLuint`), valid in the GL context of the user
    /// interface.
    pub gl_id: u32,
    pub size: Size,
    /// Bumped every time the underlying buffer contents change, so the UI layer
    /// can decide whether it must rebuild its image.
    pub generation: u64,
}

/// Maps surface id -> the texture last imported for it.
///
/// This is just bookkeeping; it holds no GL state itself.
#[derive(Debug)]
pub struct TextureCache {
    entries: HashMap<u64, ImportedTexture>,
}

impl View for TextureCache {
    type V = Map<u64, ImportedTexture>;

    closed spec fn view(&self) -> Map<u64, ImportedTexture> {
        self.entries@
    }
}

/// The generation of the next texture of a surface.
pub open spec fn next_generation(cache: Map<u64, ImportedTexture>, surface_id: u64) -> int {
    if cache.contains_key(surface_id) {
        cache[surface_id].generation + 1
    } else {
        0
    }
}

impl Default for TextureCache {
    fn default() -> (r: Self)
        ensures
            r@ == Map::<u64, ImportedTexture>::empty(),
    {
        TextureCache { entries: HashMap::new() }
    }
}

impl TextureCache {
    /// An empty cache.
    pub fn new() -> (r: Self)
        ensures
            r@ == Map::<u64, ImportedTexture>::empty(),
    {
        TextureCache { entries: HashMap::new() }
    }

    /// The texture last imported for a surface.
    pub fn get(&self, surface_id: u64) -> (r: Option<ImportedTexture>)
        ensures
            r == if self@.contains_key(surface_id) {
                Some(self@[surface_id])
            } else {
                None
            },
    {
        broadcast use vstd::std_specs::hash::group_hash_axioms;

        match self.entries.get(&surface_id) {
            Some(t) => Some(*t),
            None => None,
        }
    }

    /// Record a freshly imported texture, returning the new generation counter.
    pub fn insert(&mut self, surface_id: u64, gl_id: u32, size: Size) -> (r: u64)
        requires
            next_generation(old(self)@, surface_id) <= u64::MAX,
        ensures
            r == next_generation(old(self)@, surface_id),
            final(self)@ == old(self)@.insert(
                surface_id,
                ImportedTexture { gl_id, size, generation: r },
            ),
    {
        broadcast use vstd::std_specs::hash::group_hash_axioms;

        let generation: u64 = match self.entries.get(&surface_id) {
            Some(t) => t.generation + 1,
            None => 0,
        };
        self.entries.insert(surface_id, ImportedTexture { gl_id, size, generation });
        generation
    }

    /// Forget a surface (e.g. on unmap). Returns the GL id the caller should
    /// delete, if any.
    pub fn remove(&mut self, surface_id: u64) -> (r: Option<u32>)
        ensures
            final(self)@ == old(self)@.remove(surface_id),
            r == if old(self)@.contains_key(surface_id) {
                Some(old(self)@[surface_id].gl_id)
            } else {
                None
            },
    {
        broadcast use vstd::std_specs::hash::group_hash_axioms;

        match self.entries.remove(&surface_id) {
            Some(t) => Some(t.gl_id),
            None => None,
        }
    }
}

/// The generation of a surface grows with every texture, and starts anew after
/// the surface was forgotten.
pub proof fn law_generation_grows(
    cache: Map<u64, ImportedTexture>,
    surface_id: u64,
    texture: ImportedTexture,
)
    ensures
        next_generation(cache.insert(surface_id, texture), surface_id) == texture.generation + 1,
        next_generation(cache.remove(surface_id), surface_id) == 0,
{
}

/// The first texture of a surface has the generation 0, each further one the next,
/// and the textures of other surfaces count for nothing.
pub proof fn law_generations_are_counted_per_surface(
    cache: Map<u64, ImportedTexture>,
    surface_id: u64,
    other: u64,
    texture: ImportedTexture,
)
    ensures
        !cache.contains_key(surface_id) ==> next_generation(cache, surface_id) == 0,
        cache.contains_key(surface_id) ==> next_generation(cache, surface_id)
            == cache[surface_id].generation + 1,
        other != surface_id ==> next_generation(cache.insert(other, texture), surface_id)
            == next_generation(cache, surface_id),
{
}

} // verus!
