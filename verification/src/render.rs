//! Client buffers on their way to the screen.

pub mod blit;
pub mod crop;
pub mod pixels;
pub mod shm;
pub mod texture_cache;

use vstd::prelude::*;

verus! {

/// Pixel dimensions of an imported buffer.
#[derive(Debug, Clone, Copy, PartialEq, Eq, Structural)]
pub struct Size {
    pub width: u32,
    pub height: u32,
}

/// Imports client buffers into GL textures usable by the user interface.
///
/// Implementations must only be called while the GL context is current (i.e.
/// from within the rendering-notifier callback).
pub trait BufferImporter {
    /// The opaque texture handle produced by this importer.
    type Texture;

    /// Import (or update) the texture for the given surface from its currently
    /// committed buffer. Returns `None` if there is nothing to display yet.
    fn import(&mut self, surface_id: u64) -> Option<Self::Texture>;

    /// Release any GL resources held for a surface that has been unmapped.
    fn release(&mut self, surface_id: u64);
}

} // verus!
