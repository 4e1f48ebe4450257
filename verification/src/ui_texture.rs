//! Showing a decoded texture on a UI node.
//!
//! A node waiting for a texture says which one and whether it holds a
//! placeholder to drop once the image lands. The uploads are remembered by
//! texture id together with the level of detail they were built from, so a
//! texture shown in five places is one upload, and one that re-decodes finer
//! is uploaded again. The map holds each upload by a weak id, so whether that
//! id still resolves is the image store's to answer.

use crate::ids::TextureKey;
use std::collections::HashMap;
use vstd::prelude::*;

verus! {

broadcast use vstd::std_specs::hash::group_hash_axioms;

/// A UI node waiting for a texture to decode.
#[derive(Debug, Clone, Copy, PartialEq, Eq, Structural)]
pub struct PendingUiTexture {
    /// The texture the node is waiting for.
    key: TextureKey,
    /// Whether the node's children are a placeholder to drop once the image
    /// is in.
    over_placeholder: bool,
}

impl PendingUiTexture {
    /// The texture waited for.
    pub closed spec fn spec_key(&self) -> TextureKey {
        self.key
    }

    /// Whether the node holds a placeholder.
    pub closed spec fn spec_over_placeholder(&self) -> bool {
        self.over_placeholder
    }

    /// Wait for `key` on a node that shows nothing meanwhile.
    pub fn new(key: TextureKey) -> (p: PendingUiTexture)
        ensures
            p.spec_key() == key,
            !p.spec_over_placeholder(),
    {
        PendingUiTexture { key, over_placeholder: false }
    }

    /// Wait for `key` on a box holding a placeholder, whose children are
    /// dropped when the image lands.
    pub fn over_placeholder(key: TextureKey) -> (p: PendingUiTexture)
        ensures
            p.spec_key() == key,
            p.spec_over_placeholder(),
    {
        PendingUiTexture { key, over_placeholder: true }
    }

    /// The texture this node is waiting for.
    pub fn key(&self) -> (k: TextureKey)
        ensures
            k == self.spec_key(),
    {
        self.key
    }

    /// Whether the node's children are a placeholder to drop.
    pub fn holds_placeholder(&self) -> (b: bool)
        ensures
            b == self.spec_over_placeholder(),
    {
        self.over_placeholder
    }
}

/// One upload as the map remembers it: the level of detail its pixels came
/// from, and the image's weak id (of type `I`).
#[derive(Debug, Clone, Copy)]
pub struct UploadedImage<I> {
    /// The level of detail the pixels came from.
    pub level: u8,
    /// The uploaded image's id.
    pub id: I,
}

/// The images the UI tier has uploaded, by texture id, with image ids of
/// type `I`.
#[derive(Debug)]
pub struct UiTextureImages<I> {
    /// The uploads, by texture id.
    uploaded: HashMap<TextureKey, UploadedImage<I>>,
}

impl<I: Copy> UiTextureImages<I> {
    /// The uploads, by texture id.
    pub closed spec fn uploads(&self) -> Map<TextureKey, UploadedImage<I>> {
        self.uploaded@
    }

    /// Nothing uploaded.
    pub fn new() -> (m: UiTextureImages<I>)
        ensures
            m.uploads() == Map::<TextureKey, UploadedImage<I>>::empty(),
    {
        UiTextureImages { uploaded: HashMap::new() }
    }

    /// The recorded upload of `key` that can serve a decode at `level`: one
    /// made from the same level of detail. A finer (or coarser) decode is a
    /// different image and gets `None`, as does a texture never uploaded.
    /// Whether the id still resolves is the image store's to say.
    pub fn reusable(&self, key: TextureKey, level: u8) -> (id: Option<I>)
        ensures
            id == (if self.uploads().contains_key(key) && self.uploads()[key].level == level {
                Some(self.uploads()[key].id)
            } else {
                None
            }),
    {
        match self.uploaded.get(&key) {
            Some(up) => if up.level == level {
                Some(up.id)
            } else {
                None
            },
            None => None,
        }
    }

    /// Remember a fresh upload of `key` made from `level`, replacing any
    /// earlier one.
    pub fn record(&mut self, key: TextureKey, level: u8, id: I)
        ensures
            final(self).uploads() == old(self).uploads().insert(key, UploadedImage { level, id }),
    {
        let _replaced = self.uploaded.insert(key, UploadedImage { level, id });
    }

    /// How many textures have an upload recorded.
    pub fn len(&self) -> (n: usize)
        ensures
            n == self.uploads().len(),
    {
        self.uploaded.len()
    }

    /// Whether nothing has been uploaded yet.
    pub fn is_empty(&self) -> (b: bool)
        ensures
            b == (self.uploads().len() == 0),
    {
        self.uploaded.len() == 0
    }
}

/// One upload serves every later request at the same level, and a request at
/// another level is never served the recorded one: right after recording an
/// upload of `key` at `level`, `key` at `level` is served that upload, and
/// `key` at any other level is not served.
pub proof fn law_an_upload_serves_only_its_own_level<I>(
    uploads: Map<TextureKey, UploadedImage<I>>,
    key: TextureKey,
    level: u8,
    id: I,
    other: u8,
)
    requires
        uploads.dom().finite(),
        other != level,
    ensures
        uploads.insert(key, UploadedImage { level, id }).contains_key(key),
        uploads.insert(key, UploadedImage { level, id })[key].level == level,
        uploads.insert(key, UploadedImage { level, id })[key].id == id,
        uploads.insert(key, UploadedImage { level, id })[key].level != other,
        uploads.insert(key, UploadedImage { level, id }).len() == if uploads.contains_key(key) {
            uploads.len()
        } else {
            uploads.len() + 1
        },
{
}

impl<I: Copy> Default for UiTextureImages<I> {
    /// Nothing uploaded.
    fn default() -> (m: UiTextureImages<I>)
        ensures
            m.uploads() == Map::<TextureKey, UploadedImage<I>>::empty(),
    {
        UiTextureImages::new()
    }
}

} // verus!
