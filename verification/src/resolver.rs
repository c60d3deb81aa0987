//! The fallback rule: what a load through the overriding provider yields,
//! given what the wrapped provider yielded.

use vstd::prelude::*;
use vstd::slice::slice_to_vec;
use bevy::asset::AssetIoError;
use crate::table::InlineAssets;

verus! {

/// The embedded side of the overriding provider: the table it serves from
/// when the wrapped provider fails.
pub struct InlineAssetIo {
    assets: InlineAssets,
}

impl View for InlineAssetIo {
    type V = Map<Seq<char>, Seq<u8>>;

    closed spec fn view(&self) -> Map<Seq<char>, Seq<u8>> {
        self.assets@
    }
}

impl InlineAssetIo {
    /// The provider side of `assets`.
    pub fn new(assets: InlineAssets) -> (r: Self)
        ensures
            r@ == assets@,
    {
        InlineAssetIo { assets }
    }

    /// The result of loading `path`, where `loaded` is what the wrapped
    /// provider's load of `path` gave. A success of the wrapped provider
    /// stands, whether or not `path` is embedded. A failure is replaced by
    /// the embedded bytes where `path` is embedded, and stands otherwise.
    pub fn load_path(&self, path: &str, loaded: Result<Vec<u8>, AssetIoError>) -> (r: Result<
        Vec<u8>,
        AssetIoError,
    >)
        ensures
            !self@.contains_key(path@) ==> r == loaded,
            loaded is Ok ==> r == loaded,
            self@.contains_key(path@) && loaded is Err ==> r is Ok && r->Ok_0@ == self@[path@],
    {
        match loaded {
            Ok(bytes) => Ok(bytes),
            Err(error) => match self.assets.lookup(path) {
                Some(bytes) => Ok(slice_to_vec(bytes)),
                None => Err(error),
            },
        }
    }
}

} // verus!
