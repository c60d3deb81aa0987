//! The engine's asset server, as far as the table speaks to it.

use vstd::prelude::*;
use bevy::asset::{AssetIoError, AssetServer, HandleUntyped};
use std::path::Path;

verus! {

/// The engine's asset server. Nothing inside it is visible to the proofs.
#[verifier::external_type_specification]
#[verifier::external_body]
pub struct ExAssetServer(AssetServer);

/// A reference to a requested asset, independent of the asset's type.
/// Nothing inside it is visible to the proofs.
#[verifier::external_type_specification]
#[verifier::external_body]
pub struct ExHandleUntyped(HandleUntyped);

/// The error of a failed load, as the wrapped provider made it.
/// Nothing inside it is visible to the proofs.
#[verifier::external_type_specification]
#[verifier::external_body]
pub struct ExAssetIoError(AssetIoError);

/// Calls `AssetServer::load_untyped` with `path` as a path without a label:
/// the server queues the load and hands back a strong handle. Nothing is
/// claimed of the handle.
#[verifier::external_body]
pub(crate) fn request_untyped(server: &AssetServer, path: &str) -> (handle: HandleUntyped) {
    server.load_untyped(Path::new(path))
}

} // verus!
