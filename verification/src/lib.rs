//! Embedded assets with a fallback rule: a table of byte blobs keyed by
//! virtual path, and the decision that serves a blob when the wrapped asset
//! provider could not load the path.

pub mod laws;
pub mod plugin;
pub mod resolver;
pub mod server;
pub mod table;
pub mod text;

pub use plugin::InlineAssetsPlugin;
pub use resolver::InlineAssetIo;
pub use table::InlineAssets;
