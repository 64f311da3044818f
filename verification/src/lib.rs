//! `clowncar` is an asset storage system with an additional `TypeId` key.

pub mod asset_slot;
pub mod asset_store;
pub mod ident;
pub mod key;
pub mod util;

pub use asset_slot::{Asset, AssetType};
pub use asset_store::AssetTable;
pub use ident::Ident;
pub use key::{AssetKey, KeyType};
pub use util::TypeId;
