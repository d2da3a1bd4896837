//! The entities: collections, their requests and their key/value settings.

pub mod collection;
pub mod endpoint;
pub mod key_value_item;

pub use collection::Change;
pub use collection::Collection;
pub use collection::CollectionView;
pub use endpoint::Endpoint;
pub use endpoint::EndpointView;
pub use key_value_item::KeyValueItem;
pub use key_value_item::KeyValueItemView;
