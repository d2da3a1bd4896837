//! The parts of the window that show collections.

pub mod collection_tree;
pub mod list_item;
pub mod sidebar;
pub mod tree_model;

pub use collection_tree::CollectionTree;
pub use list_item::ListItem;
pub use list_item::RowWidget;
pub use sidebar::Sidebar;
pub use sidebar::SidebarView;
pub use tree_model::Activation;
pub use tree_model::TreeNode;
pub use tree_model::TreeRow;
pub use tree_model::TreeView;
