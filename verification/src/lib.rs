//! A shopping-list engine: a durable store of recipe and custom-item
//! references, and an aggregation pipeline that turns such references
//! into a category-grouped shopping list.
pub mod aggregate;
pub mod path_gen;
pub mod requests;
pub mod scale_text;
pub mod store;
pub mod text;

pub use store::{ShoppingListItem, ShoppingListItemKind};
