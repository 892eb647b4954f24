//! The vault model: files, pages, references, tags, and the vault index.

pub mod file;
pub mod page;
pub mod reference;
pub mod span;
pub mod tag;
pub mod vault;
pub mod vault_item;
pub mod wiki_link_string;
