//! A small, verified core for a persistent hierarchical checklist: named
//! lists of checkable items, an edit/view state machine per entry, a dirty
//! flag with a debounced autosave policy, and a byte-level codec for the
//! on-disk document.

pub mod board;
pub mod codec;
pub mod docs;
pub mod model;
pub mod store;
pub mod text;
