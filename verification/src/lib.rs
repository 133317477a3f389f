//! Keeps a selected browsing frame usable while the browser changes its renderer.
//!
//! The frame ID identifies the browsing context; its session can change when navigation moves it
//! into or out of an out-of-process iframe. Lifecycle events mark ownership as pending, and the
//! same ID is then resolved again in the active tab's frame trees. Removal stays until another
//! frame is selected: falling back to the main frame could send input to an unrelated page.
//!
//! Document and renderer replacement invalidate the affected element refs. Node IDs are never
//! transferred to the new session.

pub mod cdp;
pub mod collector;
pub mod element;
pub mod event_laws;
pub mod json;
pub mod merge_laws;
pub mod reading_laws;
pub mod selection;
pub mod selection_laws;
pub mod string_map;
pub mod text;
pub mod topology;
pub mod tree;
pub mod tree_laws;
