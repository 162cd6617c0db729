//! Path completion for an editor: a live text model per open document, a
//! grammar that finds the path being typed before the cursor, resolution of
//! that path to a directory, and the ordering of the directory's entries.

pub mod completion;
pub mod listing;
pub mod matcher;
pub mod resolve;
pub mod store;
pub mod text;
