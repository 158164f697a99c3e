//! Bookmark resolution and bounded dispatch, with the small text and path
//! helpers of the `dkdc` tool belt.

pub mod table;
pub mod links;
pub mod dispatch;
pub mod settings;
pub mod names;
pub mod numbers;
pub mod text;
pub mod ignore;
pub mod listing;
pub mod secrets;
pub mod lake;
pub mod archive;
