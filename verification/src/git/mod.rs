//! Plain values that stand for what a repository holds, and clone paths.
pub mod clone;
pub mod object;
pub mod order;

pub use object::{
    body_of, hex_of, is_hex_id, null_object_id, title_of, Commit, CommitId, EntryMode, ObjectId,
    Signature, TreeChange, TreeId, WalkItem,
};
