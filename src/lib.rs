//! Decoding of loose objects of a content-addressed object store: the
//! `<type> <size>\0<content>` envelope, blob and tree bodies, and the
//! content address of an object.

pub mod error;
pub mod text;
pub mod tree;
pub mod digest;
pub mod object;
pub mod laws;

pub use digest::hash;
pub use error::ObjectError;
pub use object::{Blob, Object};
pub use tree::{EntryKind, File, Tree};
