//! A per-principal note store.
//!
//! Every caller, identified by a [`Principal`], owns a private, ordered list of
//! [`Note`]s. A [`NoteStore`] appends, lists, fetches, edits and deletes notes
//! by position; its contracts are stated over the mathematical [`StoreModel`].

pub mod history;
pub mod model;
pub mod note;
pub mod principal;
pub mod store;

pub use history::{Call, Reply, Request};
pub use model::StoreModel;
pub use note::{Note, NoteView};
pub use principal::Principal;
pub use store::NoteStore;
