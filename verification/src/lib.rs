//! A lightweight library to query and assert a document tree.
//!
//! Elements are found the way a user would find them: by their accessible
//! role, their label, their placeholder or the text they show. A [`Document`]
//! holds a snapshot of the tree, an [`Element`] is a handle into it, and the
//! matchers of [`query`] are predicates over such handles that can be joined
//! into logical expressions with [`Not`] and the methods of [`Joinable`].
//!
//! [`Document`]: dom::Document
//! [`Element`]: dom::Element
//! [`Not`]: query::Not
//! [`Joinable`]: query::Joinable
pub mod dom;
pub mod mount;
pub mod prelude;
pub mod query;
pub mod roles;
pub mod text;
