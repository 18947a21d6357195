//! Convenient imports for testing.
pub use crate::dom::{Attribute, Document, Element, ElementKind, Node};
pub use crate::query::{AmbiguousMatch, And, Not, Or};
pub use crate::query::{HasLabel, HasPlaceholder, HasRole, HasText};
pub use crate::query::{Joinable, Matcher, Query};
