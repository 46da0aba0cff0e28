//! A library for working with relative URI references: a path, an optional
//! query, and an optional fragment, with no scheme or authority.
//!
//! The [`Uri`] value type owns the three components; every operation on it is
//! specified and verified: splitting a raw string into its components,
//! resolving a relative reference against a base (including dot-segment
//! removal), and editing the path segments or the query pairs while the
//! percent-encoding invariants are preserved.

use vstd::prelude::*;

pub mod encoding;
pub mod form;
pub mod laws;
pub mod reference;
pub mod resolve;
pub mod split;

pub use reference::{uri, Uri};

verus! {

/// The one error of the library: a string handed to [`Uri::new`] or
/// [`Uri::join`] holds a malformed percent-escape (a `%` not followed by two
/// hexadecimal digits).
#[derive(Clone, Copy, PartialEq, Eq, Structural, Debug)]
pub struct ReferenceParseError;

} // verus!
