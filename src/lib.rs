//! Negotiation of HTTP content codings from an `Accept-Encoding` header.
//!
//! The header text is parsed into weighted proposals and a wildcard flag,
//! ordered by weight, and matched against the codings a server can produce.
use vstd::prelude::*;

pub mod accept_encoding;
pub mod encoding;
pub mod error;
pub mod headers;
pub mod laws;
pub mod proposal;
pub mod sort;
pub mod text;

pub use encoding::Encoding;
pub use accept_encoding::{AcceptEncoding, IntoIter, Iter, IterMut};
pub use error::Error;
pub use headers::{Headers, ACCEPT_ENCODING};
pub use proposal::EncodingProposal;

verus! {

} // verus!
