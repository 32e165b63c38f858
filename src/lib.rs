//! A reference-counted shared pointer that records where each of its handles came from.
//!
//! Every handle to a shared value has an `Origin`: how it was made (created, cloned,
//! downgraded or upgraded), at which call site, and from which parent handle. The holder of the
//! value keeps the origin of every live handle, so that any handle can list all of its siblings.
//! This helps to track down reference cycles and other leaks that keep a value alive.
//!
//! `lineage::Holder` is the bookkeeping of one value; `handle` shares it between threads behind
//! a lock; `laws` states what holds of every sequence of operations on a holder.
use vstd::prelude::*;

pub mod handle;
pub mod laws;
pub mod lineage;
pub mod tracing;

pub use handle::{Dump, Snarc, Strong, Weak};
pub use lineage::{Holder, RefError};
pub use tracing::{Origin, OriginKind, Site, Uid};

verus! {

} // verus!
