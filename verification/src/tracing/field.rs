//! Placeholder field values for spans.
use vstd::prelude::*;

verus! {

/// A field whose value is recorded later.
pub struct Empty;

} // verus!
