//! Composable access paths into nested data, with verified semantics.
//!
//! A caller builds an arbitrary-depth chain of indices into a nested value,
//! then performs a single guarded operation through the chain: if any step
//! fails to resolve, the whole operation reports failure and the data is
//! untouched.  Paths can be detached from their root, copied, and attached
//! to different roots; batches run a sequence of transforms against one
//! resolved location, threading each result into the next.
//!
//! Every executable function is specified against the ghost semantics in
//! [`model`], and the protocol's laws are proved in [`laws`].

pub mod access;
pub mod at;
pub mod batch;
pub mod laws;
pub mod model;
pub mod value;
pub mod wf;
