//! Bookkeeping for arrays that a compute device holds.

pub mod compute_backend;
