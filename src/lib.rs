//! A cache of serialized values under serialized keys, with optional
//! time-bounded validity, lazy expiry and early invalidation.

pub mod clock;
pub mod import;
pub mod laws;
pub mod receipt;
pub mod store;
