//! The bucket-facing half of the library: destination-prefix inference
//! with its cache, and the upload planning and bookkeeping.

pub mod prefix;
pub mod sync;
