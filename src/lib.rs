//! MD5 digests of large buffers, computed in chunks, across parallel slices,
//! or through named incremental sessions.
pub mod digest;
pub mod plan;
pub mod parallel;
pub mod session;
pub mod stream;
pub mod incremental;
