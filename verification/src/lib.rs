//! The decisions and bookkeeping of an n-body space simulator, apart from
//! the floating-point physics and the GPU work that surround them.
pub mod mesh;
pub mod trail;
pub mod render;
pub mod controls;
