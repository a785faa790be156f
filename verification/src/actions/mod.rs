//! Apply-time actions: the host boundary, the native side effects and the
//! docker generator.

pub mod docker;
pub mod native;
pub mod system;
