//! A debugger-integration bridge: renders a fixed set of in-process values
//! to their canonical textual form and frames the text with a terminating
//! zero byte for a foreign caller, which reads it up to the terminator and
//! releases the handed-off block exactly once.

pub mod bridge;
pub mod decode;
pub mod foreign;
pub mod map;
pub mod render;
pub mod text;
pub mod wire;
