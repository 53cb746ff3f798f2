//! Low-level terminal control: an escape-sequence codec that turns raw
//! console bytes into structured key and mouse events, encoders for cursor
//! and screen control sequences, and the state logic of a raw-mode console.
pub mod bytes;
pub mod console;
pub mod cursor;
pub mod event;
pub mod input;
pub mod screen;
pub mod source;
