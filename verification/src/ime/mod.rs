//! Keyboard handling for the input-method frontends: key codes, the
//! toggle-key configuration, and the per-key decisions of the IBus engine
//! and of the C interface; and the IBus bus address in a bus file.
pub mod bus;
pub mod capi;
pub mod config;
pub mod dispatch;
pub mod keymap;
