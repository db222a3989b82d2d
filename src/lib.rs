//! A programmable virtual keyboard: key state machines turn a stream of
//! physical key events into a stream of synthesized key codes.
pub mod balance;
pub mod keyboard;
pub mod keys;
pub mod machines;
pub mod mapper;
pub mod sm_keyboard;
