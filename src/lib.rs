//! An immediate-mode UI composition engine: per-frame widget trees with
//! positional identities, a pure layout pass, lock-step flattening of the
//! widget and geometry trees, and a small cross-frame interaction state machine.
pub mod ast;
pub mod emit;
pub mod flatten;
pub mod interaction;
pub mod layout;
pub mod tree;
pub mod ui;
