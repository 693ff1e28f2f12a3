//! Teruic: the kernel-level logic of a small teaching operating system,
//! written as verified Rust: an in-memory file system, a command shell,
//! a full-screen text editor, two toy interpreters, a VGA text-buffer model
//! and a cooperative task scheduler.
pub mod text;
pub mod vfs;
pub mod shell;
pub mod editor;
pub mod java;
pub mod c_runner;
pub mod vga;
pub mod gui;
pub mod executor;
pub mod c_abi;
pub mod loader;
