//! Core logic of a small x86_64 kernel: PSF2 font decoding, framebuffer text
//! rendering, keyboard scancode translation, interrupt-controller programming
//! sequences and serial output formatting.
//!
//! Everything that touches hardware (port I/O, memory-mapped framebuffers,
//! interrupt tables) is performed by the caller; this crate computes what is
//! to be written and proves it correct.

pub mod serial_io;
pub mod psf2;
pub mod font_render;
pub mod keyboard;
pub mod idt;
pub mod pic;
pub mod typer;
pub mod acpi;
