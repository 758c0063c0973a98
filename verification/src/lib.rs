//! A miniature virtual machine: a tick-driven firmware boot sequence, a
//! kernel shell, an in-memory filesystem, and a sandbox that drives guest
//! modules through load / per-tick step / crash / replace, with a fixed
//! syscall surface for text output, drawing, filesystem access and input.
#![verifier::loop_isolation(false)]

pub mod bios;
pub mod events;
pub mod fs;
pub mod gfx;
pub mod hw;
pub mod kernel;
pub mod sandbox;
pub mod shell;
pub mod term;
pub mod text;
