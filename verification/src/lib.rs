//! Pointer-device tuning: parsers for `xinput` output and the kernel's
//! psmouse attributes, the staged-edit model that drives the interface, and
//! what each key does to it.
pub mod app;
pub mod detect;
pub mod error;
pub mod keys;
pub mod num;
pub mod restore;
pub mod screen;
pub mod sysfs;
pub mod text;
pub mod xinput;
