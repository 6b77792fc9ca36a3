//! Fan, power and backlight control logic for the Lenovo LOQ Essential 15IRX11.
//!
//! The library holds the decisions: how sysfs text is read back into numbers,
//! which node receives which value in which order, how a fan curve is encoded,
//! how profiles and their bindings are kept consistent, and how the idle
//! keyboard dimmer reacts to each event.  Reading and writing the hardware is
//! done by the caller, which hands the library plain values.

pub mod text;
pub mod curve;
pub mod sysfs;
pub mod hw;
pub mod probe;
pub mod screen;
pub mod kbd_idle;
pub mod profiles;
pub mod control;
