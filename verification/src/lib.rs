//! Input-event remapping core: configuration parsing, evdev request codes,
//! the plugin pipeline and the decisions of the device event loop.
use vstd::prelude::*;

pub mod config;
pub mod daemon;
pub mod device;
pub mod evdev;
pub mod pipeline;
pub mod plugin;
pub mod settings;
pub mod text;

verus! {

} // verus!
