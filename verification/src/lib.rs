//! A local registry of named network lighting devices.
//!
//! The registry maps human-friendly device names to network addresses and
//! tracks a single default device.  It offers the mutations `add_device`,
//! `remove_device` and `set_default`, the resolution algorithm
//! `get_device_ip`, a text codec for the persisted registry file, and
//! renderers for the command-line reports.

pub mod codec;
pub mod registry;
pub mod render;
pub mod text;

pub use registry::Config;
pub use render::DeviceStatus;
