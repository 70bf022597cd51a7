//! Discovery of USB serial devices and a checksum-guarded text protocol
//! for talking to them.
pub mod checksum;
pub mod parameters;
pub mod protocol;
pub mod serial_device;
pub mod device_manager;
