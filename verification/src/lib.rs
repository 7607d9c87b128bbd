//! Keyboard reports relayed between a sender board and a USB keyboard
//! emulator: the report type, its wire format, the stream reassembly on
//! the receiving side, and the decisions of the device firmware.

pub mod device;
pub mod framing;
pub mod report;
pub mod typing;
