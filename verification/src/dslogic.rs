//! DSLogic U3Pro16 protocol.

pub mod blocks;
pub mod capture;
pub mod device_laws;
pub mod driver_laws;
pub mod fetch;
pub mod header;
pub mod ops;
pub mod packet;
pub mod packet_laws;
pub mod plan;
pub mod plan_laws;
pub mod request;
pub mod setup;
pub mod usb;
pub mod whole_capture;
