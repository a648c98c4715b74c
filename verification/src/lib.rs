//! Virtual HID devices over the Linux UHID interface, and the rules of the
//! daemon that mirrors a physical controller onto one of them.

pub mod bytes;
pub mod config;
pub mod device;
pub mod emit;
pub mod error;
pub mod event;
pub mod fields;
pub mod hid;
pub mod kernel;
pub mod layout;
pub mod mirror;
pub mod options;
pub mod registry;
pub mod reload;
pub mod report;
pub mod script;
pub mod session;
pub mod source;
pub mod strmap;
pub mod text;
