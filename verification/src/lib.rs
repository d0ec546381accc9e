//! Verified core of the zbus telemetry scripting library.

pub mod bus;
pub mod dynamic;
pub mod fuzzy;
pub mod input;
pub mod records;
pub mod sampler;
pub mod system;
pub mod text;
pub mod zabbix;
