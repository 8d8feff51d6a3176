//! Descriptors of LED controllers found on the local network.  Discovery
//! itself is network I/O and lives outside the library; what it finds is
//! handed in as these plain values.

use vstd::prelude::*;

verus! {

use crate::types::Device;

/// The pixel block of a discovered controller.
#[derive(Clone, Debug, PartialEq)]
pub struct LedsInfo {
    pub count: u32,
}

/// One output mapping of a discovered controller.
#[derive(Clone, Debug, PartialEq)]
pub struct MapInfo {
    pub id: u32,
}

/// A discovered controller, enriched with what its own interface reports.
#[derive(Clone, Debug, PartialEq)]
pub struct WledDevice {
    pub ip_address: String,
    pub port: u16,
    pub name: String,
    pub version: String,
    pub leds: LedsInfo,
    pub udp_port: u16,
    pub architecture: String,
    pub maps: Vec<MapInfo>,
}

impl WledDevice {
    /// The engine device a discovered controller becomes: its address, its
    /// name, and its pixel count.
    pub fn to_device(&self) -> (out: Device)
        ensures
            out.ip_address@ == self.ip_address@,
            out.name@ == self.name@,
            out.led_count == self.leds.count,
    {
        Device {
            ip_address: self.ip_address.clone(),
            name: self.name.clone(),
            led_count: self.leds.count,
        }
    }
}

} // verus!
