//! The record of one discovered access point.

use vstd::prelude::*;

verus! {

/// The mathematical content of a network record.
pub struct NetworkRecord {
    pub ssid: Seq<char>,
    pub bssid: Seq<char>,
    pub channel: u8,
    pub rssi: i8,
    pub encryption: Seq<char>,
}

/// `WiFi` network information
#[derive(Debug, Clone)]
pub struct WiFiNetwork {
    pub ssid: String,
    pub bssid: String,
    pub channel: u8,
    pub rssi: i8,
    pub encryption: String,
}

/// Network data extracted from beacon frames
#[derive(Debug, Clone)]
pub struct NetworkData {
    pub ssid: String,
    pub bssid: String,
    pub channel: u8,
    pub rssi: i8,
    pub encryption: String,
}

impl View for WiFiNetwork {
    type V = NetworkRecord;

    open spec fn view(&self) -> NetworkRecord {
        NetworkRecord {
            ssid: self.ssid@,
            bssid: self.bssid@,
            channel: self.channel,
            rssi: self.rssi,
            encryption: self.encryption@,
        }
    }
}

impl View for NetworkData {
    type V = NetworkRecord;

    open spec fn view(&self) -> NetworkRecord {
        NetworkRecord {
            ssid: self.ssid@,
            bssid: self.bssid@,
            channel: self.channel,
            rssi: self.rssi,
            encryption: self.encryption@,
        }
    }
}

impl WiFiNetwork {
    /// A record made of the five given values.
    pub fn new(ssid: String, bssid: String, channel: u8, rssi: i8, encryption: String) -> (r: Self)
        ensures
            r@ == (NetworkRecord {
                ssid: ssid@,
                bssid: bssid@,
                channel: channel,
                rssi: rssi,
                encryption: encryption@,
            }),
    {
        Self { ssid, bssid, channel, rssi, encryption }
    }
}

} // verus!
