//! Passive 802.11 frame analysis: beacon frames become network records,
//! EAPOL-Key frames become PMKID captures, and a registry and an SSID cache
//! join the two.

pub mod error;
pub mod text;
pub mod frame;
pub mod network;
pub mod parser;
pub mod pmkid;
pub mod builder;
pub mod cache;
pub mod scanner;

pub use network::WiFiNetwork;
pub use pmkid::PMKIDCapture;
pub use scanner::NetworkScanner;
