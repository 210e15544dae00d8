//! The errors that end a scan before any buffer is read.

use vstd::prelude::*;
use vstd::string::*;

verus! {

/// Why a scan could not begin. Each variant but `InterfaceNotFound` carries
/// the words of the layer that failed.
#[derive(Debug)]
pub enum ScanError {
    /// The devices of the machine could not be listed.
    DeviceList(String),
    /// No device bears the requested name; the name is carried.
    InterfaceNotFound(String),
    /// A capture on the device could not be set up.
    CaptureCreate(String),
    /// The capture could not be opened.
    CaptureOpen(String),
    /// The lock of the correlation cache could not be taken.
    CacheLock(String),
}

impl ScanError {
    /// The message of the error.
    pub open spec fn text(&self) -> Seq<char> {
        match self {
            ScanError::DeviceList(cause) => "Failed to list devices: "@ + cause@,
            ScanError::InterfaceNotFound(name) => "Interface '"@ + name@ + "' not found"@,
            ScanError::CaptureCreate(cause) => "Failed to create capture: "@ + cause@,
            ScanError::CaptureOpen(cause) => "Failed to open capture: "@ + cause@,
            ScanError::CacheLock(cause) => "Failed to lock cache: "@ + cause@,
        }
    }

    /// The message of the error, as it is shown to the caller.
    pub fn message(&self) -> (m: String)
        ensures
            m@ == self.text(),
    {
        match self {
            ScanError::DeviceList(cause) => "Failed to list devices: ".to_owned().concat(
                cause.as_str(),
            ),
            ScanError::InterfaceNotFound(name) => {
                let mut m = "Interface '".to_owned();
                m.append(name.as_str());
                m.append("' not found");
                m
            },
            ScanError::CaptureCreate(cause) => "Failed to create capture: ".to_owned().concat(
                cause.as_str(),
            ),
            ScanError::CaptureOpen(cause) => "Failed to open capture: ".to_owned().concat(
                cause.as_str(),
            ),
            ScanError::CacheLock(cause) => "Failed to lock cache: ".to_owned().concat(
                cause.as_str(),
            ),
        }
    }
}

} // verus!
