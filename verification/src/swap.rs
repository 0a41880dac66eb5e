//! Swap devices of a sled, as seen where the platform offers no swap control.

use crate::text::{append_decimal, decimal};
use vstd::prelude::*;
use vstd::string::*;

verus! {

/// A swap device: the resource behind it and the area of it in use.
#[derive(Debug)]
pub struct SwapDevice {
    /// Path to the resource.
    pub path: String,
    /// Starting block on the device used for swap.
    pub start: u64,
    /// Length of the swap area.
    pub length: u64,
    /// Total number of pages used for swapping.
    pub total_pages: u64,
    /// Free pages for swapping.
    pub free_pages: u64,
    pub flags: i64,
}

/// Why a sled's swap device could not be set up.
#[derive(Debug)]
pub enum SwapDeviceError {
    /// No boot disk was found.
    BootDiskNotFound,
    /// A ZFS command failed; the text says how.
    Zfs(String),
    /// The key file of the encrypted volume could not be handled.
    Keyfile { error: String, msg: &'static str },
    /// The swap devices could not be listed.
    ListDevices(String),
    /// The swap device could not be added.
    AddDevice { msg: String, path: String, start: u64, length: u64 },
}

impl SwapDeviceError {
    /// The message of an error, in words.
    pub open spec fn message_text(self) -> Seq<char> {
        match self {
            SwapDeviceError::BootDiskNotFound => "Could not find boot disk"@,
            SwapDeviceError::Zfs(error) => "Error running ZFS command: "@ + error@,
            SwapDeviceError::Keyfile { error, msg } => msg@ + ": "@ + error@,
            SwapDeviceError::ListDevices(error) => "Error listing swap devices: "@ + error@,
            SwapDeviceError::AddDevice { msg, path, start, length } => "Error adding swap device: "@
                + msg@ + " (path=\""@ + path@ + "\", start="@ + decimal(start as nat) + ", length="@
                + decimal(length as nat) + ")"@,
        }
    }

    /// Returns the message of this error, in words.
    pub fn message(&self) -> (text: String)
        ensures
            text@ == self.message_text(),
    {
        match self {
            SwapDeviceError::BootDiskNotFound => String::from_str("Could not find boot disk"),
            SwapDeviceError::Zfs(error) => {
                let mut text = String::from_str("Error running ZFS command: ");
                text.append(error.as_str());
                text
            },
            SwapDeviceError::Keyfile { error, msg } => {
                let mut text = String::from_str(msg);
                text.append(": ");
                text.append(error.as_str());
                text
            },
            SwapDeviceError::ListDevices(error) => {
                let mut text = String::from_str("Error listing swap devices: ");
                text.append(error.as_str());
                text
            },
            SwapDeviceError::AddDevice { msg, path, start, length } => {
                let mut text = String::from_str("Error adding swap device: ");
                text.append(msg.as_str());
                text.append(" (path=\"");
                text.append(path.as_str());
                text.append("\", start=");
                append_decimal(&mut text, *start);
                text.append(", length=");
                append_decimal(&mut text, *length);
                text.append(")");
                text
            },
        }
    }
}

/// Lists the swap devices of the system. Without swap control there is none
/// to list: the list is empty, and the call never fails.
pub fn list_swap_devices() -> (devices: Result<Vec<SwapDevice>, SwapDeviceError>)
    ensures
        devices is Ok,
        devices->Ok_0@ == Seq::<SwapDevice>::empty(),
{
    let devices: Vec<SwapDevice> = Vec::new();
    Ok(devices)
}

} // verus!
