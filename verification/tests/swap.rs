use control_plane::swap::{list_swap_devices, SwapDeviceError};

#[test]
fn no_swap_device_is_listed() {
    let devices = list_swap_devices().unwrap();
    assert!(devices.is_empty());
}

#[test]
fn swap_error_messages() {
    assert_eq!(SwapDeviceError::BootDiskNotFound.message(), "Could not find boot disk");
    assert_eq!(
        SwapDeviceError::Zfs("exit status 1".to_string()).message(),
        "Error running ZFS command: exit status 1"
    );
    assert_eq!(
        SwapDeviceError::Keyfile {
            error: "permission denied".to_string(),
            msg: "could not create keyfile"
        }
        .message(),
        "could not create keyfile: permission denied"
    );
    assert_eq!(
        SwapDeviceError::ListDevices("not supported".to_string()).message(),
        "Error listing swap devices: not supported"
    );
    assert_eq!(
        SwapDeviceError::AddDevice {
            msg: "device busy".to_string(),
            path: "/dev/zvol/dsk/oxi_boot/swap".to_string(),
            start: 0,
            length: 18446744073709551615,
        }
        .message(),
        "Error adding swap device: device busy (path=\"/dev/zvol/dsk/oxi_boot/swap\", start=0, \
        length=18446744073709551615)"
    );
}
