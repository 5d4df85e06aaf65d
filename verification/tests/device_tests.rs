use stick_recovery::device::{
    contains, device_size_from_sectors, get_mount_point, is_device_mounted, is_removable_device,
    parse_bounded, parse_u8, starts_with, unmount_device, Device, DeviceError,
};

const MOUNTS: &str = "sysfs /sys sysfs rw,nosuid 0 0\n\
/dev/sda1 / ext4 rw,relatime 0 0\n\
   \n\
/dev/sdb1\t/media/usb\tvfat rw 0 0\r\n\
/dev/sdc\n";

#[test]
fn mount_points_are_found() {
    assert_eq!(get_mount_point(MOUNTS, "/dev/sda1"), Some("/".to_string()));
    assert_eq!(get_mount_point(MOUNTS, "/dev/sdb1"), Some("/media/usb".to_string()));
    assert_eq!(get_mount_point(MOUNTS, "sysfs"), Some("/sys".to_string()));
}

#[test]
fn devices_without_mount_point() {
    assert_eq!(get_mount_point(MOUNTS, "/dev/sdc"), None);
    assert_eq!(get_mount_point(MOUNTS, "/dev/sdb"), None);
    assert_eq!(get_mount_point("", "/dev/sdb"), None);
    assert!(!is_device_mounted(MOUNTS, "/dev/sdz"));
    assert!(is_device_mounted(MOUNTS, "/dev/sdb1"));
}

#[test]
fn first_matching_line_wins() {
    let mounts = "/dev/sdb1 /first vfat\n/dev/sdb1 /second vfat\n";
    assert_eq!(get_mount_point(mounts, "/dev/sdb1"), Some("/first".to_string()));
}

#[test]
fn unmounting_is_left_to_the_user() {
    assert_eq!(
        unmount_device(MOUNTS, "/dev/sdb1"),
        Err(DeviceError::ManualUnmountRequired("/media/usb".to_string()))
    );
    assert_eq!(unmount_device(MOUNTS, "/dev/sdx"), Err(DeviceError::NotMounted));
}

#[test]
fn removable_flags() {
    assert!(is_removable_device("sdb", Some("1\n"), None));
    assert!(is_removable_device("sdb", Some(" +01 "), None));
    assert!(!is_removable_device("sda", Some("0\n"), Some("../usb1/1-1")));
    assert!(!is_removable_device("sdb", Some("yes"), None));
    assert!(!is_removable_device("loop0", Some("1"), None));
    assert!(!is_removable_device("ram1", Some("1"), None));
}

#[test]
fn removable_from_bus_link() {
    assert!(is_removable_device("sdc", None, Some("../devices/pci0000:00/usb2/2-1/host6")));
    assert!(!is_removable_device("nvme0n1", None, Some("../devices/pci0000:00/nvme")));
    assert!(!is_removable_device("sdc", None, None));
}

#[test]
fn byte_parsing() {
    assert_eq!(parse_u8("1"), Some(1));
    assert_eq!(parse_u8("+255"), Some(255));
    assert_eq!(parse_u8("256"), None);
    assert_eq!(parse_u8("-1"), None);
    assert_eq!(parse_u8("+"), None);
    assert_eq!(parse_u8(""), None);
    assert_eq!(parse_u8("1 "), None);
    assert_eq!(parse_u8("007"), Some(7));
}

#[test]
fn bounded_parsing() {
    assert_eq!(parse_bounded("18446744073709551615", u64::MAX), Some(u64::MAX));
    assert_eq!(parse_bounded("18446744073709551616", u64::MAX), None);
    assert_eq!(parse_bounded("10", 9), None);
    assert_eq!(parse_bounded("9", 9), Some(9));
}

#[test]
fn device_sizes() {
    assert_eq!(device_size_from_sectors("15633408\n"), Some(15633408 * 512));
    assert_eq!(device_size_from_sectors("n/a"), None);
}

#[test]
fn text_matching() {
    assert!(starts_with("loop7", "loop"));
    assert!(!starts_with("lo", "loop"));
    assert!(contains("a/usb/b", "usb"));
    assert!(!contains("us", "usb"));
    assert!(contains("anything", ""));
}

#[test]
fn device_record() {
    let d = Device {
        path: "/dev/sdb".to_string(),
        model: "Flash".to_string(),
        serial: "123".to_string(),
        size: 8 * 1024 * 1024 * 1024,
        removable: true,
        mount_point: None,
    };
    assert_eq!(d.size / (1024 * 1024 * 1024), 8);
    assert!(d.removable && d.mount_point.is_none());
    assert_eq!((d.path.as_str(), d.model.as_str(), d.serial.as_str()), ("/dev/sdb", "Flash", "123"));
}
