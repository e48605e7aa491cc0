use gpu_procs::gpu::{pci_code, Device};

const DB: &str = "1002\tVendor A\n\t67df\tDevice X\n1003\tVendor B\n";

fn lookup(db: &str, vendor: &str, device: &str) -> Device {
    Device::new(vendor, device, "/dev/dri/card0".to_string(), db)
}

#[test]
fn known_vendor_and_device() {
    let d = lookup(DB, "1002", "67df");
    assert_eq!(d.get_vendor_name(), Some("Vendor A"));
    assert_eq!(d.get_device_name(), Some("Device X"));
}

#[test]
fn known_vendor_unknown_device() {
    let d = lookup(DB, "1002", "ffff");
    assert_eq!(d.get_vendor_name(), Some("Vendor A"));
    assert_eq!(d.get_device_name(), None);
}

#[test]
fn unknown_vendor() {
    let d = lookup(DB, "9999", "0000");
    assert_eq!(d.get_vendor_name(), None);
    assert_eq!(d.get_device_name(), None);
    assert_eq!(d.get_vendor_id(), "9999");
    assert_eq!(d.get_device_id(), "0000");
}

#[test]
fn codes_kept_verbatim() {
    let d = lookup(DB, "1002", "67df");
    assert_eq!(d.get_vendor_id(), "1002");
    assert_eq!(d.get_device_id(), "67df");
    let d = lookup("", "abcd", "0x12");
    assert_eq!(d.get_vendor_id(), "abcd");
    assert_eq!(d.get_device_id(), "0x12");
    assert_eq!(d.get_vendor_name(), None);
    assert_eq!(d.get_device_name(), None);
}

#[test]
fn empty_database_resolves_nothing() {
    let d = lookup("", "1002", "67df");
    assert_eq!(d.get_vendor_name(), None);
    assert_eq!(d.get_device_name(), None);
}

#[test]
fn device_of_next_vendor_not_taken() {
    let db = "1002\tVendor A\n1003\tVendor B\n\t67df\tDevice Y\n";
    let d = lookup(db, "1002", "67df");
    assert_eq!(d.get_vendor_name(), Some("Vendor A"));
    assert_eq!(d.get_device_name(), None);
    let d = lookup(db, "1003", "67df");
    assert_eq!(d.get_vendor_name(), Some("Vendor B"));
    assert_eq!(d.get_device_name(), Some("Device Y"));
}

#[test]
fn comments_and_other_devices_skipped() {
    let db = "# list\n1002\tVendor A\n\t0001\tOther\n# note\n\t\t0001 0002\tSub\n\t67df\tDevice X\n";
    let d = lookup(db, "1002", "67df");
    assert_eq!(d.get_device_name(), Some("Device X"));
}

#[test]
fn first_vendor_line_wins_by_prefix() {
    let db = "# 10 comment\n1002\tVendor A\n10\tShort\n";
    let d = lookup(db, "10", "0000");
    assert_eq!(d.get_vendor_name(), Some("Vendor A"));
}

#[test]
fn names_are_trimmed() {
    let db = "1002    Vendor A   \n\t67df   Device X  \n";
    let d = lookup(db, "1002", "67df");
    assert_eq!(d.get_vendor_name(), Some("Vendor A"));
    assert_eq!(d.get_device_name(), Some("Device X"));
}

#[test]
fn crlf_line_endings() {
    let db = "1002\tVendor A\r\n\t67df\tDevice X\r\n";
    let d = lookup(db, "1002", "67df");
    assert_eq!(d.get_vendor_name(), Some("Vendor A"));
    assert_eq!(d.get_device_name(), Some("Device X"));
}

#[test]
fn short_device_line_gives_empty_name() {
    let db = "1002\tVendor A\n\t67\n";
    let d = lookup(db, "1002", "67");
    assert_eq!(d.get_device_name(), Some(""));
}

#[test]
fn short_vendor_line_gives_empty_name() {
    let db = "10\n";
    let d = lookup(db, "10", "0000");
    assert_eq!(d.get_vendor_name(), Some(""));
    assert_eq!(d.get_device_name(), None);
}

#[test]
fn column_inside_character_gives_empty_name() {
    let db = "123\u{e9} Vendor\n";
    let d = lookup(db, "123", "0000");
    assert_eq!(d.get_vendor_name(), Some(""));
}

#[test]
fn pretty_names() {
    let d = lookup(DB, "1002", "67df");
    assert_eq!(d.vendor_name_pretty(), "Vendor A");
    assert_eq!(d.device_name_pretty(), "Device X");
    let d = lookup(DB, "9999", "0000");
    assert_eq!(d.vendor_name_pretty(), "Unknown Manufacturer");
    assert_eq!(d.device_name_pretty(), "Unknown Device");
}

#[test]
fn drm_path_and_contains() {
    let d = lookup(DB, "1002", "67df");
    assert_eq!(d.get_drm_path(), &["/dev/dri/card0".to_string()][..]);
    assert!(d.contains_path(&"/dev/dri/card0".to_string()));
    assert!(!d.contains_path(&"/dev/dri/card1".to_string()));
}

#[test]
fn pci_code_strips_prefix_and_newline() {
    assert_eq!(pci_code("0x1002\n"), "1002");
    assert_eq!(pci_code("1002"), "1002");
    assert_eq!(pci_code("  0x67df  "), "67df");
    assert_eq!(pci_code("0x"), "");
    assert_eq!(pci_code("x0"), "x0");
}
