use gpu_procs::gpu::GpuRegistry;

const DB: &str = "1002\tVendor A\n\t67df\tDevice X\n1003\tVendor B\n";

#[test]
fn nodes_on_one_bus_grouped() {
    let mut r = GpuRegistry::new();
    r.add_node("../../0000:03:00.0".to_string(), "0x1002\n", "0x67df\n", "/dev/dri/card0".to_string(), DB);
    r.add_node("../../0000:03:00.0".to_string(), "0x1002\n", "0x67df\n", "/dev/dri/renderD128".to_string(), DB);
    assert_eq!(r.len(), 1);
    assert_eq!(r.bus(0), "../../0000:03:00.0");
    let d = r.device(0);
    assert_eq!(
        d.get_drm_path(),
        &["/dev/dri/card0".to_string(), "/dev/dri/renderD128".to_string()][..]
    );
    assert_eq!(d.get_vendor_id(), "1002");
    assert_eq!(d.get_device_id(), "67df");
    assert_eq!(d.get_vendor_name(), Some("Vendor A"));
    assert_eq!(d.get_device_name(), Some("Device X"));
}

#[test]
fn nodes_on_two_buses_apart() {
    let mut r = GpuRegistry::new();
    r.add_node("bus-a".to_string(), "0x1002\n", "0x67df\n", "/dev/dri/card0".to_string(), DB);
    r.add_node("bus-b".to_string(), "0x1003\n", "0x0001\n", "/dev/dri/card1".to_string(), DB);
    r.add_node("bus-a".to_string(), "0x1002\n", "0x67df\n", "/dev/dri/renderD128".to_string(), DB);
    assert_eq!(r.len(), 2);
    assert_eq!(r.bus(0), "bus-a");
    assert_eq!(r.bus(1), "bus-b");
    assert_eq!(r.device(0).get_drm_path().len(), 2);
    assert_eq!(r.device(1).get_drm_path(), &["/dev/dri/card1".to_string()][..]);
    assert_eq!(r.device(1).get_vendor_name(), Some("Vendor B"));
    assert_eq!(r.device(1).get_device_name(), None);
}

#[test]
fn empty_registry() {
    let r = GpuRegistry::new();
    assert_eq!(r.len(), 0);
}
