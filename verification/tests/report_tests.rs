use wld::render::{
    added_message, any_unreachable, classify_probe, default_set_message, deleted_message,
    list_output, status_output,
};
use wld::{Config, DeviceStatus};

#[test]
fn test_ls_marks_default() {
    let mut config = Config::new();
    config.add_device("living_room".to_string(), "192.168.1.100".to_string());
    config.add_device("bedroom".to_string(), "192.168.1.101".to_string());

    let out = list_output(&config);
    assert_eq!(
        out,
        "Saved devices:\n  living_room - 192.168.1.100 (default)\n  bedroom - 192.168.1.101\n"
    );

    config.remove_device("living_room").unwrap();
    let out = list_output(&config);
    assert_eq!(out, "Saved devices:\n  bedroom - 192.168.1.101 (default)\n");
}

#[test]
fn test_ls_empty_registry() {
    let config = Config::new();
    assert_eq!(list_output(&config), "No devices saved");
}

#[test]
fn test_fresh_registry_resolution() {
    let config = Config::new();
    let err = config.get_device_ip(None).unwrap_err();
    assert_eq!(err, "No device specified and no default device set");
    let ok = config.get_device_ip(Some("10.0.0.5")).unwrap();
    assert_eq!(ok, "10.0.0.5");
}

#[test]
fn test_first_add_sets_default() {
    let mut config = Config::new();
    config.add_device("one".to_string(), "10.0.0.1".to_string());
    config.add_device("two".to_string(), "10.0.0.2".to_string());
    config.add_device("three".to_string(), "10.0.0.3".to_string());
    assert_eq!(config.default_device, Some("one".to_string()));
}

#[test]
fn test_overwrite_keeps_single_entry() {
    let mut config = Config::new();
    config.add_device("x".to_string(), "10.0.0.1".to_string());
    config.add_device("x".to_string(), "10.0.0.2".to_string());
    assert_eq!(config.devices.len(), 1);
    assert_eq!(config.lookup("x"), Some("10.0.0.2".to_string()));
    assert_eq!(config.default_device, Some("x".to_string()));
}

#[test]
fn test_remove_default_reassigns() {
    let mut config = Config::new();
    config.add_device("one".to_string(), "10.0.0.1".to_string());
    config.add_device("two".to_string(), "10.0.0.2".to_string());
    config.add_device("three".to_string(), "10.0.0.3".to_string());
    config.set_default("two").unwrap();

    config.remove_device("two").unwrap();
    let default = config.default_device.clone().expect("a default should remain");
    assert!(config.lookup(&default).is_some());
    assert_eq!(default, "one");
}

#[test]
fn test_multiple_operations_sequence() {
    let mut config = Config::new();
    config.add_device("device1".to_string(), "192.168.1.10".to_string());
    config.add_device("device2".to_string(), "192.168.1.20".to_string());
    config.add_device("device3".to_string(), "192.168.1.30".to_string());
    config.set_default("device2").unwrap();
    config.remove_device("device1").unwrap();

    let out = list_output(&config);
    assert!(out.contains("device2 - 192.168.1.20 (default)"));
    assert!(out.contains("device3 - 192.168.1.30"));
}

#[test]
fn test_classify_probe() {
    assert_eq!(classify_probe(false, None), DeviceStatus::Unreachable);
    assert_eq!(classify_probe(false, Some(true)), DeviceStatus::Unreachable);
    assert_eq!(classify_probe(true, Some(true)), DeviceStatus::On);
    assert_eq!(classify_probe(true, None), DeviceStatus::On);
    assert_eq!(classify_probe(true, Some(false)), DeviceStatus::Off);
}

#[test]
fn test_status_report() {
    let mut config = Config::new();
    config.add_device("living_room".to_string(), "192.168.1.100".to_string());
    config.add_device("bedroom".to_string(), "192.168.1.101".to_string());

    let statuses = vec![DeviceStatus::On, DeviceStatus::Unreachable];
    let out = status_output(&config, &statuses);
    assert_eq!(
        out,
        "Checking status of all devices:\n\n  living_room (192.168.1.100) (default): ON\n  bedroom (192.168.1.101): UNREACHABLE\n\nWarning: Some devices are unreachable"
    );
}

#[test]
fn test_status_report_all_reachable() {
    let mut config = Config::new();
    config.add_device("a".to_string(), "10.0.0.1".to_string());
    let statuses = vec![DeviceStatus::Off];
    let out = status_output(&config, &statuses);
    assert_eq!(
        out,
        "Checking status of all devices:\n\n  a (10.0.0.1) (default): OFF\n"
    );
}

#[test]
fn test_status_report_no_devices() {
    let config = Config::new();
    let statuses: Vec<DeviceStatus> = Vec::new();
    assert_eq!(status_output(&config, &statuses), "No devices saved");
}

#[test]
fn test_any_unreachable() {
    assert!(!any_unreachable(&Vec::new()));
    assert!(!any_unreachable(&vec![DeviceStatus::On, DeviceStatus::Off]));
    assert!(any_unreachable(&vec![DeviceStatus::On, DeviceStatus::Unreachable]));
}

#[test]
fn test_command_messages() {
    assert_eq!(
        added_message("test_device", "192.168.1.100"),
        "Added device 'test_device' with IP 192.168.1.100"
    );
    assert_eq!(deleted_message("living_room"), "Deleted device 'living_room'");
    assert_eq!(
        default_set_message("test_device"),
        "Set 'test_device' as the default device"
    );
}

#[test]
fn test_entries_in_order() {
    let mut config = Config::new();
    config.add_device("b".to_string(), "2".to_string());
    config.add_device("a".to_string(), "1".to_string());
    let entries = config.entries();
    assert_eq!(
        entries,
        vec![
            ("b".to_string(), "2".to_string()),
            ("a".to_string(), "1".to_string())
        ]
    );
}

#[test]
fn test_is_default() {
    let mut config = Config::new();
    config.add_device("a".to_string(), "1".to_string());
    config.add_device("b".to_string(), "2".to_string());
    assert!(config.is_default("a"));
    assert!(!config.is_default("b"));
    assert_eq!(config.device_count(), 2);
}
