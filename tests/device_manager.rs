use serial_devices::device_manager::SerialDeviceManager;
use serial_devices::protocol::DeviceError;
use serial_devices::serial_device::{matching_port_names, PortInfo, SerialDevice, UsbIds};

struct Fake;

impl SerialDevice for Fake {
    type Device = String;
    const VID: u16 = 0x0483;
    const PID: u16 = 0x5740;
    fn open(path: &str) -> Result<String, DeviceError> {
        if path.starts_with("bad") {
            Err(DeviceError::Io)
        } else {
            Ok(format!("handle:{}", path))
        }
    }
}

fn usb(name: &str) -> PortInfo {
    PortInfo { port_name: String::from(name), usb: Some(UsbIds { vid: Fake::VID, pid: Fake::PID }) }
}

fn cycle(m: &mut SerialDeviceManager<Fake>, ports: &Vec<PortInfo>) -> Vec<String> {
    let to_open = m.poll(ports);
    for name in &to_open {
        if let Ok(d) = Fake::open(name) {
            assert!(m.insert_device(name.clone(), d));
        }
    }
    to_open
}

fn sorted(mut v: Vec<String>) -> Vec<String> {
    v.sort();
    v
}

#[test]
fn filter_keeps_matching_usb_ports() {
    let ports = vec![
        usb("A"),
        PortInfo { port_name: String::from("B"), usb: Some(UsbIds { vid: 0x0483, pid: 1 }) },
        PortInfo { port_name: String::from("C"), usb: None },
        usb("D"),
    ];
    assert_eq!(matching_port_names(&ports, 0x0483, 0x5740), vec!["A", "D"]);
}

#[test]
fn new_registry_is_empty() {
    let m: SerialDeviceManager<Fake> = SerialDeviceManager::new();
    assert!(m.get_devices().is_empty());
    assert!(m.get_device("A").is_none());
}

#[test]
fn registry_diff_sequence() {
    let mut m: SerialDeviceManager<Fake> = SerialDeviceManager::new();
    let opened = cycle(&mut m, &vec![usb("A"), usb("B")]);
    assert_eq!(sorted(opened), vec!["A", "B"]);
    assert_eq!(sorted(m.get_devices()), vec!["A", "B"]);
    let opened = cycle(&mut m, &vec![usb("B"), usb("C")]);
    assert_eq!(opened, vec!["C"]);
    assert_eq!(sorted(m.get_devices()), vec!["B", "C"]);
    assert!(m.get_device("A").is_none());
    assert_eq!(m.get_device("C"), Some(&String::from("handle:C")));
    let opened = cycle(&mut m, &vec![]);
    assert!(opened.is_empty());
    assert!(m.get_devices().is_empty());
}

#[test]
fn duplicate_enumeration_opens_once() {
    let mut m: SerialDeviceManager<Fake> = SerialDeviceManager::new();
    let opened = cycle(&mut m, &vec![usb("A"), usb("A")]);
    assert_eq!(opened, vec!["A"]);
    assert_eq!(m.get_devices(), vec!["A"]);
}

#[test]
fn removal_is_permanent() {
    let mut m: SerialDeviceManager<Fake> = SerialDeviceManager::new();
    cycle(&mut m, &vec![usb("A"), usb("B")]);
    assert!(m.remove_device("A"));
    assert_eq!(m.get_devices(), vec!["B"]);
    for _ in 0..3 {
        let opened = cycle(&mut m, &vec![usb("A"), usb("B")]);
        assert!(opened.is_empty());
        assert_eq!(m.get_devices(), vec!["B"]);
    }
    assert!(!m.insert_device(String::from("A"), String::from("handle:A")));
    assert!(m.get_device("A").is_none());
}

#[test]
fn removing_unknown_device_still_blocks_it() {
    let mut m: SerialDeviceManager<Fake> = SerialDeviceManager::new();
    assert!(m.remove_device("Z"));
    assert!(m.remove_device("Z"));
    let opened = cycle(&mut m, &vec![usb("Z")]);
    assert!(opened.is_empty());
    assert!(m.get_devices().is_empty());
}

#[test]
fn failed_open_is_retried() {
    let mut m: SerialDeviceManager<Fake> = SerialDeviceManager::new();
    let opened = cycle(&mut m, &vec![usb("bad0")]);
    assert_eq!(opened, vec!["bad0"]);
    assert!(m.get_devices().is_empty());
    let opened = cycle(&mut m, &vec![usb("bad0")]);
    assert_eq!(opened, vec!["bad0"]);
}

#[test]
fn insert_refuses_live_identifier() {
    let mut m: SerialDeviceManager<Fake> = SerialDeviceManager::new();
    assert!(m.insert_device(String::from("A"), String::from("first")));
    assert!(!m.insert_device(String::from("A"), String::from("second")));
    assert_eq!(m.get_device("A"), Some(&String::from("first")));
}

#[test]
fn find_device_reports_why() {
    let mut m: SerialDeviceManager<Fake> = SerialDeviceManager::new();
    cycle(&mut m, &vec![usb("A"), usb("B")]);
    assert_eq!(m.find_device("A"), Ok(&String::from("handle:A")));
    assert_eq!(m.find_device("Q"), Err(DeviceError::DeviceNotFound));
    m.remove_device("A");
    assert_eq!(m.find_device("A"), Err(DeviceError::DeviceRemoved));
}
