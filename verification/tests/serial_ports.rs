use plojo::serial_ports::{
    get_georgi_port, hex4_string, ports_report, PortInfo, PortType, SerialMachine, UsbPortInfo,
};

fn usb(name: &str, manufacturer: Option<&str>, product: Option<&str>) -> PortInfo {
    PortInfo {
        port_name: name.to_string(),
        port_type: PortType::UsbPort(UsbPortInfo {
            vid: 0x1d50,
            pid: 0x6060,
            serial_number: None,
            manufacturer: manufacturer.map(|s| s.to_string()),
            product: product.map(|s| s.to_string()),
        }),
    }
}

#[test]
fn report_no_ports() {
    assert_eq!(ports_report(&vec![]), vec!["No ports found.".to_string()]);
}

#[test]
fn report_usb_and_other_ports() {
    let ports = vec![
        usb("/dev/ttyACM0", Some("g Heavy Industries"), Some("Georgi")),
        PortInfo {
            port_name: "/dev/ttyS0".to_string(),
            port_type: PortType::PciPort,
        },
    ];
    assert_eq!(
        ports_report(&ports),
        vec![
            "Found 2 ports:",
            "  /dev/ttyACM0",
            "    Type: USB",
            "    VID:1d50 PID:6060",
            "     Serial Number: ",
            "      Manufacturer: g Heavy Industries",
            "           Product: Georgi",
            "  /dev/ttyS0",
            "    Type: PCI",
        ]
    );
    assert_eq!(
        ports_report(&vec![PortInfo {
            port_name: "x".to_string(),
            port_type: PortType::BluetoothPort
        }]),
        vec!["Found 1 port:", "  x", "    Type: Bluetooth"]
    );
}

#[test]
fn hex_ids() {
    assert_eq!(hex4_string(0), "0000");
    assert_eq!(hex4_string(0xabcd), "abcd");
    assert_eq!(hex4_string(0x00f1), "00f1");
}

#[test]
fn georgi_by_manufacturer_or_product() {
    let ports = vec![
        PortInfo {
            port_name: "a".to_string(),
            port_type: PortType::Unknown,
        },
        usb("b", Some("other"), Some("Georgi")),
        usb("c", Some("g Heavy Industries"), None),
    ];
    assert_eq!(get_georgi_port(&ports), Some("c".to_string()));
    assert_eq!(SerialMachine::get_georgi_port(&ports), Some("b".to_string()));
    assert_eq!(get_georgi_port(&vec![]), None);
}

#[test]
fn serial_machine_settings() {
    let m = SerialMachine::new("/dev/ttyACM0".to_string()).with_baud_rate(115200);
    assert_eq!(m.port_name, "/dev/ttyACM0");
    assert_eq!(m.baud_rate, 115200);
    assert_eq!(m.read_rate, 10);
    assert_eq!(m.buf_size, 6);
    let d = SerialMachine::default();
    assert_eq!(d.baud_rate, 9600);
}
