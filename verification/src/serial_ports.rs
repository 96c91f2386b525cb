//! Serial ports that a steno machine can be plugged into: the report listing them, and finding
//! the port of a Georgi machine among them. The ports are listed by the operating system; the
//! library works on what was listed.
use crate::applescript::{decimal, decimal_string_usize};
use crate::base::decode::str_eq;
use crate::text::push_str;
use vstd::prelude::*;

verus! {

/// What is known of a port plugged in by USB
#[derive(Debug, PartialEq)]
pub struct UsbPortInfo {
    /// Vendor ID
    pub vid: u16,
    /// Product ID
    pub pid: u16,
    pub serial_number: Option<String>,
    pub manufacturer: Option<String>,
    pub product: Option<String>,
}

/// How a port is connected
#[derive(Debug, PartialEq)]
pub enum PortType {
    UsbPort(UsbPortInfo),
    BluetoothPort,
    PciPort,
    Unknown,
}

/// A serial port found on the system
#[derive(Debug, PartialEq)]
pub struct PortInfo {
    pub port_name: String,
    pub port_type: PortType,
}

/// The text of an optional string; the empty text when there is none
pub open spec fn opt_text(s: Option<String>) -> Seq<char> {
    match s {
        Some(t) => t@,
        None => Seq::empty(),
    }
}

/// A hexadecimal digit, lower case
pub open spec fn hex_digit(d: int) -> char {
    if d < 10 {
        ('0' as int + d) as char
    } else {
        ('a' as int + d - 10) as char
    }
}

/// A 16-bit number as four hexadecimal digits, lower case, with leading zeros
pub open spec fn hex4(v: u16) -> Seq<char> {
    seq![
        hex_digit(v as int / 4096),
        hex_digit((v as int / 256) % 16),
        hex_digit((v as int / 16) % 16),
        hex_digit(v as int % 16),
    ]
}

fn hex_digit_exec(d: u16) -> (c: char)
    requires
        d < 16,
    ensures
        c == hex_digit(d as int),
{
    if d < 10 {
        ((0x30u16 + d) as u8) as char
    } else {
        ((0x61u16 + d - 10) as u8) as char
    }
}

/// A 16-bit number as four hexadecimal digits
pub fn hex4_string(v: u16) -> (r: String)
    ensures
        r@ == hex4(v),
{
    let mut s = String::new();
    crate::text::push_char(&mut s, hex_digit_exec(v / 4096));
    crate::text::push_char(&mut s, hex_digit_exec((v / 256) % 16));
    crate::text::push_char(&mut s, hex_digit_exec((v / 16) % 16));
    crate::text::push_char(&mut s, hex_digit_exec(v % 16));
    assert(s@ =~= hex4(v));
    s
}

/// The first line of the report: how many ports there are
pub open spec fn count_line(n: nat) -> Seq<char> {
    if n == 0 {
        "No ports found."@
    } else if n == 1 {
        "Found 1 port:"@
    } else {
        "Found "@ + decimal(n) + " ports:"@
    }
}

/// The lines of the report about one port: its name, then how it is connected, with the details
/// of a USB port
pub open spec fn port_lines(p: PortInfo) -> Seq<Seq<char>> {
    seq!["  "@ + p.port_name@] + match p.port_type {
        PortType::UsbPort(info) => seq![
            "    Type: USB"@,
            "    VID:"@ + hex4(info.vid) + " PID:"@ + hex4(info.pid),
            "     Serial Number: "@ + opt_text(info.serial_number),
            "      Manufacturer: "@ + opt_text(info.manufacturer),
            "           Product: "@ + opt_text(info.product),
        ],
        PortType::BluetoothPort => seq!["    Type: Bluetooth"@],
        PortType::PciPort => seq!["    Type: PCI"@],
        PortType::Unknown => seq!["    Type: Unknown"@],
    }
}

/// The lines about each port, in order
pub open spec fn ports_lines(ports: Seq<PortInfo>) -> Seq<Seq<char>>
    decreases ports.len(),
{
    if ports.len() == 0 {
        Seq::empty()
    } else {
        ports_lines(ports.drop_last()) + port_lines(ports.last())
    }
}

/// The report on the available ports: how many there are, then the lines about each
pub open spec fn report_spec(ports: Seq<PortInfo>) -> Seq<Seq<char>> {
    seq![count_line(ports.len())] + ports_lines(ports)
}

/// The texts of lines
pub open spec fn lines_view(v: Seq<String>) -> Seq<Seq<char>> {
    v.map_values(|s: String| s@)
}

fn joined(a: &str, b: &str) -> (r: String)
    ensures
        r@ == a@ + b@,
{
    let mut s = a.to_owned();
    push_str(&mut s, b);
    s
}

fn opt_str(s: &Option<String>) -> (r: String)
    ensures
        r@ == opt_text(*s),
{
    match s {
        Some(t) => t.clone(),
        None => String::new(),
    }
}

fn push_line(lines: &mut Vec<String>, line: String)
    ensures
        lines_view(final(lines)@) == lines_view(old(lines)@).push(line@),
{
    let ghost before = lines@;
    lines.push(line);
    assert(lines_view(lines@) =~= lines_view(before).push(line@));
}

/// The lines of the report on the available ports, to be printed one after the other
pub fn ports_report(ports: &Vec<PortInfo>) -> (r: Vec<String>)
    ensures
        lines_view(r@) == report_spec(ports@),
{
    let mut lines: Vec<String> = Vec::new();
    let n = ports.len();
    let first = if n == 0 {
        "No ports found.".to_owned()
    } else if n == 1 {
        "Found 1 port:".to_owned()
    } else {
        let mut s = "Found ".to_owned();
        let count = decimal_string_usize(n);
        push_str(&mut s, count.as_str());
        push_str(&mut s, " ports:");
        s
    };
    push_line(&mut lines, first);
    let mut i: usize = 0;
    while i < n
        invariant
            n == ports.len(),
            i <= n,
            lines_view(lines@) == seq![count_line(n as nat)] + ports_lines(ports@.take(i as int)),
        decreases n - i,
    {
        let ghost before = lines_view(lines@);
        let p = &ports[i];
        push_line(&mut lines, joined("  ", p.port_name.as_str()));
        match &p.port_type {
            PortType::UsbPort(info) => {
                push_line(&mut lines, "    Type: USB".to_owned());
                let vid = hex4_string(info.vid);
                let pid = hex4_string(info.pid);
                let mut ids = joined("    VID:", vid.as_str());
                push_str(&mut ids, " PID:");
                push_str(&mut ids, pid.as_str());
                push_line(&mut lines, ids);
                let serial = opt_str(&info.serial_number);
                push_line(&mut lines, joined("     Serial Number: ", serial.as_str()));
                let manufacturer = opt_str(&info.manufacturer);
                push_line(&mut lines, joined("      Manufacturer: ", manufacturer.as_str()));
                let product = opt_str(&info.product);
                push_line(&mut lines, joined("           Product: ", product.as_str()));
            },
            PortType::BluetoothPort => {
                push_line(&mut lines, "    Type: Bluetooth".to_owned());
            },
            PortType::PciPort => {
                push_line(&mut lines, "    Type: PCI".to_owned());
            },
            PortType::Unknown => {
                push_line(&mut lines, "    Type: Unknown".to_owned());
            },
        }
        proof {
            assert(ports@.take(i + 1).drop_last() =~= ports@.take(i as int));
            assert(lines_view(lines@) =~= before + port_lines(ports@[i as int]));
        }
        i += 1;
    }
    assert(ports@.take(n as int) =~= ports@);
    lines
}

/// The maker of the Georgi steno machine, as its USB port reports it
pub const GEORGI_MANUFACTURER: &'static str = "g Heavy Industries";

/// The product name of the Georgi steno machine, as its USB port reports it
pub const GEORGI_PRODUCT: &'static str = "Georgi";

/// Whether a port is a USB port whose manufacturer is the Georgi's
pub open spec fn made_by_georgi(p: PortInfo) -> bool {
    match p.port_type {
        PortType::UsbPort(info) => match info.manufacturer {
            Some(m) => m@ == GEORGI_MANUFACTURER@,
            None => false,
        },
        _ => false,
    }
}

/// Whether a port is a USB port whose product is the Georgi
pub open spec fn is_georgi_product(p: PortInfo) -> bool {
    match p.port_type {
        PortType::UsbPort(info) => match info.product {
            Some(m) => m@ == GEORGI_PRODUCT@,
            None => false,
        },
        _ => false,
    }
}

/// The name of the first port that a Georgi machine is on, by the manufacturer of its USB port
pub fn get_georgi_port(ports: &Vec<PortInfo>) -> (r: Option<String>)
    ensures
        match r {
            Some(name) => exists|i: int|
                0 <= i < ports@.len() && made_by_georgi(ports@[i]) && (forall|j: int|
                    0 <= j < i ==> !made_by_georgi(#[trigger] ports@[j])) && name@
                    == ports@[i].port_name@,
            None => forall|i: int| 0 <= i < ports@.len() ==> !made_by_georgi(#[trigger] ports@[i]),
        },
{
    let mut i: usize = 0;
    while i < ports.len()
        invariant
            i <= ports.len(),
            forall|j: int| 0 <= j < i ==> !made_by_georgi(#[trigger] ports@[j]),
        decreases ports.len() - i,
    {
        if let PortType::UsbPort(info) = &ports[i].port_type {
            if let Some(m) = &info.manufacturer {
                if str_eq(m.as_str(), GEORGI_MANUFACTURER) {
                    return Some(ports[i].port_name.clone());
                }
            }
        }
        i += 1;
    }
    None
}

/// Ports to read a steno machine from
pub struct SerialMachine {
    /// How often to poll for reads, in milliseconds
    pub read_rate: u64,
    /// How many bytes are read at a time
    pub buf_size: usize,
    pub port_name: String,
    pub baud_rate: u32,
}

impl Default for SerialMachine {
    fn default() -> (m: Self)
        ensures
            m.read_rate == 10,
            m.buf_size == 6,
            m.port_name@ == Seq::<char>::empty(),
            m.baud_rate == 9600,
    {
        Self { read_rate: 10, buf_size: 6, port_name: String::new(), baud_rate: 9600 }
    }
}

impl SerialMachine {
    /// The machine on a port, with the default settings
    pub fn new(port_name: String) -> (m: Self)
        ensures
            m.read_rate == 10,
            m.buf_size == 6,
            m.port_name@ == port_name@,
            m.baud_rate == 9600,
    {
        Self { port_name, ..Self::default() }
    }

    /// The machine with another baud rate
    pub fn with_baud_rate(self, baud_rate: u32) -> (m: Self)
        ensures
            m.read_rate == self.read_rate,
            m.buf_size == self.buf_size,
            m.port_name@ == self.port_name@,
            m.baud_rate == baud_rate,
    {
        Self { baud_rate, ..self }
    }

    /// The name of the first port that a Georgi machine is on, by the product of its USB port
    pub fn get_georgi_port(ports: &Vec<PortInfo>) -> (r: Option<String>)
        ensures
            match r {
                Some(name) => exists|i: int|
                    0 <= i < ports@.len() && is_georgi_product(ports@[i]) && (forall|j: int|
                        0 <= j < i ==> !is_georgi_product(#[trigger] ports@[j])) && name@
                        == ports@[i].port_name@,
                None => forall|i: int|
                    0 <= i < ports@.len() ==> !is_georgi_product(#[trigger] ports@[i]),
            },
    {
        let mut i: usize = 0;
        while i < ports.len()
            invariant
                i <= ports.len(),
                forall|j: int| 0 <= j < i ==> !is_georgi_product(#[trigger] ports@[j]),
            decreases ports.len() - i,
        {
            if let PortType::UsbPort(info) = &ports[i].port_type {
                if let Some(m) = &info.product {
                    if str_eq(m.as_str(), GEORGI_PRODUCT) {
                        return Some(ports[i].port_name.clone());
                    }
                }
            }
            i += 1;
        }
        None
    }
}

} // verus!
