use vstd::prelude::*;
use crate::text::{nat_text, push_nat};

verus! {

/// Transport of a discovered serial device.
#[derive(Clone, Copy, Debug, PartialEq, Eq, Structural)]
pub enum PortKind {
    /// A USB device, with its vendor and product ids.
    Usb { vid: u16, pid: u16 },
    Pci,
    Bluetooth,
    Unknown,
}

/// A serial device as the system enumerates it.
pub struct PortDescriptor {
    pub name: String,
    pub kind: PortKind,
}

/// An available serial port: its system name and a title for display.
pub struct PortInfo {
    pub name: String,
    pub title: String,
}

/// A port entry as handed to a user interface.
pub struct PortInfoDto {
    pub name: String,
    pub title: String,
}

/// The display title of a port: its name, followed by a hint of its transport.
pub open spec fn port_title_spec(name: Seq<char>, kind: PortKind) -> Seq<char> {
    match kind {
        PortKind::Usb { vid, pid } => name + " (USB "@ + nat_text(vid as nat) + ":"@ + nat_text(
            pid as nat,
        ) + ")"@,
        PortKind::Pci => name + " (PCI)"@,
        PortKind::Bluetooth => name + " (Bluetooth)"@,
        PortKind::Unknown => name,
    }
}

/// The display title of a port.
pub fn port_title(name: &String, kind: PortKind) -> (r: String)
    ensures
        r@ == port_title_spec(name@, kind),
{
    let mut t = name.clone();
    match kind {
        PortKind::Usb { vid, pid } => {
            t.append(" (USB ");
            push_nat(&mut t, vid as u64);
            t.append(":");
            push_nat(&mut t, pid as u64);
            t.append(")");
            proof {
                assert(t@ =~= port_title_spec(name@, kind));
            }
        },
        PortKind::Pci => {
            t.append(" (PCI)");
        },
        PortKind::Bluetooth => {
            t.append(" (Bluetooth)");
        },
        PortKind::Unknown => {},
    }
    t
}

/// The ports to offer for connection, one per discovered device, in the order
/// of discovery, each titled by its transport.
pub fn list_ports(found: &Vec<PortDescriptor>) -> (r: Vec<PortInfo>)
    ensures
        r@.len() == found@.len(),
        forall|i: int|
            0 <= i < r@.len() ==> r@[i].name@ == found@[i].name@ && r@[i].title@
                == port_title_spec(found@[i].name@, found@[i].kind),
{
    let mut r: Vec<PortInfo> = Vec::new();
    let mut i: usize = 0;
    while i < found.len()
        invariant
            i <= found@.len(),
            r@.len() == i,
            forall|j: int|
                0 <= j < i ==> r@[j].name@ == found@[j].name@ && r@[j].title@ == port_title_spec(
                    found@[j].name@,
                    found@[j].kind,
                ),
        decreases found@.len() - i,
    {
        let d = &found[i];
        let title = port_title(&d.name, d.kind);
        r.push(PortInfo { name: d.name.clone(), title });
        i = i + 1;
    }
    r
}

/// The two stand-in ports offered when no hardware is used.
pub fn mock_ports() -> (r: Vec<PortInfoDto>)
    ensures
        r@.len() == 2,
        r@[0].name@ == "COM3"@,
        r@[0].title@ == "Mock CNC (COM3)"@,
        r@[1].name@ == "/dev/ttyUSB0"@,
        r@[1].title@ == "Mock CNC (ttyUSB0)"@,
{
    let mut r: Vec<PortInfoDto> = Vec::new();
    r.push(
        PortInfoDto {
            name: String::from_str("COM3"),
            title: String::from_str("Mock CNC (COM3)"),
        },
    );
    r.push(
        PortInfoDto {
            name: String::from_str("/dev/ttyUSB0"),
            title: String::from_str("Mock CNC (ttyUSB0)"),
        },
    );
    r
}

} // verus!
