//! The description of a device family: its USB ids and how a port of it is
//! opened.
use vstd::prelude::*;
use crate::protocol::DeviceError;

verus! {

/// A family of USB serial devices that a registry can manage.
pub trait SerialDevice {
    /// The handle to an open device that the registry hands out.
    type Device;

    /// The USB vendor id of the family.
    const VID: u16;

    /// The USB product id of the family.
    const PID: u16;

    /// Opens the device on the port `path`.
    fn open(path: &str) -> Result<Self::Device, DeviceError>;
}

/// The USB vendor and product ids of a port.
#[derive(Clone, Copy, Debug, PartialEq, Eq, Structural)]
pub struct UsbIds {
    pub vid: u16,
    pub pid: u16,
}

/// A serial port as enumeration reports it.
#[derive(Clone, Debug)]
pub struct PortInfo {
    /// The port's identifier, an OS path or handle name.
    pub port_name: String,
    /// The USB ids, for a USB port.
    pub usb: Option<UsbIds>,
}

/// Whether the port is a USB port with the ids `vid` and `pid`.
pub open spec fn port_matches(p: PortInfo, vid: u16, pid: u16) -> bool {
    p.usb == Some(UsbIds { vid, pid })
}

/// The names of the ports with the USB ids `vid` and `pid`, in order.
pub open spec fn matching_names(ports: Seq<PortInfo>, vid: u16, pid: u16) -> Seq<Seq<char>>
    decreases ports.len(),
{
    if ports.len() == 0 {
        Seq::empty()
    } else {
        let rest = matching_names(ports.drop_last(), vid, pid);
        if port_matches(ports.last(), vid, pid) {
            rest.push(ports.last().port_name@)
        } else {
            rest
        }
    }
}

/// The names of the ports with the USB ids `vid` and `pid`, in order.
pub fn matching_port_names(ports: &Vec<PortInfo>, vid: u16, pid: u16) -> (r: Vec<String>)
    ensures
        r@.map_values(|s: String| s@) == matching_names(ports@, vid, pid),
{
    let mut r: Vec<String> = Vec::new();
    let mut i: usize = 0;
    while i < ports.len()
        invariant
            i <= ports@.len(),
            r@.map_values(|s: String| s@) == matching_names(ports@.subrange(0, i as int), vid, pid),
        decreases ports@.len() - i,
    {
        let ghost prev = ports@.subrange(0, i as int);
        assert(ports@.subrange(0, i + 1).drop_last() =~= prev);
        let p = &ports[i];
        let is_match = match p.usb {
            Some(ids) => ids.vid == vid && ids.pid == pid,
            None => false,
        };
        if is_match {
            r.push(p.port_name.clone());
            assert(r@.map_values(|s: String| s@) =~= matching_names(prev, vid, pid).push(
                p.port_name@,
            ));
        }
        i = i + 1;
    }
    assert(ports@.subrange(0, ports@.len() as int) =~= ports@);
    r
}

} // verus!
