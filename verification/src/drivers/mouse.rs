//! PS/2 mouse: assembling packets and reading the scroll wheel.
//!
//! A mouse with a wheel sends packets of four bytes, one without sends
//! three.  The first byte of a packet always has bit 3 set, which is used to
//! find the start of a packet again after bytes were lost.  Only the wheel is
//! looked at; movement is ignored.

use vstd::prelude::*;

verus! {

/// Status bits of the controller that must both be set for a byte from the
/// mouse to be waiting: output buffer full, and data from the auxiliary port.
pub const STATUS_MOUSE_DATA: u8 = 0x21;

/// The bit that is set in the first byte of every packet.
pub const PACKET_SYNC: u8 = 0x08;

/// A turn of the wheel.
#[derive(Clone, Copy, Debug, PartialEq, Eq, Structural)]
pub enum ScrollEvent {
    Up,
    Down,
}

/// The packet that is being assembled.
pub struct Mouse {
    packet: [u8; 4],
    packet_idx: usize,
    has_scroll_wheel: bool,
}

/// The mouse as plain values.
pub struct MouseView {
    /// The bytes of the packet received so far.
    pub received: Seq<u8>,
    /// Whether the mouse has a wheel.
    pub wheel: bool,
}

/// What the device id that the mouse reports says about a wheel.
pub open spec fn id_has_wheel(device_id: u8) -> bool {
    device_id == 3 || device_id == 4
}

/// The event that a complete packet with the wheel byte `z` stands for: the
/// byte is a signed count, negative for a turn upwards.
pub open spec fn wheel_event(z: u8) -> Option<ScrollEvent> {
    if z >= 128 {
        Some(ScrollEvent::Up)
    } else if z > 0 {
        Some(ScrollEvent::Down)
    } else {
        None
    }
}

/// What polling leads to, given the status byte of the controller and the
/// byte that waits in its data port: the mouse afterwards and the event.
pub open spec fn poll_outcome(m: MouseView, status: u8, byte: u8) -> (MouseView, Option<ScrollEvent>) {
    let size: int = if m.wheel { 4 } else { 3 };
    if status & STATUS_MOUSE_DATA != STATUS_MOUSE_DATA {
        (m, None)
    } else if m.received.len() == 0 && byte & PACKET_SYNC == 0 {
        (m, None)
    } else if m.received.len() + 1 >= size {
        (
            MouseView { received: Seq::empty(), wheel: m.wheel },
            if m.wheel {
                wheel_event(byte)
            } else {
                None
            },
        )
    } else {
        (MouseView { received: m.received.push(byte), wheel: m.wheel }, None)
    }
}

impl Mouse {
    /// The mouse as plain values.
    pub closed spec fn view(&self) -> MouseView {
        MouseView { received: self.packet@.subrange(0, self.packet_idx as int), wheel: self.has_scroll_wheel }
    }

    /// The packet under assembly is not complete.
    pub closed spec fn wf(&self) -> bool {
        self.packet_idx < if self.has_scroll_wheel { 4usize } else { 3usize }
    }

    /// A mouse that reported `device_id` when asked for its kind, with no
    /// byte of a packet received.
    pub fn new(device_id: u8) -> (m: Mouse)
        ensures
            m.wf(),
            m@.received.len() == 0,
            m@.wheel == id_has_wheel(device_id),
    {
        Mouse { packet: [0u8; 4], packet_idx: 0, has_scroll_wheel: device_id == 3 || device_id == 4 }
    }

    /// Whether the mouse has a wheel.
    pub fn has_wheel(&self) -> (r: bool)
        ensures
            r == self@.wheel,
    {
        self.has_scroll_wheel
    }
}

/// Takes the byte `byte` from the mouse if the status byte `status` of the
/// controller says that one is waiting, and returns the turn of the wheel
/// that a packet completed by it reports.
///
/// A byte that cannot start a packet is dropped while no packet is under
/// way.
pub fn poll(mouse: &mut Mouse, status: u8, byte: u8) -> (r: Option<ScrollEvent>)
    requires
        old(mouse).wf(),
    ensures
        final(mouse).wf(),
        final(mouse)@ == poll_outcome(old(mouse)@, status, byte).0,
        r == poll_outcome(old(mouse)@, status, byte).1,
{
    if status & STATUS_MOUSE_DATA != STATUS_MOUSE_DATA {
        return None;
    }
    let packet_size: usize = if mouse.has_scroll_wheel { 4 } else { 3 };
    if mouse.packet_idx == 0 && (byte & PACKET_SYNC) == 0 {
        return None;
    }
    let at: usize = mouse.packet_idx;
    mouse.packet[at] = byte;
    mouse.packet_idx += 1;
    proof {
        assert(mouse.packet@.subrange(0, mouse.packet_idx as int) =~= old(mouse)@.received.push(byte));
    }
    if mouse.packet_idx >= packet_size {
        mouse.packet_idx = 0;
        proof {
            assert(mouse@.received =~= Seq::<u8>::empty());
        }
        if mouse.has_scroll_wheel {
            let z: u8 = mouse.packet[3];
            if z >= 128 {
                return Some(ScrollEvent::Up);
            } else if z > 0 {
                return Some(ScrollEvent::Down);
            }
        }
    }
    None
}

} // verus!
