//! The rules of a vhost-user port: which virtqueue carries what, and how its
//! descriptor chains are completed.
//!
//! A port serves one virtio-net queue pair as two vrings. Frames for the guest
//! go through the first, frames of the guest through the second. Frames are
//! raw Ethernet.

use vstd::prelude::*;

verus! {

/// The number of virtqueues of a port.
pub const NUM_QUEUES: usize = 2;

/// The vring of the frames for the guest.
pub const RX_VRING: usize = 0;

/// The vring of the frames of the guest.
pub const TX_VRING: usize = 1;

/// The most descriptors that a queue has.
pub const QUEUE_SIZE: u16 = 256;

/// The feature bit of virtio 1.0.
pub const VIRTIO_F_VERSION_1: u64 = 0x1_0000_0000;

/// The feature bit of the vhost-user protocol features.
pub const VHOST_USER_PROTOCOL: u64 = 0x4000_0000;

/// The flag of a descriptor whose buffer the device writes.
pub const VIRTQ_DESC_F_WRITE: u16 = 2;

/// The size of a descriptor.
pub const DESCRIPTOR_LEN: u64 = 16;

/// Where the flags of a descriptor are in it.
pub const DESCRIPTOR_FLAGS: u64 = 12;

/// A frame between a port and the switch.
#[derive(Debug, PartialEq, Eq)]
pub enum PortMessage {
    /// A frame that the VM gets.
    ToVm(Vec<u8>),
    /// A frame that the VM sends.
    FromVm(Vec<u8>),
}

/// The number of virtqueues that a port serves.
pub fn num_queues() -> (r: usize)
    ensures
        r == 2,
{
    NUM_QUEUES
}

/// The features that a port offers.
pub fn features() -> (r: u64)
    ensures
        r == VIRTIO_F_VERSION_1 | VHOST_USER_PROTOCOL,
        r == 0x1_4000_0000,
{
    assert(0x1_0000_0000u64 | 0x4000_0000u64 == 0x1_4000_0000u64) by (bit_vector);
    VIRTIO_F_VERSION_1 | VHOST_USER_PROTOCOL
}

/// Which way a vring carries frames.
#[derive(Debug, Clone, Copy, PartialEq, Eq, Structural)]
pub enum Direction {
    /// To the guest.
    Rx,
    /// From the guest.
    Tx,
}

/// Which way the vring that an event is for carries frames; events for others
/// are ignored.
pub fn direction_of(device_event: u16) -> (r: Option<Direction>)
    ensures
        r == (if device_event == RX_VRING {
            Some(Direction::Rx)
        } else if device_event == TX_VRING {
            Some(Direction::Tx)
        } else {
            None
        }),
{
    if device_event as usize == RX_VRING {
        Some(Direction::Rx)
    } else if device_event as usize == TX_VRING {
        Some(Direction::Tx)
    } else {
        None
    }
}

/// Where the flags of the descriptor `head` are in the guest's memory; none
/// without a descriptor table, or where its end is out of all memory.
pub fn flags_address(desc_table: u64, head: u16) -> (r: Option<u64>)
    ensures
        r == (if desc_table != 0 && desc_table + DESCRIPTOR_LEN * head + DESCRIPTOR_FLAGS
            <= u64::MAX {
            Some((desc_table + DESCRIPTOR_LEN * head + DESCRIPTOR_FLAGS) as u64)
        } else {
            None
        }),
{
    let offset: u64 = DESCRIPTOR_LEN * head as u64 + DESCRIPTOR_FLAGS;
    if desc_table == 0 || offset > u64::MAX - desc_table {
        return None;
    }
    Some(desc_table + offset)
}

/// Whether a descriptor with the given flags has a buffer that the device
/// writes.
pub open spec fn writable(flags: u16) -> bool {
    flags / 2 % 2 == 1
}

/// Whether a descriptor with the given flags has a buffer that the device
/// writes.
pub fn is_writable(flags: u16) -> (r: bool)
    ensures
        r == writable(flags),
{
    assert((flags & 2 != 0) == (flags / 2 % 2 == 1)) by (bit_vector);
    flags & VIRTQ_DESC_F_WRITE != 0
}

/// How the chain of a descriptor with the given flags, with `available` bytes
/// to read, is completed as one of the guest's frames: whether it is read as a
/// frame, and the length that is reported. A chain that the device writes is
/// no frame, and nothing is read of it.
pub fn tx_completion(flags: u16, available: usize) -> (r: (bool, u32))
    ensures
        r.0 == !writable(flags),
        r.1 == (if writable(flags) {
            0
        } else {
            available as int % 0x1_0000_0000
        }),
{
    if is_writable(flags) {
        return (false, 0);
    }
    (true, (available as u64 % 0x1_0000_0000) as u32)
}

/// The frame for the guest in what came, where the chain of a descriptor with
/// the given flags has room for it.
pub open spec fn delivered(
    flags: u16,
    capacity: usize,
    message: Option<&PortMessage>,
) -> Option<Seq<u8>> {
    match message {
        Some(PortMessage::ToVm(f)) => if writable(flags) && f.len() <= capacity {
            Some(f@)
        } else {
            None
        },
        _ => None,
    }
}

/// How the chain of a descriptor with the given flags, with room for
/// `capacity` bytes, is completed with what came for the guest: whether the
/// frame is written, and the length that is reported. Nothing is written to a
/// chain that the device does not write, of a frame that has no room, or where
/// no frame for the guest came.
pub fn rx_completion(flags: u16, capacity: usize, message: Option<&PortMessage>) -> (r: (bool, u32))
    ensures
        r.0 == (delivered(flags, capacity, message) is Some),
        r.1 == (match delivered(flags, capacity, message) {
            Some(f) => f.len() as int % 0x1_0000_0000,
            None => 0,
        }),
{
    if !is_writable(flags) {
        return (false, 0);
    }
    match message {
        Some(PortMessage::ToVm(frame)) => if frame.len() <= capacity {
            (true, (frame.len() as u64 % 0x1_0000_0000) as u32)
        } else {
            (false, 0)
        },
        _ => (false, 0),
    }
}

// -- the memory of a frontend -------------------------------------------------

/// Where the memory of a guest starts.
pub const GUEST_BASE: u64 = 0x1000_0000;

/// How much memory a guest has.
pub const REGION_SIZE: u64 = 0x10_0000;

/// How far the areas of two vrings are apart.
pub const VRING_STRIDE: u64 = 0x4_0000;

/// Where the descriptor table is in the area of a vring.
pub const DESC_TABLE_OFFSET: u64 = 0;

/// Where the used ring is in the area of a vring.
pub const USED_RING_OFFSET: u64 = 0x1_0000;

/// Where the available ring is in the area of a vring.
pub const AVAIL_RING_OFFSET: u64 = 0x2_0000;

/// Where buffers can be placed, behind the areas of the vrings.
pub const DATA_OFFSET: u64 = 0x8_0000;

/// Where the three parts of a vring are.
#[derive(Debug, Clone, Copy, PartialEq, Eq, Structural)]
pub struct RingAddresses {
    pub desc_table: u64,
    pub used_ring: u64,
    pub avail_ring: u64,
}

/// Where the parts of a vring are in memory that starts at `base`.
pub open spec fn rings_at(base: int, vring: int) -> (int, int, int) {
    let area = base + vring * VRING_STRIDE;
    (area + DESC_TABLE_OFFSET, area + USED_RING_OFFSET, area + AVAIL_RING_OFFSET)
}

/// Where the parts of a vring are in memory that is mapped at `base`.
pub fn ring_addresses(base: u64, vring: usize) -> (r: RingAddresses)
    requires
        vring < NUM_QUEUES,
        base + REGION_SIZE <= u64::MAX,
    ensures
        (r.desc_table as int, r.used_ring as int, r.avail_ring as int) == rings_at(
            base as int,
            vring as int,
        ),
{
    let area: u64 = base + vring as u64 * VRING_STRIDE;
    RingAddresses {
        desc_table: area + DESC_TABLE_OFFSET,
        used_ring: area + USED_RING_OFFSET,
        avail_ring: area + AVAIL_RING_OFFSET,
    }
}

/// The features that a frontend sets, where the port offers `offered`: these,
/// and virtio 1.0.
pub fn accepted_features(offered: u64) -> (r: u64)
    ensures
        r == offered | VIRTIO_F_VERSION_1,
        r & offered == offered,
        r & VIRTIO_F_VERSION_1 == VIRTIO_F_VERSION_1,
{
    assert((offered | 0x1_0000_0000u64) & offered == offered) by (bit_vector);
    assert((offered | 0x1_0000_0000u64) & 0x1_0000_0000u64 == 0x1_0000_0000u64) by (bit_vector);
    offered | VIRTIO_F_VERSION_1
}

/// The length of a descriptor table.
pub open spec fn desc_table_len() -> int {
    DESCRIPTOR_LEN * QUEUE_SIZE
}

/// The length of a used ring: flags, an index, an identifier and a length for
/// each descriptor, and an event index.
pub open spec fn used_ring_len() -> int {
    6 + 8 * QUEUE_SIZE
}

/// The length of an available ring: flags, an index, the head of each chain,
/// and an event index.
pub open spec fn avail_ring_len() -> int {
    6 + 2 * QUEUE_SIZE
}

/// The parts of the two vrings follow each other without overlapping, all of
/// them before the buffers, which are in the guest's memory.
pub proof fn law_rings_do_not_overlap(base: int, vring: int)
    requires
        0 <= vring < NUM_QUEUES,
    ensures
        ({
            let (desc, used, avail) = rings_at(base, vring);
            &&& base <= desc
            &&& desc + desc_table_len() <= used
            &&& used + used_ring_len() <= avail
            &&& vring + 1 < NUM_QUEUES ==> avail + avail_ring_len() <= rings_at(base, vring + 1).0
            &&& avail + avail_ring_len() <= base + DATA_OFFSET
            &&& DATA_OFFSET < REGION_SIZE
        }),
{
}

/// Every frame for the guest that has room in a chain which the device writes
/// is delivered whole, whatever its bytes and its length; nothing else is.
pub proof fn law_every_frame_with_room_is_delivered(
    flags: u16,
    capacity: usize,
    message: &PortMessage,
)
    ensures
        delivered(flags, capacity, None) is None,
        message matches PortMessage::ToVm(f) ==> delivered(flags, capacity, Some(message)) == (
        if flags & 2 != 0 && f@.len() <= capacity {
            Some(f@)
        } else {
            None
        }),
        message is FromVm ==> delivered(flags, capacity, Some(message)) is None,
        writable(flags) <==> flags & 2 != 0,
{
    assert((flags & 2 != 0) == (flags / 2 % 2 == 1)) by (bit_vector);
}

} // verus!
