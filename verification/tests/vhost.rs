//! The rules of a vhost-user port.

use k8netd::vhost::{
    accepted_features, direction_of, features, flags_address, num_queues, ring_addresses, rx_completion,
    tx_completion, Direction, PortMessage, RingAddresses, GUEST_BASE, RX_VRING, TX_VRING,
};

#[test]
fn one_queue_pair_is_two_vrings() {
    assert_eq!(num_queues(), 2);
    assert_eq!(direction_of(RX_VRING as u16), Some(Direction::Rx));
    assert_eq!(direction_of(TX_VRING as u16), Some(Direction::Tx));
    assert_eq!(direction_of(2), None);
    assert_eq!(features(), 1 << 32 | 1 << 30);
}

#[test]
fn flags_are_at_the_end_of_a_descriptor() {
    assert_eq!(flags_address(0x1000, 0), Some(0x100c));
    assert_eq!(flags_address(0x1000, 3), Some(0x103c));
    assert_eq!(flags_address(0, 3), None);
    assert_eq!(flags_address(u64::MAX - 10, 0), None);
}

#[test]
fn frames_of_the_guest_are_read_whole() {
    assert_eq!(tx_completion(0, 78), (true, 78));
    assert_eq!(tx_completion(1, 78), (true, 78));
    assert_eq!(tx_completion(2, 78), (false, 0), "the device does not read what it writes");
    assert_eq!(tx_completion(3, 78), (false, 0));
}

#[test]
fn frames_for_the_guest_need_room() {
    let frame = PortMessage::ToVm(vec![1, 2, 3]);
    assert_eq!(rx_completion(2, 3, Some(&frame)), (true, 3));
    assert_eq!(rx_completion(2, 2, Some(&frame)), (false, 0));
    assert_eq!(rx_completion(0, 3, Some(&frame)), (false, 0));
    assert_eq!(rx_completion(2, 3, None), (false, 0));
    assert_eq!(
        rx_completion(2, 3, Some(&PortMessage::FromVm(vec![1]))),
        (false, 0),
        "a frame of the guest is not given back to it"
    );
}

#[test]
fn vrings_have_areas_of_their_own() {
    assert_eq!(
        ring_addresses(GUEST_BASE, RX_VRING),
        RingAddresses { desc_table: 0x1000_0000, used_ring: 0x1001_0000, avail_ring: 0x1002_0000 }
    );
    assert_eq!(
        ring_addresses(GUEST_BASE, TX_VRING),
        RingAddresses { desc_table: 0x1004_0000, used_ring: 0x1005_0000, avail_ring: 0x1006_0000 }
    );
}

#[test]
fn frontends_accept_what_is_offered() {
    assert_eq!(accepted_features(features()), features());
    assert_eq!(accepted_features(1 << 30), features());
    assert_eq!(accepted_features(0), 1 << 32);
}
