//! IPv4 packets in Ethernet frames: reading them, checksums, and the replies
//! that the gateway sends.

use vstd::prelude::*;
use vstd::slice::slice_subrange;

use crate::bytes;
use crate::bytes::{push_all, push_be16, read_be16};
use crate::model::{Ipv4Addr, MacAddr};
use crate::net;
use crate::switch::gateway;
use crate::switch::gateway::{gateway_mac, read_address, ETHERTYPE_IPV4};
use crate::text;
use crate::text::{push_hex_byte, string_of};

verus! {

/// The IPv4 protocol number of ICMP.
pub const IPPROTO_ICMP: u8 = 1;

/// The IPv4 protocol number of UDP.
pub const IPPROTO_UDP: u8 = 17;

/// The ICMP message type of an echo request.
pub const ICMP_ECHO_REQUEST: u8 = 8;

/// The ICMP message type of an echo reply.
pub const ICMP_ECHO_REPLY: u8 = 0;

// -- checksums ----------------------------------------------------------------

/// The sum of the 16-bit words of `data`; an odd last byte is the high byte
/// of a word.
pub open spec fn word_sum(data: Seq<u8>) -> nat
    decreases data.len(),
{
    if data.len() == 0 {
        0
    } else if data.len() == 1 {
        data[0] as nat * 256
    } else {
        (bytes::be16(data[0], data[1]) + word_sum(data.skip(2))) as nat
    }
}

/// `s` in 16 bits, what does not fit being added to what does.
pub open spec fn carried(s: nat) -> nat
    decreases s,
{
    if s < 0x1_0000 {
        s
    } else {
        carried(s % 0x1_0000 + s / 0x1_0000)
    }
}

/// The Internet checksum of `data`: the ones' complement of the ones'
/// complement sum of its words.
pub open spec fn checksum(data: Seq<u8>) -> u16 {
    (0xffff - carried(word_sum(data))) as u16
}

/// A carried sum fits in 16 bits.
pub proof fn lemma_carried_fits(s: nat)
    ensures
        carried(s) < 0x1_0000,
    decreases s,
{
    if s >= 0x1_0000 {
        lemma_carried_fits(s % 0x1_0000 + s / 0x1_0000);
    }
}

/// Adding the next word to the sum of those before it.
proof fn lemma_word_sum_step(data: Seq<u8>, i: int)
    requires
        0 <= i <= data.len(),
        i % 2 == 0,
    ensures
        word_sum(data) == word_sum(data.take(i)) + word_sum(data.skip(i)),
    decreases i,
{
    if i == 0 {
        assert(data.skip(0) =~= data);
        assert(data.take(0) =~= Seq::<u8>::empty());
    } else {
        assert(i >= 2);
        lemma_word_sum_step(data.skip(2), i - 2);
        assert(data.skip(2).take(i - 2) =~= data.take(i).skip(2));
        assert(data.skip(2).skip(i - 2) =~= data.skip(i));
    }
}

/// The Internet checksum of `data`.
pub fn inet_checksum(data: &[u8]) -> (r: u16)
    ensures
        r == checksum(data@),
{
    let mut sum: u128 = 0;
    let mut i: usize = 0;
    assert(data@.take(0) =~= Seq::<u8>::empty());
    while data.len() - i >= 2
        invariant
            i <= data.len(),
            i % 2 == 0,
            sum == word_sum(data@.take(i as int)),
            sum <= i * 0xffff,
        decreases data.len() - i,
    {
        proof {
            let t = data@.take(i + 2);
            lemma_word_sum_step(t, i as int);
            assert(t.take(i as int) =~= data@.take(i as int));
            let w = t.skip(i as int);
            assert(w.skip(2) =~= Seq::<u8>::empty());
            assert(w[0] == data@[i as int] && w[1] == data@[i + 1]);
            assert(word_sum(w) == bytes::be16(w[0], w[1]) + word_sum(w.skip(2)));
            assert(word_sum(w.skip(2)) == 0);
        }
        sum = sum + read_be16(data[i], data[i + 1]) as u128;
        i = i + 2;
    }
    if i < data.len() {
        proof {
            lemma_word_sum_step(data@, i as int);
            assert(data@.skip(i as int).len() == 1);
            assert(data@.skip(i as int)[0] == data@[i as int]);
        }
        sum = sum + data[i] as u128 * 256;
    } else {
        assert(data@.take(i as int) =~= data@);
    }
    let ghost total = sum as nat;
    while sum >= 0x1_0000
        invariant
            carried(sum as nat) == carried(total),
        decreases sum,
    {
        sum = sum % 0x1_0000 + sum / 0x1_0000;
    }
    0xffff - sum as u16
}

/// The checksum of an IPv4 header without options.
pub fn ipv4_checksum(header: &[u8; 20]) -> (r: u16)
    ensures
        r == checksum(header@),
{
    inet_checksum(header.as_slice())
}

/// A sum and what is left of it after carrying are the same but for a
/// multiple of 0xffff, and a sum that is not zero does not become zero.
proof fn lemma_carried_mod(s: nat)
    ensures
        carried(s) % 0xffff == s % 0xffff,
        s > 0 ==> carried(s) > 0,
        carried(s) <= s,
    decreases s,
{
    if s >= 0x1_0000 {
        let t = s % 0x1_0000 + s / 0x1_0000;
        lemma_carried_mod(t);
        let q = s / 0x1_0000;
        assert(s == q * 0xffff + t);
        assert(s % 0xffff == t % 0xffff) by (nonlinear_arith)
            requires
                s == q * 0xffff + t,
                q >= 0,
                t >= 0,
        ;
    }
}

/// A checksum put in the place of two zero bytes, at an even offset, makes
/// the whole sum up: what carries its own checksum has the checksum 0.
pub proof fn law_checksum_verifies(data: Seq<u8>, at: int)
    requires
        0 <= at,
        at + 2 <= data.len(),
        at % 2 == 0,
        data[at] == 0,
        data[at + 1] == 0,
    ensures
        checksum(
            data.take(at) + bytes::be16_bytes(checksum(data)) + data.skip(at + 2),
        ) == 0,
{
    let c = checksum(data);
    let full = data.take(at) + bytes::be16_bytes(c) + data.skip(at + 2);
    let s = word_sum(data);
    lemma_carried_fits(s);
    lemma_carried_mod(s);
    lemma_word_sum_step(data, at);
    lemma_word_sum_step(full, at);
    assert(full.take(at) =~= data.take(at));
    let d = data.skip(at);
    let e = full.skip(at);
    assert(d[0] == 0 && d[1] == 0);
    assert(e[0] == bytes::be16_bytes(c)[0] && e[1] == bytes::be16_bytes(c)[1]);
    assert(d.skip(2) =~= data.skip(at + 2));
    assert(e.skip(2) =~= data.skip(at + 2));
    assert(word_sum(e) == bytes::be16(e[0], e[1]) + word_sum(e.skip(2)));
    assert(word_sum(d) == bytes::be16(d[0], d[1]) + word_sum(d.skip(2)));
    let t = word_sum(full);
    assert(t == s + 0xffff - carried(s));
    lemma_carried_mod(t);
    lemma_carried_fits(t);
    assert(t % 0xffff == 0) by (nonlinear_arith)
        requires
            t == s + 0xffff - carried(s),
            carried(s) % 0xffff == s % 0xffff,
    ;
    assert(carried(t) == 0xffff);
}

// -- reading ------------------------------------------------------------------

/// An IPv4 packet.
#[derive(Debug, Clone, Copy, PartialEq, Eq)]
pub struct Ipv4Frame<'a> {
    pub src: Ipv4Addr,
    pub dst: Ipv4Addr,
    /// The protocol number.
    pub proto: u8,
    /// What follows the header.
    pub payload: &'a [u8],
}

/// What an [`Ipv4Frame`] holds.
pub struct PacketView {
    pub src: Ipv4Addr,
    pub dst: Ipv4Addr,
    pub proto: u8,
    pub payload: Seq<u8>,
}

impl<'a> View for Ipv4Frame<'a> {
    type V = PacketView;

    open spec fn view(&self) -> PacketView {
        PacketView { src: self.src, dst: self.dst, proto: self.proto, payload: self.payload@ }
    }
}

/// The ethertype of `frame`, where it is long enough to have one.
pub fn ethertype(frame: &[u8]) -> (r: Option<u16>)
    ensures
        r == ethertype_of(frame@),
{
    if frame.len() < 14 {
        return None;
    }
    Some(read_be16(frame[12], frame[13]))
}

/// The ethertype of `f`.
pub open spec fn ethertype_of(f: Seq<u8>) -> Option<u16> {
    if f.len() < 14 {
        None
    } else {
        Some(bytes::be16(f[12], f[13]) as u16)
    }
}

/// Whether `p` is the number of a protocol that packets are expected to carry:
/// ICMP, TCP, UDP, GRE, ESP, AH or ICMPv6.
pub open spec fn routable(p: u8) -> bool {
    p == 1 || p == 6 || p == 17 || p == 47 || p == 50 || p == 51 || p == 58
}

/// How many bytes the IPv4 header in the frame `f` lacks, where it holds one.
///
/// In the usual form it lacks none, and the number of a protocol that can be
/// expected stands at byte 23. Where none stands there, a header without
/// options may have the compact form, in which one byte, the time to live, is
/// missing, so that all that follows stands one byte earlier.
pub open spec fn header_lacks(f: Seq<u8>) -> Option<int> {
    if ethertype_of(f) != Some(ETHERTYPE_IPV4) || f.len() < 15 || f[14] / 16 != 4 || f[14] % 16 < 5
        || 14 + (f[14] % 16) * 4 > f.len() {
        None
    } else if routable(f[23]) {
        Some(0)
    } else if f[14] % 16 == 5 && routable(f[22]) {
        Some(1)
    } else {
        None
    }
}

/// The IPv4 packet in the frame `f`; options of the header are passed over.
pub open spec fn packet_in(f: Seq<u8>) -> Option<PacketView> {
    match header_lacks(f) {
        Some(n) => Some(
            PacketView {
                src: gateway::address_at(f, 26 - n),
                dst: gateway::address_at(f, 30 - n),
                proto: f[23 - n],
                payload: f.skip(14 + (f[14] % 16) * 4 - n),
            },
        ),
        None => None,
    }
}

/// Whether `p` is the number of a protocol that packets are expected to carry.
fn is_routable(p: u8) -> (r: bool)
    ensures
        r == routable(p),
{
    p == 1 || p == 6 || p == 17 || p == 47 || p == 50 || p == 51 || p == 58
}

/// The IPv4 packet in `frame`; a frame that holds none is not read at all.
pub fn parse_ipv4(frame: &[u8]) -> (r: Option<Ipv4Frame<'_>>)
    ensures
        match r {
            Some(p) => packet_in(frame@) == Some(p@),
            None => packet_in(frame@) is None,
        },
{
    match ethertype(frame) {
        Some(t) => {
            if t != ETHERTYPE_IPV4 {
                return None;
            }
        },
        None => {
            return None;
        },
    }
    if frame.len() < 15 {
        return None;
    }
    let first: u8 = frame[14];
    let ihl: usize = (first % 16) as usize * 4;
    if first / 16 != 4 || ihl < 20 {
        return None;
    }
    if 14 + ihl > frame.len() {
        return None;
    }
    let lacks: usize = if is_routable(frame[23]) {
        0
    } else if ihl == 20 && is_routable(frame[22]) {
        1
    } else {
        return None;
    };
    let end: usize = 14 + ihl - lacks;
    let payload = slice_subrange(frame, end, frame.len());
    assert(payload@ =~= frame@.skip(end as int));
    Some(
        Ipv4Frame {
            src: read_address(frame, 26 - lacks),
            dst: read_address(frame, 30 - lacks),
            proto: frame[23 - lacks],
            payload,
        },
    )
}

// -- replies ------------------------------------------------------------------

/// The Ethernet header of a frame from the gateway to the station `dst`.
pub open spec fn reply_header(dst: Seq<u8>, gateway_ip: Ipv4Addr) -> Seq<u8> {
    dst + gateway::gateway_mac_bytes(gateway_ip) + bytes::be16_bytes(ETHERTYPE_IPV4)
}

/// Whether `p` is an echo request for `gateway_ip`.
pub open spec fn is_echo_request(p: PacketView, gateway_ip: Ipv4Addr) -> bool {
    &&& p.dst == gateway_ip
    &&& p.proto == IPPROTO_ICMP
    &&& p.payload.len() >= 8
    &&& p.payload[0] == ICMP_ECHO_REQUEST
}

/// The IPv4 header `h` turned round, with the checksum field holding `sum`:
/// from the gateway to the former source, with a fresh time to live.
pub open spec fn turned_header(h: Seq<u8>, gateway_ip: Ipv4Addr, sum: Seq<u8>) -> Seq<u8> {
    h.take(8) + seq![64u8, h[9]] + sum + gateway_ip.bytes() + h.subrange(12, 16) + h.skip(20)
}

/// The ICMP message `m` as an echo reply, with the checksum field holding
/// `sum`.
pub open spec fn echo_message(m: Seq<u8>, sum: Seq<u8>) -> Seq<u8> {
    seq![ICMP_ECHO_REPLY, m[1]] + sum + m.skip(4)
}

/// The packet `pkt` answered: an echo reply from the gateway to its source.
pub open spec fn echo_packet(pkt: Seq<u8>, gateway_ip: Ipv4Addr) -> Seq<u8> {
    let ihl = (pkt[0] % 16) * 4;
    let h = pkt.take(ihl);
    let m = pkt.skip(ihl);
    let zero = seq![0u8, 0u8];
    turned_header(
        h,
        gateway_ip,
        bytes::be16_bytes(checksum(turned_header(h, gateway_ip, zero))),
    ) + echo_message(m, bytes::be16_bytes(checksum(echo_message(m, zero))))
}

/// The reply of the gateway to the frame `f` of the station `vm_mac`, where it
/// is an echo request for it.
pub open spec fn echo_reply(f: Seq<u8>, vm_mac: MacAddr, gateway_ip: Ipv4Addr) -> Option<Seq<u8>> {
    match packet_in(f) {
        Some(p) => if is_echo_request(p, gateway_ip) {
            Some(reply_header(vm_mac.bytes(), gateway_ip) + echo_packet(f.skip(14), gateway_ip))
        } else {
            None
        },
        None => None,
    }
}

/// Writes the two bytes of `n` into `v` at `at`.
fn put_be16(v: &mut Vec<u8>, at: usize, n: u16)
    requires
        at + 2 <= old(v).len(),
    ensures
        final(v)@ == old(v)@.update(at as int, bytes::be16_bytes(n)[0]).update(
            at + 1,
            bytes::be16_bytes(n)[1],
        ),
{
    v[at] = (n / 256) as u8;
    v[at + 1] = (n % 256) as u8;
}

/// The echo reply of the gateway `gateway_ip` to `frame`, addressed to
/// `vm_mac`, or nothing where `frame` is not an echo request for the gateway.
pub fn gateway_icmp_reply(frame: &[u8], vm_mac: MacAddr, gateway_ip: Ipv4Addr) -> (r: Option<
    Vec<u8>,
>)
    ensures
        match r {
            Some(reply) => echo_reply(frame@, vm_mac, gateway_ip) == Some(reply@),
            None => echo_reply(frame@, vm_mac, gateway_ip) is None,
        },
{
    let ip = match parse_ipv4(frame) {
        Some(ip) => ip,
        None => {
            return None;
        },
    };
    if ip.dst != gateway_ip || ip.proto != IPPROTO_ICMP {
        return None;
    }
    if ip.payload.len() < 8 || ip.payload[0] != ICMP_ECHO_REQUEST {
        return None;
    }
    let whole = slice_subrange(frame, 14, frame.len());
    assert(whole@ =~= frame@.skip(14));
    let (header, message) = split_packet(whole);
    let h = turn_header(header, gateway_ip);
    let m = echo_answer(message);
    let mut out: Vec<u8> = Vec::new();
    push_all(&mut out, vm_mac.octets().as_slice());
    push_all(&mut out, gateway_mac(gateway_ip).as_slice());
    push_be16(&mut out, ETHERTYPE_IPV4);
    push_all(&mut out, h.as_slice());
    push_all(&mut out, m.as_slice());
    assert(out@ =~= reply_header(vm_mac.bytes(), gateway_ip) + echo_packet(
        frame@.skip(14),
        gateway_ip,
    ));
    Some(out)
}

/// The header of the packet `pkt`, by the length that it states, and the rest.
fn split_packet(pkt: &[u8]) -> (r: (&[u8], &[u8]))
    requires
        pkt.len() >= 1,
        pkt.len() >= (pkt@[0] % 16) * 4,
    ensures
        r.0@ == pkt@.take((pkt@[0] % 16) * 4),
        r.1@ == pkt@.skip((pkt@[0] % 16) * 4),
{
    let ihl: usize = (pkt[0] % 16) as usize * 4;
    let header = slice_subrange(pkt, 0, ihl);
    let rest = slice_subrange(pkt, ihl, pkt.len());
    assert(header@ =~= pkt@.take(ihl as int));
    assert(rest@ =~= pkt@.skip(ihl as int));
    (header, rest)
}

/// The header `h` turned round, with its checksum.
fn turn_header(h: &[u8], gateway_ip: Ipv4Addr) -> (r: Vec<u8>)
    requires
        h.len() >= 20,
    ensures
        r@ == turned_header(
            h@,
            gateway_ip,
            bytes::be16_bytes(checksum(turned_header(h@, gateway_ip, seq![0u8, 0u8]))),
        ),
{
    let mut v: Vec<u8> = Vec::new();
    push_all(&mut v, slice_subrange(h, 0, 8));
    v.push(64);
    v.push(h[9]);
    push_be16(&mut v, 0);
    push_all(&mut v, gateway_ip.octets().as_slice());
    push_all(&mut v, slice_subrange(h, 12, 16));
    push_all(&mut v, slice_subrange(h, 20, h.len()));
    let ghost zero = turned_header(h@, gateway_ip, seq![0u8, 0u8]);
    assert(v@ =~= zero);
    let sum: u16 = inet_checksum(v.as_slice());
    put_be16(&mut v, 10, sum);
    assert(v@ =~= turned_header(h@, gateway_ip, bytes::be16_bytes(checksum(zero))));
    v
}

/// The echo request `m` as an echo reply, with its checksum.
fn echo_answer(m: &[u8]) -> (r: Vec<u8>)
    requires
        m.len() >= 4,
    ensures
        r@ == echo_message(m@, bytes::be16_bytes(checksum(echo_message(m@, seq![0u8, 0u8])))),
{
    let mut v: Vec<u8> = Vec::new();
    v.push(ICMP_ECHO_REPLY);
    v.push(m[1]);
    push_be16(&mut v, 0);
    push_all(&mut v, slice_subrange(m, 4, m.len()));
    let ghost zero = echo_message(m@, seq![0u8, 0u8]);
    assert(v@ =~= zero);
    let sum: u16 = inet_checksum(v.as_slice());
    put_be16(&mut v, 2, sum);
    assert(v@ =~= echo_message(m@, bytes::be16_bytes(checksum(zero))));
    v
}

/// `n` where it fits in 16 bits, else the largest number that does.
pub open spec fn capped16(n: int) -> u16 {
    if n <= 0xffff {
        n as u16
    } else {
        0xffff
    }
}

/// The IPv4 header, without options, of a UDP packet from `src` to `dst` with
/// `payload_len` bytes of payload, the checksum field holding `sum`.
pub open spec fn udp_ipv4_header(
    payload_len: int,
    src: Ipv4Addr,
    dst: Ipv4Addr,
    sum: Seq<u8>,
) -> Seq<u8> {
    seq![0x45u8, 0u8] + bytes::be16_bytes(capped16(28 + payload_len)) + seq![0u8, 0u8, 0x40u8, 0u8]
        + seq![64u8, IPPROTO_UDP] + sum + src.bytes() + dst.bytes()
}

/// The UDP header with the given ports before `payload_len` bytes, without a
/// checksum.
pub open spec fn udp_header(payload_len: int, sport: u16, dport: u16) -> Seq<u8> {
    bytes::be16_bytes(sport) + bytes::be16_bytes(dport) + bytes::be16_bytes(
        capped16(8 + payload_len),
    ) + seq![0u8, 0u8]
}

/// The frame in which the gateway sends `payload` over UDP to the station
/// `vm_mac` with the address `reply_ip`. Where that is 0.0.0.0, the frame and
/// the packet are broadcast.
pub open spec fn udp_reply(
    payload: Seq<u8>,
    vm_mac: MacAddr,
    gateway_ip: Ipv4Addr,
    reply_ip: Ipv4Addr,
    sport: u16,
    dport: u16,
) -> Seq<u8> {
    let to_all = reply_ip == net::any_address();
    let dst_ip = if to_all { net::all_hosts() } else { reply_ip };
    let dst_mac = if to_all { seq![0xffu8, 0xff, 0xff, 0xff, 0xff, 0xff] } else { vm_mac.bytes() };
    let n = payload.len() as int;
    let zero = udp_ipv4_header(n, gateway_ip, dst_ip, seq![0u8, 0u8]);
    reply_header(dst_mac, gateway_ip) + udp_ipv4_header(
        n,
        gateway_ip,
        dst_ip,
        bytes::be16_bytes(checksum(zero)),
    ) + udp_header(n, sport, dport) + payload
}

/// The frame in which the gateway sends `payload` over UDP.
pub fn wrap_udp_reply(
    payload: &[u8],
    vm_mac: MacAddr,
    gateway_ip: Ipv4Addr,
    reply_ip: Ipv4Addr,
    sport: u16,
    dport: u16,
) -> (r: Vec<u8>)
    ensures
        r@ == udp_reply(payload@, vm_mac, gateway_ip, reply_ip, sport, dport),
{
    let to_all: bool = reply_ip.is_unspecified();
    let dst_ip = if to_all {
        Ipv4Addr::broadcast()
    } else {
        reply_ip
    };
    let dst_mac: [u8; 6] = if to_all {
        [0xff, 0xff, 0xff, 0xff, 0xff, 0xff]
    } else {
        vm_mac.octets()
    };
    let n: usize = payload.len();
    let ip_len: u16 = if n <= 0xffff - 28 {
        (28 + n) as u16
    } else {
        0xffff
    };
    let udp_len: u16 = if n <= 0xffff - 8 {
        (8 + n) as u16
    } else {
        0xffff
    };
    let mut iph: Vec<u8> = Vec::new();
    iph.push(0x45);
    iph.push(0);
    push_be16(&mut iph, ip_len);
    iph.push(0);
    iph.push(0);
    iph.push(0x40);
    iph.push(0);
    iph.push(64);
    iph.push(IPPROTO_UDP);
    push_be16(&mut iph, 0);
    push_all(&mut iph, gateway_ip.octets().as_slice());
    push_all(&mut iph, dst_ip.octets().as_slice());
    let ghost zero = udp_ipv4_header(n as int, gateway_ip, dst_ip, seq![0u8, 0u8]);
    assert(iph@ =~= zero);
    let sum: u16 = inet_checksum(iph.as_slice());
    put_be16(&mut iph, 10, sum);
    assert(iph@ =~= udp_ipv4_header(
        n as int,
        gateway_ip,
        dst_ip,
        bytes::be16_bytes(checksum(zero)),
    ));

    let mut out: Vec<u8> = Vec::new();
    push_all(&mut out, dst_mac.as_slice());
    push_all(&mut out, gateway_mac(gateway_ip).as_slice());
    push_be16(&mut out, ETHERTYPE_IPV4);
    push_all(&mut out, iph.as_slice());
    push_be16(&mut out, sport);
    push_be16(&mut out, dport);
    push_be16(&mut out, udp_len);
    push_be16(&mut out, 0);
    push_all(&mut out, payload);
    assert(out@ =~= udp_reply(payload@, vm_mac, gateway_ip, reply_ip, sport, dport));
    out
}

/// What the gateway sends over UDP reads back as a UDP packet from the gateway
/// to the address it answers, with a header whose checksum is right.
pub proof fn law_udp_reply_reads_back(
    payload: Seq<u8>,
    vm_mac: MacAddr,
    gateway_ip: Ipv4Addr,
    reply_ip: Ipv4Addr,
    sport: u16,
    dport: u16,
)
    ensures
        ({
            let f = udp_reply(payload, vm_mac, gateway_ip, reply_ip, sport, dport);
            let to_all = reply_ip == net::any_address();
            &&& packet_in(f) == Some(
                PacketView {
                    src: gateway_ip,
                    dst: if to_all {
                        net::all_hosts()
                    } else {
                        reply_ip
                    },
                    proto: IPPROTO_UDP,
                    payload: udp_header(payload.len() as int, sport, dport) + payload,
                },
            )
            &&& f.subrange(0, 6) == (if to_all {
                seq![0xffu8, 0xff, 0xff, 0xff, 0xff, 0xff]
            } else {
                vm_mac.bytes()
            })
            &&& f.subrange(6, 12) == gateway::gateway_mac_bytes(gateway_ip)
            &&& checksum(f.subrange(14, 34)) == 0
        }),
{
    let f = udp_reply(payload, vm_mac, gateway_ip, reply_ip, sport, dport);
    let to_all = reply_ip == net::any_address();
    let dst_ip = if to_all { net::all_hosts() } else { reply_ip };
    let dst_mac = if to_all { seq![0xffu8, 0xff, 0xff, 0xff, 0xff, 0xff] } else { vm_mac.bytes() };
    let n = payload.len() as int;
    let zero = udp_ipv4_header(n, gateway_ip, dst_ip, seq![0u8, 0u8]);
    let sum = bytes::be16_bytes(checksum(zero));
    let full = udp_ipv4_header(n, gateway_ip, dst_ip, sum);
    assert(full.len() == 20);
    assert(f[12] == 8 && f[13] == 0 && f[14] == 0x45 && f[23] == IPPROTO_UDP);
    assert(header_lacks(f) == Some(0int));
    let body = udp_header(n, sport, dport) + payload;
    assert(f.skip(34) =~= body);
    assert(f.subrange(14, 34) =~= full);
    assert(gateway::address_at(f, 26) == gateway_ip) by {
        assert(full[12] == gateway_ip.a && full[13] == gateway_ip.b && full[14] == gateway_ip.c
            && full[15] == gateway_ip.d);
        assert(f[26] == full[12] && f[27] == full[13] && f[28] == full[14] && f[29] == full[15]);
    }
    assert(gateway::address_at(f, 30) == dst_ip) by {
        assert(full[16] == dst_ip.a && full[17] == dst_ip.b && full[18] == dst_ip.c && full[19]
            == dst_ip.d);
        assert(f[30] == full[16] && f[31] == full[17] && f[32] == full[18] && f[33] == full[19]);
    }
    assert(f.subrange(0, 6) =~= dst_mac);
    assert(f.subrange(6, 12) =~= gateway::gateway_mac_bytes(gateway_ip));
    assert(zero.take(10) + sum + zero.skip(12) =~= full);
    assert(zero[10] == 0 && zero[11] == 0);
    law_checksum_verifies(zero, 10);
}

/// A header with options is read at the places that the usual form has:
/// the protocol and the addresses stand where they stand without options, and
/// the payload follows the options.
pub proof fn law_options_are_passed_over(f: Seq<u8>, p: PacketView)
    requires
        packet_in(f) == Some(p),
        f[14] % 16 > 5,
    ensures
        p.proto == f[23],
        p.src == gateway::address_at(f, 26),
        p.dst == gateway::address_at(f, 30),
        p.payload == f.skip(14 + (f[14] % 16) * 4),
{
}

/// The answer to an echo request with a header of the usual form is an echo
/// reply from the gateway to the station that asked, with the same options and
/// with what that sent along unchanged, and both of its checksums are right.
pub proof fn law_echo_reply_reads_back(f: Seq<u8>, vm_mac: MacAddr, gateway_ip: Ipv4Addr)
    requires
        header_lacks(f) == Some(0int),
        is_echo_request(packet_in(f)->0, gateway_ip),
    ensures
        echo_reply(f, vm_mac, gateway_ip) matches Some(r) && {
            let end = 14 + (f[14] % 16) * 4;
            &&& packet_in(r) matches Some(q) && {
                &&& q.src == gateway_ip
                &&& q.dst == packet_in(f)->0.src
                &&& q.proto == IPPROTO_ICMP
                &&& q.payload.len() == packet_in(f)->0.payload.len()
                &&& q.payload[0] == ICMP_ECHO_REPLY
                &&& q.payload.skip(4) == packet_in(f)->0.payload.skip(4)
                &&& checksum(q.payload) == 0
            }
            &&& r.subrange(0, 6) == vm_mac.bytes()
            &&& r.subrange(34, end) == f.subrange(34, end)
            &&& checksum(r.subrange(14, end)) == 0
        },
{
    let p = packet_in(f)->0;
    let pkt = f.skip(14);
    let ihl = (f[14] % 16) * 4;
    let end = 14 + ihl;
    let h = pkt.take(ihl);
    let m = pkt.skip(ihl);
    let zero = seq![0u8, 0u8];
    let hz = turned_header(h, gateway_ip, zero);
    let mz = echo_message(m, zero);
    let hs = bytes::be16_bytes(checksum(hz));
    let ms = bytes::be16_bytes(checksum(mz));
    let hf = turned_header(h, gateway_ip, hs);
    let mf = echo_message(m, ms);
    let r = echo_reply(f, vm_mac, gateway_ip)->0;
    assert(m =~= p.payload);
    assert(pkt[0] == f[14]);
    assert(r == reply_header(vm_mac.bytes(), gateway_ip) + (hf + mf));
    assert(hf.len() == ihl && mf.len() == m.len());
    assert(r.subrange(14, end) =~= hf);
    assert(r.skip(end) =~= mf);
    assert(r.subrange(0, 6) =~= vm_mac.bytes());
    assert(r.subrange(34, end) =~= hf.skip(20));
    assert(f.subrange(34, end) =~= h.skip(20));
    assert(hf.skip(20) =~= h.skip(20));
    assert(r[12] == 8 && r[13] == 0);
    assert(hf[0] == f[14] && hf[9] == f[23]);
    assert(r[14] == hf[0] && r[23] == hf[9]);
    assert(header_lacks(r) == Some(0int));
    assert(gateway::address_at(r, 26) == gateway_ip) by {
        assert(r[26] == hf[12] && r[27] == hf[13] && r[28] == hf[14] && r[29] == hf[15]);
    }
    assert(gateway::address_at(r, 30) == p.src) by {
        assert(r[30] == hf[16] && r[31] == hf[17] && r[32] == hf[18] && r[33] == hf[19]);
        assert(hf[16] == f[26] && hf[17] == f[27] && hf[18] == f[28] && hf[19] == f[29]);
    }
    assert(hz.take(10) + hs + hz.skip(12) =~= hf);
    assert(hz[10] == 0 && hz[11] == 0);
    law_checksum_verifies(hz, 10);
    assert(mz.take(2) + ms + mz.skip(4) =~= mf);
    assert(mz[2] == 0 && mz[3] == 0);
    law_checksum_verifies(mz, 2);
    assert(mf.skip(4) =~= p.payload.skip(4));
}

// -- tracing ------------------------------------------------------------------

/// `data` in lower-case hexadecimal.
pub open spec fn hex_text(data: Seq<u8>) -> Seq<char>
    decreases data.len(),
{
    if data.len() == 0 {
        seq![]
    } else {
        hex_text(data.drop_last()) + text::hex_byte(data.last())
    }
}

/// The first 16 bytes of `frame` in lower-case hexadecimal, for tracing.
pub fn hex_prefix(frame: &[u8]) -> (r: String)
    ensures
        r@ == hex_text(frame@.take(if frame.len() < 16 {
            frame.len() as int
        } else {
            16
        })),
{
    let n: usize = if frame.len() < 16 {
        frame.len()
    } else {
        16
    };
    let mut out: Vec<char> = Vec::new();
    let mut i: usize = 0;
    while i < n
        invariant
            i <= n <= frame.len(),
            out@ == hex_text(frame@.take(i as int)),
        decreases n - i,
    {
        push_hex_byte(&mut out, frame[i]);
        proof {
            let t = frame@.take(i + 1);
            assert(t.drop_last() =~= frame@.take(i as int));
            assert(t.last() == frame@[i as int]);
        }
        i = i + 1;
    }
    string_of(out.as_slice())
}

// -- laws ---------------------------------------------------------------------

/// The bytes of `data` added up, those at even places taken 256 times.
pub open spec fn weighted_sum(data: Seq<u8>) -> int
    decreases data.len(),
{
    if data.len() == 0 {
        0
    } else {
        weighted_sum(data.drop_last()) + data.last() * (if data.len() % 2 == 1 {
            256int
        } else {
            1int
        })
    }
}

/// A checksum and the weighted bytes it was made of add up to a multiple of
/// 0xffff; and it is 0xffff only where all of these are zero.
pub proof fn law_checksum_makes_up_the_sum(data: Seq<u8>)
    ensures
        (checksum(data) + weighted_sum(data)) % 0xffff == 0,
        checksum(data) == 0xffff ==> weighted_sum(data) == 0,
{
    lemma_weighted_sum(data);
    let s = word_sum(data);
    lemma_carried_fits(s);
    lemma_carried_mod(s);
    let c = carried(s);
    assert((0xffff - c + s) % 0xffff == 0) by (nonlinear_arith)
        requires
            c % 0xffff == s % 0xffff,
    ;
}

/// The weighted sum of bytes is that of their words, one after the other, the
/// first byte of a word being its high byte, and a last byte alone too.
pub proof fn law_weighted_sum_is_that_of_words(x: u8, y: u8, data: Seq<u8>)
    ensures
        weighted_sum(seq![x]) == 256 * x,
        weighted_sum(seq![x, y] + data) == 256 * x + y + weighted_sum(data),
{
    lemma_weighted_sum(seq![x]);
    lemma_weighted_sum(data);
    let whole = seq![x, y] + data;
    lemma_weighted_sum(whole);
    assert(whole.skip(2) =~= data);
}

proof fn lemma_weighted_sum(data: Seq<u8>)
    ensures
        weighted_sum(data) == word_sum(data),
    decreases data.len(),
{
    if data.len() > 0 {
        let t = data.drop_last();
        lemma_weighted_sum(t);
        if t.len() % 2 == 0 {
            lemma_word_sum_step(data, t.len() as int);
            assert(data.take(t.len() as int) =~= t);
            let e = data.skip(t.len() as int);
            assert(e.len() == 1 && e[0] == data.last());
        } else {
            let i = t.len() - 1;
            lemma_word_sum_step(data, i);
            lemma_word_sum_step(t, i);
            assert(data.take(i) =~= t.take(i));
            let e = data.skip(i);
            let d = t.skip(i);
            assert(d.len() == 1 && d[0] == t.last());
            assert(e.len() == 2 && e[0] == t.last() && e[1] == data.last());
            assert(e.skip(2) =~= Seq::<u8>::empty());
            assert(word_sum(e) == bytes::be16(e[0], e[1]) + word_sum(e.skip(2)));
        }
    }
}

/// Whether `p` is one of the protocol numbers 1, 6, 17, 47, 50, 51 and 58.
pub open spec fn listed(p: u8) -> bool {
    seq![1u8, 6, 17, 47, 50, 51, 58].contains(p)
}

/// Every frame with an IPv4 header that is complete is read as a packet, where
/// its protocol is a listed one, whatever its addresses, its options and its
/// payload. Where the protocol in its place is not listed, but the one a byte
/// earlier is and there are no options, everything stands a byte earlier. No
/// other frame is a packet.
pub proof fn law_every_packet_is_read(f: Seq<u8>)
    ensures
        forall|p: u8| #[trigger] listed(p) <==> p == 1 || p == 6 || p == 17 || p == 47 || p == 50 || p
            == 51 || p == 58,
        ({
            let complete = f.len() >= 34 && f[12] == 0x08 && f[13] == 0x00 && 0x45 <= f[14] <= 0x4f
                && f.len() >= 14 + 4 * (f[14] - 0x40);
            let end = 14 + 4 * (f[14] - 0x40);
            packet_in(f) == (if complete && listed(f[23]) {
                Some(
                    PacketView {
                        src: Ipv4Addr { a: f[26], b: f[27], c: f[28], d: f[29] },
                        dst: Ipv4Addr { a: f[30], b: f[31], c: f[32], d: f[33] },
                        proto: f[23],
                        payload: f.skip(end),
                    },
                )
            } else if complete && f[14] == 0x45 && listed(f[22]) {
                Some(
                    PacketView {
                        src: Ipv4Addr { a: f[25], b: f[26], c: f[27], d: f[28] },
                        dst: Ipv4Addr { a: f[29], b: f[30], c: f[31], d: f[32] },
                        proto: f[22],
                        payload: f.skip(33),
                    },
                )
            } else {
                None
            })
        }),
{
    assert forall|p: u8| #[trigger] listed(p) <==> p == 1 || p == 6 || p == 17 || p == 47 || p == 50
        || p == 51 || p == 58 by {
        lemma_listed(p);
    }
    lemma_listed(f[23]);
    lemma_listed(f[22]);
    let b = f[14];
    assert((b / 16 == 4 && b % 16 >= 5) <==> 0x45 <= b <= 0x4f) by (nonlinear_arith)
        requires
            0 <= b <= 255,
    ;
    if 0x45 <= b <= 0x4f {
        assert(b % 16 == b - 0x40) by (nonlinear_arith)
            requires
                0x45 <= b <= 0x4f,
        ;
    }
}

proof fn lemma_listed(p: u8)
    ensures
        listed(p) == routable(p),
{
    let s = seq![1u8, 6, 17, 47, 50, 51, 58];
    assert(s[0] == 1 && s[1] == 6 && s[2] == 17 && s[3] == 47 && s[4] == 50 && s[5] == 51 && s[6]
        == 58);
    if listed(p) {
        let i = s.index_of(p);
        assert(s[i] == p);
    }
}

/// Every echo request for the gateway is answered, however long it is and
/// whatever options it has: with a frame of the same length, to the given MAC
/// address and from one made of 02:00 and the address of the gateway, that is
/// an echo reply from the gateway to the sender, with the same options,
/// identifier, number and data, and with checksums that are right. Nothing else
/// is answered.
pub proof fn law_every_echo_request_is_answered(f: Seq<u8>, mac: MacAddr, g: Ipv4Addr)
    requires
        f.len() >= 34,
        f[12] == 0x08,
        f[13] == 0x00,
        0x45 <= f[14] <= 0x4f,
        f.len() >= 14 + 4 * (f[14] - 0x40),
        listed(f[23]),
    ensures
        ({
            let end = 14 + 4 * (f[14] - 0x40);
            let asked = f[23] == 1 && f[30] == g.a && f[31] == g.b && f[32] == g.c && f[33] == g.d
                && f.len() >= end + 8 && f[end] == 8;
            &&& !asked ==> echo_reply(f, mac, g) is None
            &&& asked ==> {
                &&& echo_reply(f, mac, g) matches Some(r) && {
                    &&& r.len() == f.len()
                    &&& r.take(14) == seq![
                        mac.o0,
                        mac.o1,
                        mac.o2,
                        mac.o3,
                        mac.o4,
                        mac.o5,
                        0x02,
                        0x00,
                        g.a,
                        g.b,
                        g.c,
                        g.d,
                        0x08,
                        0x00,
                    ]
                    &&& r.subrange(14, 22) == f.subrange(14, 22)
                    &&& r[22] == 64 && r[23] == 1
                    &&& r[26] == g.a && r[27] == g.b && r[28] == g.c && r[29] == g.d
                    &&& r.subrange(30, 34) == f.subrange(26, 30)
                    &&& r.subrange(34, end) == f.subrange(34, end)
                    &&& r[end] == 0 && r[end + 1] == f[end + 1]
                    &&& r.skip(end + 4) == f.skip(end + 4)
                    &&& weighted_sum(r.subrange(14, end)) % 0xffff == 0
                    &&& weighted_sum(r.skip(end)) % 0xffff == 0
                }
            }
        }),
{
    law_every_packet_is_read(f);
    lemma_listed(f[23]);
    let end = 14 + 4 * (f[14] - 0x40);
    let asked = f[23] == 1 && f[30] == g.a && f[31] == g.b && f[32] == g.c && f[33] == g.d
        && f.len() >= end + 8 && f[end] == 8;
    if asked {
        assert(header_lacks(f) == Some(0int));
        assert(f.skip(end)[0] == f[end]);
        law_echo_reply_reads_back(f, mac, g);
        let r = echo_reply(f, mac, g)->0;
        assert((f[14] % 16) * 4 == end - 14);
        lemma_echo_bytes(f, mac, g, end);
        law_checksum_makes_up_the_sum(r.subrange(14, end));
        law_checksum_makes_up_the_sum(r.skip(end));
        assert(packet_in(r)->0.payload == r.skip(end));
    }
}

/// Where the bytes of an echo reply come from.
proof fn lemma_echo_bytes(f: Seq<u8>, mac: MacAddr, g: Ipv4Addr, end: int)
    requires
        header_lacks(f) == Some(0int),
        is_echo_request(packet_in(f)->0, g),
        end == 14 + (f[14] % 16) * 4,
    ensures
        echo_reply(f, mac, g) matches Some(r) && {
            &&& r.len() == f.len()
            &&& r.take(14) == seq![
                mac.o0,
                mac.o1,
                mac.o2,
                mac.o3,
                mac.o4,
                mac.o5,
                0x02,
                0x00,
                g.a,
                g.b,
                g.c,
                g.d,
                0x08,
                0x00,
            ]
            &&& r[14] == f[14]
            &&& r.subrange(14, 22) == f.subrange(14, 22)
            &&& r[22] == 64 && r[23] == f[23]
            &&& r[26] == g.a && r[27] == g.b && r[28] == g.c && r[29] == g.d
            &&& r.subrange(30, 34) == f.subrange(26, 30)
            &&& r[end] == 0 && r[end + 1] == f[end + 1]
            &&& r.skip(end + 4) == f.skip(end + 4)
        },
{
    let pkt = f.skip(14);
    let ihl = (f[14] % 16) * 4;
    let h = pkt.take(ihl);
    let m = pkt.skip(ihl);
    let zero = seq![0u8, 0u8];
    let hs = bytes::be16_bytes(checksum(turned_header(h, g, zero)));
    let ms = bytes::be16_bytes(checksum(echo_message(m, zero)));
    let hf = turned_header(h, g, hs);
    let mf = echo_message(m, ms);
    let r = echo_reply(f, mac, g)->0;
    assert(pkt[0] == f[14]);
    assert(r == reply_header(mac.bytes(), g) + (hf + mf));
    assert(hf.len() == ihl && mf.len() == m.len());
    let head = reply_header(mac.bytes(), g);
    assert(head.len() == 14);
    assert(r.take(14) =~= seq![
        mac.o0,
        mac.o1,
        mac.o2,
        mac.o3,
        mac.o4,
        mac.o5,
        0x02,
        0x00,
        g.a,
        g.b,
        g.c,
        g.d,
        0x08,
        0x00,
    ]);
    assert(r.subrange(14, 22) =~= f.subrange(14, 22));
    assert(r.subrange(30, 34) =~= f.subrange(26, 30));
    assert(r.skip(end + 4) =~= f.skip(end + 4));
    assert(r[22] == hf[8] && r[23] == hf[9] && r[26] == hf[12] && r[27] == hf[13] && r[28] == hf[14]
        && r[29] == hf[15]);
    assert(r[end] == mf[0] && r[end + 1] == mf[1]);
    assert(r[14] == hf[0]);
}

/// What the gateway sends over UDP holds, byte for byte, the payload behind
/// headers that say where it comes from and goes to and how long it is, however
/// long it is.
pub proof fn law_udp_reply_carries_the_payload(
    payload: Seq<u8>,
    mac: MacAddr,
    g: Ipv4Addr,
    to: Ipv4Addr,
    sport: u16,
    dport: u16,
)
    ensures
        ({
            let r = udp_reply(payload, mac, g, to, sport, dport);
            let all = to.a == 0 && to.b == 0 && to.c == 0 && to.d == 0;
            &&& r.len() == 42 + payload.len()
            &&& r.skip(42) == payload
            &&& all ==> r.take(6) == seq![0xffu8, 0xff, 0xff, 0xff, 0xff, 0xff]
            &&& all ==> r.subrange(30, 34) == seq![255u8, 255, 255, 255]
            &&& !all ==> r.take(6) == seq![mac.o0, mac.o1, mac.o2, mac.o3, mac.o4, mac.o5]
            &&& !all ==> r.subrange(30, 34) == seq![to.a, to.b, to.c, to.d]
            &&& r.subrange(6, 16) == seq![0x02u8, 0, g.a, g.b, g.c, g.d, 0x08, 0, 0x45, 0]
            &&& payload.len() <= 0xffe3 ==> r[16] * 256 + r[17] == 28 + payload.len()
            &&& r[22] == 64 && r[23] == 17
            &&& r.subrange(26, 30) == seq![g.a, g.b, g.c, g.d]
            &&& weighted_sum(r.subrange(14, 34)) % 0xffff == 0
            &&& r[34] * 256 + r[35] == sport
            &&& r[36] * 256 + r[37] == dport
            &&& payload.len() <= 0xfff7 ==> r[38] * 256 + r[39] == 8 + payload.len()
            &&& r[40] == 0 && r[41] == 0
        }),
{
    let r = udp_reply(payload, mac, g, to, sport, dport);
    let to_all = to == net::any_address();
    let dst_ip = if to_all { net::all_hosts() } else { to };
    let n = payload.len() as int;
    let zero = udp_ipv4_header(n, g, dst_ip, seq![0u8, 0u8]);
    let full = udp_ipv4_header(n, g, dst_ip, bytes::be16_bytes(checksum(zero)));
    let u = udp_header(n, sport, dport);
    assert(full.len() == 20 && u.len() == 8);
    law_udp_reply_reads_back(payload, mac, g, to, sport, dport);
    law_checksum_makes_up_the_sum(r.subrange(14, 34));
    assert(r.skip(42) =~= payload);
    assert(r.take(6) =~= r.subrange(0, 6));
    if !to_all {
        assert(r.take(6) =~= seq![mac.o0, mac.o1, mac.o2, mac.o3, mac.o4, mac.o5]);
    }
    assert(r.subrange(30, 34) =~= dst_ip.bytes());
    assert(r.subrange(6, 16) =~= seq![0x02u8, 0, g.a, g.b, g.c, g.d, 0x08, 0, 0x45, 0]);
    assert(r.subrange(26, 30) =~= seq![g.a, g.b, g.c, g.d]);
    bytes::lemma_be16(sport);
    bytes::lemma_be16(dport);
    bytes::lemma_be16(capped16(28 + n));
    bytes::lemma_be16(capped16(8 + n));
    assert(r[34] == u[0] && r[35] == u[1] && r[36] == u[2] && r[37] == u[3] && r[38] == u[4]
        && r[39] == u[5] && r[40] == u[6] && r[41] == u[7]);
    assert(r[16] == full[2] && r[17] == full[3] && r[22] == full[8] && r[23] == full[9]);
    assert(to_all ==> dst_ip.bytes() =~= seq![255u8, 255, 255, 255]);
    assert(!to_all ==> dst_ip.bytes() =~= seq![to.a, to.b, to.c, to.d]);
}

/// What is shown of bytes is two hexadecimal digits in lower case for each.
pub proof fn law_every_byte_is_shown(data: Seq<u8>, i: int)
    requires
        0 <= i < data.len(),
    ensures
        hex_text(data).len() == 2 * data.len(),
        net::is_lower_hex(hex_text(data)[2 * i]),
        net::is_lower_hex(hex_text(data)[2 * i + 1]),
        net::hex_value(hex_text(data)[2 * i]) * 16 + net::hex_value(hex_text(data)[2 * i + 1])
            == data[i],
    decreases data.len(),
{
    if data.len() == 1 {
        assert(data.drop_last() =~= seq![]);
        assert(hex_text(data.drop_last()) =~= seq![]);
    } else {
        law_every_byte_is_shown(data.drop_last(), if i < data.len() - 1 {
            i
        } else {
            0
        });
    }
}

} // verus!
