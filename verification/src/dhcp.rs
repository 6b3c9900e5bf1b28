//! The DHCP server of one network: raw packets in, raw replies out.
//!
//! Every MAC address is offered the address that is bound to it; one that has
//! none is bound to the lowest free address of the pool. A request is
//! acknowledged where it is for the address bound to the MAC that asks, and
//! refused otherwise.

use dhcproto::v4::{Decodable, DhcpOption, Encodable, Message, OptionCode};
use vstd::prelude::*;

use crate::bytes;
use crate::ipam;
use crate::ipam::Ipam;
use crate::model::{Ipv4Addr, MacAddr, Network};
use crate::net;
use crate::switch::frame::mac_at;
use crate::switch::gateway;

verus! {

/// The length of a packet's fixed fields and of the magic cookie after them.
pub const MIN_PACKET_SIZE: usize = 240;

/// Where the magic cookie stands in a packet.
pub const MAGIC_COOKIE_OFFSET: usize = 236;

/// The lease time that is offered, in seconds.
pub const LEASE_SECONDS: u32 = 3600;

/// The operation of a message to the server.
pub const BOOT_REQUEST: u8 = 1;

/// The operation of a message from the server.
pub const BOOT_REPLY: u8 = 2;

/// The hardware type of Ethernet.
pub const HTYPE_ETHERNET: u8 = 1;

/// Message types.
pub const DISCOVER: u8 = 1;

pub const OFFER: u8 = 2;

pub const REQUEST: u8 = 3;

pub const ACK: u8 = 5;

pub const NAK: u8 = 6;

// -- the wire format ----------------------------------------------------------

/// The magic cookie.
pub open spec fn magic_cookie() -> Seq<u8> {
    seq![99u8, 130u8, 83u8, 99u8]
}

/// `n` zero bytes.
pub open spec fn zeros(n: int) -> Seq<u8> {
    Seq::new(n as nat, |i: int| 0u8)
}

/// What a message from a client says, as far as the server reads it.
#[derive(Debug, Clone)]
pub struct DhcpMessage {
    pub xid: u32,
    pub flags: u16,
    pub ciaddr: Ipv4Addr,
    /// The hardware address.
    pub chaddr: Vec<u8>,
    /// The message type, where the option is there.
    pub kind: Option<u8>,
    /// The requested address, where the option is there.
    pub requested: Option<Ipv4Addr>,
}

/// The message type and the requested address that the options in `tail`, the
/// bytes behind the magic cookie, hold; the address is given by its number.
pub uninterp spec fn dhcp_options(tail: Seq<u8>) -> (Option<u8>, Option<u32>);

/// Whether an option with the code `code` may have `len` bytes of data: some
/// options have a fixed length, and the name of a host has flags before it.
pub open spec fn option_fits(code: u8, len: int) -> bool {
    &&& code == 80 ==> len == 0
    &&& code == 81 ==> len >= 3
    &&& code == 94 ==> len == 3
    &&& 152 <= code <= 155 ==> len == 4
}

/// Whether `len` bytes of data are too few for an option with the code `code`.
pub open spec fn option_short(code: u8, len: int) -> bool {
    ||| (code == 81 || code == 94) && len < 3
    ||| 152 <= code <= 155 && len < 4
}

/// Whether `s` starts with an option with the code `code` that is not cut off.
pub open spec fn starts_with(s: Seq<u8>, code: u8) -> bool {
    s.len() >= 2 && s[0] == code && s.len() >= 2 + s[1]
}

/// How many bytes the options with the code `code` have that `s` starts with.
pub open spec fn run_size(s: Seq<u8>, code: u8) -> int
    decreases s.len(),
{
    if starts_with(s, code) {
        2 + s[1] + run_size(s.skip(2 + s[1] as int), code)
    } else {
        0
    }
}

/// How many bytes of data these have. Options with one code that follow each
/// other are one option.
pub open spec fn run_data(s: Seq<u8>, code: u8) -> int
    decreases s.len(),
{
    if starts_with(s, code) {
        s[1] + run_data(s.skip(2 + s[1] as int), code)
    } else {
        0
    }
}

/// Whether nothing more is read of the options `s`: they are at their end, or
/// the next one is cut off.
pub open spec fn options_end(s: Seq<u8>) -> bool {
    s.len() == 0 || s[0] == 255 || (s[0] != 0 && !starts_with(s, s[0]))
}

/// Whether the options `s` are of lengths that they may have.
pub open spec fn options_fit(s: Seq<u8>) -> bool
    decreases s.len(),
    via options_fit_decreases
{
    if options_end(s) {
        true
    } else if s[0] == 0 {
        options_fit(s.skip(1))
    } else {
        option_fits(s[0], run_data(s, s[0])) && options_fit(s.skip(run_size(s, s[0])))
    }
}

#[via_fn]
proof fn options_fit_decreases(s: Seq<u8>) {
    lemma_run(s, s[0]);
}

/// The options `s` with none of a length that it may not have. One that is too
/// long says nothing that the server reads, and is blanked out. With one that
/// is too short the options end.
pub open spec fn mended(s: Seq<u8>) -> Seq<u8>
    decreases s.len(),
    via mended_decreases
{
    let n = run_size(s, s[0]);
    let len = run_data(s, s[0]);
    if options_end(s) {
        s
    } else if s[0] == 0 {
        seq![0u8] + mended(s.skip(1))
    } else if option_fits(s[0], len) {
        s.take(n) + mended(s.skip(n))
    } else if option_short(s[0], len) {
        s.update(0, 255)
    } else {
        zeros(n) + mended(s.skip(n))
    }
}

#[via_fn]
proof fn mended_decreases(s: Seq<u8>) {
    lemma_run(s, s[0]);
}

/// The options with one code that come first are a part of all, and another
/// one with that code does not follow them.
proof fn lemma_run(s: Seq<u8>, code: u8)
    ensures
        0 <= run_data(s, code) <= run_size(s, code) <= s.len(),
        starts_with(s, code) ==> run_size(s, code) >= 2,
        !starts_with(s.skip(run_size(s, code)), code),
    decreases s.len(),
{
    if starts_with(s, code) {
        let k = 2 + s[1] as int;
        let t = s.skip(k);
        lemma_run(t, code);
        assert(s.skip(k + run_size(t, code)) =~= t.skip(run_size(t, code)));
    } else {
        assert(s.skip(0) =~= s);
    }
}

/// The options with one code that come first are the same before other ones.
proof fn lemma_run_before(s: Seq<u8>, code: u8, t: Seq<u8>)
    requires
        !starts_with(t, code),
    ensures
        run_size(s.take(run_size(s, code)) + t, code) == run_size(s, code),
        run_data(s.take(run_size(s, code)) + t, code) == run_data(s, code),
    decreases s.len(),
{
    lemma_run(s, code);
    let n = run_size(s, code);
    let x = s.take(n) + t;
    if starts_with(s, code) {
        let k = 2 + s[1] as int;
        let rest = s.skip(k);
        lemma_run(rest, code);
        lemma_run_before(rest, code, t);
        assert(x[0] == s[0] && x[1] == s[1]);
        assert(x.skip(k) =~= rest.take(n - k) + t);
    } else {
        assert(x =~= t);
    }
}

/// Mended options start with no option that they did not start with.
proof fn lemma_mended_start(s: Seq<u8>, code: u8)
    requires
        code != 0,
        code != 255,
        !starts_with(s, code),
    ensures
        !starts_with(mended(s), code),
{
    if !options_end(s) {
        lemma_run(s, s[0]);
    }
}

/// Blanks before options change nothing about these.
proof fn lemma_blanks_fit(n: int, t: Seq<u8>)
    requires
        n >= 0,
    ensures
        options_fit(zeros(n) + t) == options_fit(t),
    decreases n,
{
    let x = zeros(n) + t;
    if n > 0 {
        lemma_blanks_fit(n - 1, t);
        assert(x[0] == 0);
        assert(x.skip(1) =~= zeros(n - 1) + t);
    } else {
        assert(x =~= t);
    }
}

/// Mended options are of lengths that they may have, and options that are so
/// stay as they are.
pub proof fn law_mended_options_fit(s: Seq<u8>)
    ensures
        options_fit(mended(s)),
        mended(s).len() == s.len(),
        options_fit(s) ==> mended(s) == s,
    decreases s.len(),
{
    if options_end(s) {
    } else if s[0] == 0 {
        let t = s.skip(1);
        law_mended_options_fit(t);
        let x = seq![0u8] + mended(t);
        assert(x[0] == 0);
        assert(x.skip(1) =~= mended(t));
        assert(seq![0u8] + t =~= s);
    } else {
        let code = s[0];
        lemma_run(s, code);
        let n = run_size(s, code);
        let t = s.skip(n);
        law_mended_options_fit(t);
        if option_fits(code, run_data(s, code)) {
            lemma_mended_start(t, code);
            lemma_run_before(s, code, mended(t));
            let x = s.take(n) + mended(t);
            assert(x[0] == code && x[1] == s[1]);
            assert(x.skip(n) =~= mended(t));
            assert(s.take(n) + t =~= s);
        } else if !option_short(code, run_data(s, code)) {
            lemma_blanks_fit(n, mended(t));
        }
    }
}

/// The packet with its options mended.
fn mend_options(packet: &[u8]) -> (r: Vec<u8>)
    requires
        packet.len() >= MIN_PACKET_SIZE,
    ensures
        r.len() == packet.len(),
        forall|i: int| 0 <= i < MIN_PACKET_SIZE ==> #[trigger] r@[i] == packet@[i],
        r@.skip(MIN_PACKET_SIZE as int) == mended(packet@.skip(MIN_PACKET_SIZE as int)),
{
    let start: usize = MIN_PACKET_SIZE;
    let mut out: Vec<u8> = Vec::new();
    bytes::push_all(&mut out, packet);
    let ghost tail = packet@.skip(start as int);
    let mut i: usize = start;
    assert(out@ =~= packet@);
    assert(out@.subrange(start as int, i as int) =~= seq![]);
    assert(mended(tail) =~= out@.subrange(start as int, i as int) + mended(packet@.skip(i as int)));
    while i < packet.len()
        invariant_except_break
            start == MIN_PACKET_SIZE,
            start <= i <= packet.len(),
            out.len() == packet.len(),
            tail == packet@.skip(start as int),
            forall|k: int| 0 <= k < start ==> #[trigger] out@[k] == packet@[k],
            forall|k: int| i <= k < out.len() ==> #[trigger] out@[k] == packet@[k],
            mended(tail) == out@.subrange(start as int, i as int) + mended(packet@.skip(i as int)),
        ensures
            start == MIN_PACKET_SIZE,
            tail == packet@.skip(start as int),
            out.len() == packet.len(),
            forall|k: int| 0 <= k < start ==> #[trigger] out@[k] == packet@[k],
            out@.skip(start as int) == mended(tail),
        decreases packet.len() - i,
    {
        let ghost rest = packet@.skip(i as int);
        let ghost done = out@.subrange(start as int, i as int);
        let code: u8 = packet[i];
        assert(rest[0] == code);
        if code == 0 {
            assert(rest.skip(1) =~= packet@.skip(i + 1));
            assert(out@.subrange(start as int, i + 1) =~= done + seq![0u8]);
            i = i + 1;
            assert(mended(tail) =~= out@.subrange(start as int, i as int) + mended(
                packet@.skip(i as int),
            ));
            continue;
        }
        let (size, len) = measure(packet, i, code);
        if code == 255 || size == 0 {
            assert(mended(rest) == rest) by {
                if code != 255 && starts_with(rest, code) {
                    lemma_run(rest, code);
                }
            }
            assert(out@.skip(start as int) =~= done + rest);
            break;
        }
        proof {
            lemma_run(rest, code);
            assert(starts_with(rest, code));
            assert(rest.skip(size as int) =~= packet@.skip(i + size));
        }
        if option_length_fits(code, len) {
            assert(out@.subrange(start as int, i + size) =~= done + rest.take(size as int));
            i = i + size;
            assert(mended(tail) =~= out@.subrange(start as int, i as int) + mended(
                packet@.skip(i as int),
            ));
        } else if option_too_short(code, len) {
            out.set(i, 255);
            assert(out@.skip(start as int) =~= done + rest.update(0, 255));
            break;
        } else {
            let end: usize = i + size;
            let ghost from = i as int;
            while i < end
                invariant
                    start == MIN_PACKET_SIZE,
                    start <= from <= i <= end <= packet.len(),
                    out.len() == packet.len(),
                    forall|k: int| 0 <= k < start ==> #[trigger] out@[k] == packet@[k],
                    forall|k: int| i <= k < out.len() ==> #[trigger] out@[k] == packet@[k],
                    out@.subrange(start as int, from) == done,
                    forall|k: int| from <= k < i ==> #[trigger] out@[k] == 0,
                decreases end - i,
            {
                out.set(i, 0);
                assert(out@.subrange(start as int, from) =~= done);
                i = i + 1;
            }
            proof {
                let now = out@.subrange(start as int, i as int);
                assert(now =~= done + zeros(size as int)) by {
                    assert forall|k: int| 0 <= k < now.len() implies now[k] == (done + zeros(
                        size as int,
                    ))[k] by {
                        if k < done.len() {
                            assert(out@.subrange(start as int, from)[k] == now[k]);
                        }
                    }
                }
                assert(mended(tail) =~= now + mended(packet@.skip(i as int)));
            }
        }
    }
    out
}

/// How many bytes the options with the code `code` have that start at `at`,
/// and how many of these are data.
fn measure(packet: &[u8], at: usize, code: u8) -> (r: (usize, usize))
    requires
        at <= packet.len(),
    ensures
        r.0 == run_size(packet@.skip(at as int), code),
        r.1 == run_data(packet@.skip(at as int), code),
        at + r.0 <= packet.len(),
{
    let mut i: usize = at;
    let mut len: usize = 0;
    while packet.len() - i >= 2 && packet[i] == code && packet.len() - i - 2 >= packet[i + 1] as usize
        invariant
            at <= i <= packet.len(),
            len <= i,
            run_size(packet@.skip(at as int), code) == i - at + run_size(
                packet@.skip(i as int),
                code,
            ),
            run_data(packet@.skip(at as int), code) == len + run_data(packet@.skip(i as int), code),
        decreases packet.len() - i,
    {
        let n: usize = packet[i + 1] as usize;
        let ghost rest = packet@.skip(i as int);
        assert(rest[0] == code && rest[1] == n);
        assert(rest.skip(2 + n as int) =~= packet@.skip(i + 2 + n));
        len = len + n;
        i = i + 2 + n;
    }
    let ghost rest = packet@.skip(i as int);
    assert(!starts_with(rest, code)) by {
        if rest.len() >= 2 {
            assert(rest[0] == packet@[i as int] && rest[1] == packet@[i + 1]);
        }
    }
    (i - at, len)
}

/// Whether an option with the code `code` may have `len` bytes of data.
fn option_length_fits(code: u8, len: usize) -> (r: bool)
    ensures
        r == option_fits(code, len as int),
{
    if code == 80 {
        len == 0
    } else if code == 81 {
        len >= 3
    } else if code == 94 {
        len == 3
    } else if 152 <= code && code <= 155 {
        len == 4
    } else {
        true
    }
}

/// Whether `len` bytes of data are too few for an option with the code `code`.
fn option_too_short(code: u8, len: usize) -> (r: bool)
    ensures
        r == option_short(code, len as int),
{
    ((code == 81 || code == 94) && len < 3) || (152 <= code && code <= 155 && len < 4)
}

/// The fields and options of a packet, addresses being given by their numbers.
struct RawMessage {
    op: u8,
    htype: u8,
    hlen: u8,
    xid: u32,
    flags: u16,
    ciaddr: u32,
    /// The hardware address, `hlen` bytes long.
    chaddr: Vec<u8>,
    kind: Option<u8>,
    requested: Option<u32>,
}

/// Whether `m` holds the fixed fields of the packet `p`.
spec fn says(p: Seq<u8>, m: RawMessage) -> bool {
    &&& m.op == p[0]
    &&& m.htype == p[1]
    &&& m.hlen == p[2]
    &&& m.xid == bytes::be32_at(p, 4)
    &&& m.flags == bytes::be16(p[10], p[11])
    &&& m.ciaddr == bytes::be32_at(p, 12)
    &&& m.chaddr@ == p.subrange(28, 28 + p[2])
}

/// `dhcproto`'s `Message::from_bytes`: reads the fixed fields of a packet at
/// their offsets, and the options behind the magic cookie, which are given a
/// name here. A packet of at least 240 bytes is always read. Hardware
/// addresses of more than 16 bytes, and options of a length that they may not
/// have, are left out: on these it can panic.
#[verifier::external_body]
fn read_message(packet: &[u8]) -> (r: Option<RawMessage>)
    requires
        packet.len() >= MIN_PACKET_SIZE,
        packet@[2] <= 16,
        options_fit(packet@.skip(MIN_PACKET_SIZE as int)),
    ensures
        r is Some,
        says(packet@, r->0),
        (r->0.kind, r->0.requested) == dhcp_options(packet@.skip(MIN_PACKET_SIZE as int)),
{
    let m = Message::from_bytes(packet).ok()?;
    let requested = match m.opts().get(OptionCode::RequestedIpAddress) {
        Some(DhcpOption::RequestedIpAddress(ip)) => Some((*ip).into()),
        _ => None,
    };
    Some(RawMessage {
        op: m.opcode().into(), htype: m.htype().into(), hlen: m.hlen(), xid: m.xid(),
        flags: m.flags().into(), ciaddr: m.ciaddr().into(), chaddr: m.chaddr().to_vec(),
        kind: m.opts().msg_type().map(|t| t.into()), requested,
    })
}

/// The options that come with an address.
#[derive(Debug, Clone, Copy)]
pub struct LeaseOptions {
    pub server: Ipv4Addr,
    pub mask: Ipv4Addr,
    pub router: Ipv4Addr,
    pub dns: Ipv4Addr,
    pub seconds: u32,
}

/// The options of a reply, in the order of their codes, and the end mark.
pub open spec fn option_bytes(kind: u8, lease: Option<LeaseOptions>) -> Seq<u8> {
    match lease {
        None => seq![53u8, 1u8, kind, 255u8],
        Some(l) => seq![1u8, 4u8] + l.mask.bytes() + seq![3u8, 4u8] + l.router.bytes() + seq![
            6u8,
            4u8,
        ] + l.dns.bytes() + seq![51u8, 4u8] + bytes::be32_bytes(l.seconds) + seq![53u8, 1u8, kind] + seq![
            54u8,
            4u8,
        ] + l.server.bytes() + seq![255u8],
    }
}

/// The fields of a reply and its message type, the address being given by its
/// number.
struct RawReply {
    op: u8,
    xid: u32,
    flags: u16,
    yiaddr: u32,
    chaddr: Vec<u8>,
    kind: u8,
}

/// The options that come with an address, addresses being given by their
/// numbers.
struct RawLease {
    server: u32,
    mask: u32,
    router: u32,
    dns: u32,
    seconds: u32,
}

/// The fixed fields of the packet that holds the reply `r`, and the magic
/// cookie.
spec fn head_bytes(r: RawReply) -> Seq<u8> {
    seq![r.op, HTYPE_ETHERNET, r.chaddr@.len() as u8, 0u8] + bytes::be32_bytes(r.xid) + zeros(2)
        + bytes::be16_bytes(r.flags) + zeros(4) + bytes::be32_bytes(r.yiaddr) + zeros(8) + r.chaddr@
        + zeros(16 - r.chaddr@.len()) + zeros(192) + magic_cookie()
}

/// The options of a reply with the message type `kind` that gives an address,
/// in the order of their codes, and the end mark.
spec fn lease_bytes(kind: u8, l: RawLease) -> Seq<u8> {
    seq![1u8, 4u8] + bytes::be32_bytes(l.mask) + seq![3u8, 4u8] + bytes::be32_bytes(l.router)
        + seq![6u8, 4u8] + bytes::be32_bytes(l.dns) + seq![51u8, 4u8] + bytes::be32_bytes(l.seconds)
        + seq![53u8, 1u8, kind] + seq![54u8, 4u8] + bytes::be32_bytes(l.server) + seq![255u8]
}

/// `dhcproto`'s `Message::to_vec`, on a message that `Message::new_with_id`
/// made for an Ethernet client, with the options of a lease: writes the fixed
/// fields, the magic cookie, the options in the order of their codes, and the
/// end mark. It does not fail. Hardware addresses of more than 16 bytes are
/// left out: on these it panics.
#[verifier::external_body]
fn write_lease(r: &RawReply, l: &RawLease) -> (out: Option<Vec<u8>>)
    requires
        r.chaddr@.len() <= 16,
    ensures
        out is Some,
        out->0@ == head_bytes(*r) + lease_bytes(r.kind, *l),
{
    let none = 0u32.into();
    let mut m = Message::new_with_id(r.xid, none, r.yiaddr.into(), none, none, &r.chaddr);
    m.set_opcode(r.op.into()).set_flags(r.flags.into());
    let options = m.opts_mut();
    options.insert(DhcpOption::MessageType(r.kind.into()));
    options.insert(DhcpOption::ServerIdentifier(l.server.into()));
    options.insert(DhcpOption::SubnetMask(l.mask.into()));
    options.insert(DhcpOption::Router(vec![l.router.into()]));
    options.insert(DhcpOption::DomainNameServer(vec![l.dns.into()]));
    options.insert(DhcpOption::AddressLeaseTime(l.seconds));
    m.to_vec().ok()
}

/// `dhcproto`'s `Message::to_vec`, as in [`write_lease`], on a message whose
/// only option is its type.
#[verifier::external_body]
fn write_bare(r: &RawReply) -> (out: Option<Vec<u8>>)
    requires
        r.chaddr@.len() <= 16,
    ensures
        out is Some,
        out->0@ == head_bytes(*r) + seq![53u8, 1u8, r.kind, 255u8],
{
    let none = 0u32.into();
    let mut m = Message::new_with_id(r.xid, none, r.yiaddr.into(), none, none, &r.chaddr);
    m.set_opcode(r.op.into()).set_flags(r.flags.into());
    m.opts_mut().insert(DhcpOption::MessageType(r.kind.into()));
    m.to_vec().ok()
}

// -- the server ---------------------------------------------------------------

/// The DHCP server of the network whose addresses `ipam` manages.
#[derive(Debug)]
pub struct DhcpServer {
    ipam: Ipam,
    /// The last reply.
    reply_buf: Vec<u8>,
}

impl View for DhcpServer {
    type V = ipam::IpamView;

    closed spec fn view(&self) -> ipam::IpamView {
        self.ipam@
    }
}

/// What the server reads of a message.
pub struct MessageView {
    pub xid: u32,
    pub flags: u16,
    pub ciaddr: Ipv4Addr,
    pub chaddr: Seq<u8>,
    pub kind: Option<u8>,
    pub requested: Option<Ipv4Addr>,
}

impl View for DhcpMessage {
    type V = MessageView;

    open spec fn view(&self) -> MessageView {
        MessageView {
            xid: self.xid,
            flags: self.flags,
            ciaddr: self.ciaddr,
            chaddr: self.chaddr@,
            kind: self.kind,
            requested: self.requested,
        }
    }
}

impl MessageView {
    /// The MAC address of the client.
    pub open spec fn mac(self) -> MacAddr {
        MacAddr::of(self.chaddr)
    }

    /// The address that the client asks for: the option where it is there,
    /// else the address that the client says it has.
    pub open spec fn wanted(self) -> Ipv4Addr {
        match self.requested {
            Some(ip) => ip,
            None => self.ciaddr,
        }
    }
}

/// The packet in which the server gives `ip` to the client that sent `m`.
pub open spec fn lease_packet(network: Network, m: MessageView, ip: Ipv4Addr, kind: u8) -> Seq<u8> {
    packet_of(
        m,
        ip,
        kind,
        Some(
            LeaseOptions {
                server: network.gateway,
                mask: mask_of(network.cidr@.prefix as int),
                router: network.gateway,
                dns: network.gateway,
                seconds: LEASE_SECONDS,
            },
        ),
    )
}

/// The mask with `prefix` leading one bits.
pub open spec fn mask_of(prefix: int) -> Ipv4Addr {
    choose|ip: Ipv4Addr| #[trigger] ip.num() == 0x1_0000_0000 - net::host_count(prefix)
}

/// The packet in which the server refuses what the client that sent `m` asks.
pub open spec fn nak_packet(m: MessageView) -> Seq<u8> {
    packet_of(m, net::any_address(), NAK, None)
}

/// A packet from the server to the client that sent `m`.
pub open spec fn packet_of(
    m: MessageView,
    yiaddr: Ipv4Addr,
    kind: u8,
    lease: Option<LeaseOptions>,
) -> Seq<u8> {
    seq![BOOT_REPLY, HTYPE_ETHERNET, m.chaddr.len() as u8, 0u8] + bytes::be32_bytes(m.xid) + zeros(2)
        + bytes::be16_bytes(m.flags) + zeros(4) + yiaddr.bytes() + zeros(8) + m.chaddr + zeros(
        16 - m.chaddr.len(),
    ) + zeros(192) + magic_cookie() + option_bytes(kind, lease)
}

/// Whether a server with the bindings `before` answers `m` with `reply` and
/// has the bindings `after` then.
///
/// A discover is answered with an offer of the address bound to the client,
/// which is the lowest free one where none was; where no address is free, it
/// is not answered. A request is acknowledged where it is for the address
/// bound to the client, and refused otherwise. Other messages are not
/// answered.
pub open spec fn answers(
    before: ipam::IpamView,
    m: MessageView,
    after: ipam::IpamView,
    reply: Option<Seq<u8>>,
) -> bool {
    let mac = m.mac();
    if m.kind == Some(DISCOVER) {
        if before.bindings.contains_key(mac) {
            &&& after == before
            &&& reply == Some(lease_packet(before.network, m, before.bindings[mac], OFFER))
        } else if before.exhausted() {
            after == before && reply is None
        } else {
            exists|ip: Ipv4Addr| #[trigger]
                before.lowest_free(ip) && after == before.bind(mac, ip) && reply == Some(
                    lease_packet(before.network, m, ip, OFFER),
                )
        }
    } else if m.kind == Some(REQUEST) {
        &&& after == before
        &&& reply == Some(
            if before.at(mac) == Some(m.wanted()) {
                lease_packet(before.network, m, m.wanted(), ACK)
            } else {
                nak_packet(m)
            },
        )
    } else {
        after == before && reply is None
    }
}

/// Whether `p` is a message to the server from an Ethernet client, with the
/// magic cookie.
pub open spec fn acceptable(p: Seq<u8>) -> bool {
    &&& p.len() >= MIN_PACKET_SIZE
    &&& p.subrange(MAGIC_COOKIE_OFFSET as int, MIN_PACKET_SIZE as int) == magic_cookie()
    &&& p[0] == BOOT_REQUEST
    &&& p[1] == HTYPE_ETHERNET
    &&& p[2] == 6
}

/// What the server reads of the packet `p`, with its options mended.
pub open spec fn message_in(p: Seq<u8>) -> MessageView {
    let (kind, requested) = dhcp_options(mended(p.skip(MIN_PACKET_SIZE as int)));
    MessageView {
        xid: bytes::be32_at(p, 4) as u32,
        flags: bytes::be16(p[10], p[11]) as u16,
        ciaddr: gateway::address_at(p, 12),
        chaddr: p.subrange(28, 34),
        kind,
        requested: match requested {
            Some(n) => Some(net::address_with(n)),
            None => None,
        },
    }
}

impl DhcpServer {
    /// A server for the network whose addresses `ipam` manages.
    pub fn new(ipam: Ipam) -> (r: Self)
        ensures
            r@ == ipam@,
    {
        DhcpServer { ipam, reply_buf: Vec::new() }
    }

    /// Answers the packet, if it is to be answered. The reply is kept until
    /// the next packet.
    ///
    /// Nothing is answered to a packet that is too short, has another magic
    /// cookie, does not come from an Ethernet client, or has no message type.
    pub fn handle(&mut self, packet: &[u8]) -> (r: Option<&[u8]>)
        ensures
            if acceptable(packet@) {
                answers(
                    old(self)@,
                    message_in(packet@),
                    final(self)@,
                    match r {
                        Some(b) => Some(b@),
                        None => None,
                    },
                )
            } else {
                r is None && final(self)@ == old(self)@
            },
    {
        match self.process(packet) {
            None => None,
            Some(encoded) => {
                self.reply_buf = encoded;
                Some(self.reply_buf.as_slice())
            },
        }
    }

    /// The reply to the packet, if it is to be answered.
    fn process(&mut self, packet: &[u8]) -> (r: Option<Vec<u8>>)
        ensures
            if acceptable(packet@) {
                answers(
                    old(self)@,
                    message_in(packet@),
                    final(self)@,
                    match r {
                        Some(b) => Some(b@),
                        None => None,
                    },
                )
            } else {
                r is None && final(self)@ == old(self)@
            },
    {
        if packet.len() < MIN_PACKET_SIZE {
            return None;
        }
        let at: usize = MAGIC_COOKIE_OFFSET;
        let cookie = packet[at] == 99 && packet[at + 1] == 130 && packet[at + 2] == 83 && packet[at
            + 3] == 99;
        proof {
            let c = packet@.subrange(236, 240);
            assert(c[0] == packet@[236] && c[1] == packet@[237] && c[2] == packet@[238] && c[3]
                == packet@[239]);
            if cookie {
                assert(c =~= magic_cookie());
            } else {
                assert(c != magic_cookie()) by {
                    if c == magic_cookie() {
                        assert(c[0] == 99 && c[1] == 130 && c[2] == 83 && c[3] == 99);
                    }
                }
            }
        }
        if !cookie || packet[2] > 16 {
            return None;
        }
        let clean = mend_options(packet);
        proof {
            law_mended_options_fit(packet@.skip(MIN_PACKET_SIZE as int));
        }
        let raw = match read_message(clean.as_slice()) {
            Some(raw) => raw,
            None => {
                return None;
            },
        };
        if raw.op != BOOT_REQUEST || raw.htype != HTYPE_ETHERNET || raw.hlen != 6 {
            return None;
        }
        let m = DhcpMessage {
            xid: raw.xid,
            flags: raw.flags,
            ciaddr: Ipv4Addr::from_u32(raw.ciaddr),
            chaddr: raw.chaddr,
            kind: raw.kind,
            requested: match raw.requested {
                Some(n) => Some(Ipv4Addr::from_u32(n)),
                None => None,
            },
        };
        proof {
            net::lemma_num_injective(m.ciaddr, gateway::address_at(packet@, 12));
            assert(clean@.subrange(28, 34) =~= packet@.subrange(28, 34));
            assert(m@.chaddr =~= packet@.subrange(28, 34));
        }
        self.respond(&m)
    }

    /// The reply to the message `m` of an Ethernet client.
    pub fn respond(&mut self, m: &DhcpMessage) -> (r: Option<Vec<u8>>)
        requires
            m.chaddr@.len() == 6,
        ensures
            answers(
                old(self)@,
                m@,
                final(self)@,
                match r {
                    Some(b) => Some(b@),
                    None => None,
                },
            ),
    {
        let mac = mac_at(m.chaddr.as_slice(), 0);
        assert(m.chaddr@.subrange(0, 6) =~= m.chaddr@);
        match m.kind {
            Some(kind) => {
                if kind == DISCOVER {
                    self.discover(m, mac)
                } else if kind == REQUEST {
                    self.request(m, mac)
                } else {
                    None
                }
            },
            None => None,
        }
    }

    /// Offers the client its address, binding one where it has none.
    fn discover(&mut self, m: &DhcpMessage, mac: MacAddr) -> (r: Option<Vec<u8>>)
        requires
            m.chaddr@.len() == 6,
            m.kind == Some(DISCOVER),
            mac == m@.mac(),
        ensures
            answers(
                old(self)@,
                m@,
                final(self)@,
                match r {
                    Some(b) => Some(b@),
                    None => None,
                },
            ),
    {
        let ip = match self.ipam.lookup(mac) {
            Some(ip) => ip,
            None => match self.ipam.allocate(mac) {
                Ok(ip) => {
                    assert(old(self)@.lowest_free(ip));
                    assert(!old(self)@.exhausted());
                    ip
                },
                Err(_) => {
                    return None;
                },
            },
        };
        self.reply(m, ip, OFFER)
    }

    /// Acknowledges a request for the address bound to the client, and refuses
    /// any other.
    fn request(&mut self, m: &DhcpMessage, mac: MacAddr) -> (r: Option<Vec<u8>>)
        requires
            m.chaddr@.len() == 6,
            m.kind == Some(REQUEST),
            mac == m@.mac(),
        ensures
            answers(
                old(self)@,
                m@,
                final(self)@,
                match r {
                    Some(b) => Some(b@),
                    None => None,
                },
            ),
    {
        let wanted = match m.requested {
            Some(ip) => ip,
            None => m.ciaddr,
        };
        let bound = match self.ipam.lookup(mac) {
            Some(ip) => ip == wanted,
            None => false,
        };
        if bound {
            self.reply(m, wanted, ACK)
        } else {
            self.nak(m)
        }
    }

    /// The packet that gives `ip` to the client that sent `m`.
    fn reply(&self, m: &DhcpMessage, ip: Ipv4Addr, kind: u8) -> (r: Option<Vec<u8>>)
        requires
            m.chaddr@.len() == 6,
        ensures
            r matches Some(b) && b@ == lease_packet(self@.network, m@, ip, kind),
    {
        let network = self.ipam.network();
        let mask = network.cidr.netmask();
        proof {
            let chosen = mask_of(network.cidr@.prefix as int);
            assert(chosen.num() == mask.num());
            net::lemma_num_injective(chosen, mask);
        }
        let head = RawReply {
            op: BOOT_REPLY,
            xid: m.xid,
            flags: m.flags,
            yiaddr: ip.to_u32(),
            chaddr: m.chaddr.clone(),
            kind,
        };
        let gateway: u32 = network.gateway.to_u32();
        let lease = RawLease {
            server: gateway,
            mask: mask.to_u32(),
            router: gateway,
            dns: gateway,
            seconds: LEASE_SECONDS,
        };
        assert(head.chaddr@ =~= m.chaddr@);
        proof {
            lemma_address_bytes(ip);
            lemma_address_bytes(network.gateway);
            lemma_address_bytes(mask);
        }
        write_lease(&head, &lease)
    }

    /// The packet that refuses what the client that sent `m` asks.
    fn nak(&self, m: &DhcpMessage) -> (r: Option<Vec<u8>>)
        requires
            m.chaddr@.len() == 6,
        ensures
            r matches Some(b) && b@ == nak_packet(m@),
    {
        let head = RawReply {
            op: BOOT_REPLY,
            xid: m.xid,
            flags: m.flags,
            yiaddr: 0,
            chaddr: m.chaddr.clone(),
            kind: NAK,
        };
        assert(head.chaddr@ =~= m.chaddr@);
        proof {
            lemma_address_bytes(net::any_address());
        }
        write_bare(&head)
    }
}

/// The octets of an address are the bytes of its number.
proof fn lemma_address_bytes(ip: Ipv4Addr)
    ensures
        0 <= ip.num() <= u32::MAX,
        bytes::be32_bytes(ip.num() as u32) == ip.bytes(),
{
    let n = ip.num() as u32;
    let same = net::address_with(n);
    net::lemma_address_with(n);
    net::lemma_num_injective(same, ip);
    assert(bytes::be32_bytes(n) =~= same.bytes());
}

/// Where the fields of a packet from the server stand.
pub proof fn lemma_packet_fields(
    m: MessageView,
    yiaddr: Ipv4Addr,
    kind: u8,
    lease: Option<LeaseOptions>,
)
    requires
        m.chaddr.len() == 6,
    ensures
        ({
            let p = packet_of(m, yiaddr, kind, lease);
            &&& p.len() >= MIN_PACKET_SIZE
            &&& p[0] == BOOT_REPLY
            &&& p.subrange(4, 8) == bytes::be32_bytes(m.xid)
            &&& p.subrange(10, 12) == bytes::be16_bytes(m.flags)
            &&& p.subrange(16, 20) == yiaddr.bytes()
            &&& gateway::address_at(p, 16) == yiaddr
            &&& p.subrange(28, 34) == m.chaddr
            &&& p.subrange(236, 240) == magic_cookie()
            &&& p.skip(MIN_PACKET_SIZE as int) == option_bytes(kind, lease)
        }),
{
    let p = packet_of(m, yiaddr, kind, lease);
    assert(p.subrange(4, 8) =~= bytes::be32_bytes(m.xid));
    assert(p.subrange(10, 12) =~= bytes::be16_bytes(m.flags));
    assert(p.subrange(16, 20) =~= yiaddr.bytes());
    assert(p[16] == yiaddr.a && p[17] == yiaddr.b && p[18] == yiaddr.c && p[19] == yiaddr.d);
    assert(p.subrange(28, 34) =~= m.chaddr);
    assert(p.subrange(236, 240) =~= magic_cookie());
    assert(p.skip(240) =~= option_bytes(kind, lease));
}

/// A client that has an address is offered that address, however often it
/// asks, and nothing changes.
pub proof fn law_bound_client_is_offered_its_address(
    before: ipam::IpamView,
    m: MessageView,
    after: ipam::IpamView,
    reply: Option<Seq<u8>>,
)
    requires
        m.chaddr.len() == 6,
        m.kind == Some(DISCOVER),
        before.bindings.contains_key(m.mac()),
        answers(before, m, after, reply),
    ensures
        after == before,
        reply matches Some(p) && gateway::address_at(p, 16) == before.bindings[m.mac()],
{
    lemma_packet_fields(
        m,
        before.bindings[m.mac()],
        OFFER,
        Some(
            LeaseOptions {
                server: before.network.gateway,
                mask: mask_of(before.network.cidr@.prefix as int),
                router: before.network.gateway,
                dns: before.network.gateway,
                seconds: LEASE_SECONDS,
            },
        ),
    );
}

/// A client that is offered an address and then requests it has it
/// acknowledged.
pub proof fn law_offered_address_is_acknowledged(
    before: ipam::IpamView,
    discover: MessageView,
    between: ipam::IpamView,
    offer: Seq<u8>,
    request: MessageView,
    after: ipam::IpamView,
    reply: Option<Seq<u8>>,
)
    requires
        discover.chaddr.len() == 6,
        discover.kind == Some(DISCOVER),
        answers(before, discover, between, Some(offer)),
        request.chaddr == discover.chaddr,
        request.kind == Some(REQUEST),
        request.wanted() == gateway::address_at(offer, 16),
        answers(between, request, after, reply),
    ensures
        after == between,
        between.at(request.mac()) == Some(request.wanted()),
        reply == Some(lease_packet(between.network, request, request.wanted(), ACK)),
{
    let mac = discover.mac();
    let ip = if before.bindings.contains_key(mac) {
        before.bindings[mac]
    } else {
        choose|ip: Ipv4Addr| #[trigger]
            before.lowest_free(ip) && between == before.bind(mac, ip) && Some(offer) == Some(
                lease_packet(before.network, discover, ip, OFFER),
            )
    };
    assert(between.bindings.contains_key(mac) && between.bindings[mac] == ip);
    assert(offer == lease_packet(before.network, discover, ip, OFFER));
    lemma_packet_fields(
        discover,
        ip,
        OFFER,
        Some(
            LeaseOptions {
                server: before.network.gateway,
                mask: mask_of(before.network.cidr@.prefix as int),
                router: before.network.gateway,
                dns: before.network.gateway,
                seconds: LEASE_SECONDS,
            },
        ),
    );
}

/// A request for an address that is not bound to the client, the gateway's
/// and those outside the pool among them, is refused: no address is given.
pub proof fn law_other_addresses_are_refused(
    before: ipam::IpamView,
    m: MessageView,
    after: ipam::IpamView,
    reply: Option<Seq<u8>>,
)
    requires
        m.chaddr.len() == 6,
        m.kind == Some(REQUEST),
        before.sound(),
        before.at(m.mac()) != Some(m.wanted()) || !before.network.pool.has(m.wanted()),
        answers(before, m, after, reply),
    ensures
        after == before,
        reply == Some(nak_packet(m)),
        reply matches Some(p) && gateway::address_at(p, 16) == net::any_address(),
{
    lemma_packet_fields(m, net::any_address(), NAK, None);
}

/// Answering keeps every bound address in the pool and bound to one MAC.
pub proof fn law_answers_keep_bindings_sound(
    before: ipam::IpamView,
    m: MessageView,
    after: ipam::IpamView,
    reply: Option<Seq<u8>>,
)
    requires
        before.sound(),
        answers(before, m, after, reply),
    ensures
        after.sound(),
        after.network == before.network,
        forall|mac: MacAddr| #[trigger]
            before.bindings.contains_key(mac) ==> after.at(mac) == before.at(mac),
{
    let mac = m.mac();
    if m.kind == Some(DISCOVER) && !before.bindings.contains_key(mac) && !before.exhausted() {
        let ip = choose|ip: Ipv4Addr| #[trigger]
            before.lowest_free(ip) && after == before.bind(mac, ip) && reply == Some(
                lease_packet(before.network, m, ip, OFFER),
            );
        assert(before.lowest_free(ip));
    }
}

// -- laws on bytes ------------------------------------------------------------

/// A packet is heard by its length, its first three bytes and its magic cookie
/// alone; what it says stands in its bytes, and in the options behind.
pub proof fn law_every_request_is_heard(p: Seq<u8>)
    ensures
        acceptable(p) <==> p.len() >= 240 && p[0] == 1 && p[1] == 1 && p[2] == 6 && p[236] == 99
            && p[237] == 130 && p[238] == 83 && p[239] == 99,
        acceptable(p) ==> {
            let m = message_in(p);
            let (kind, requested) = dhcp_options(mended(p.skip(240)));
            &&& m.xid == p[4] * 0x100_0000 + p[5] * 0x1_0000 + p[6] * 0x100 + p[7]
            &&& m.flags == p[10] * 256 + p[11]
            &&& m.ciaddr == (Ipv4Addr { a: p[12], b: p[13], c: p[14], d: p[15] })
            &&& m.chaddr == seq![p[28], p[29], p[30], p[31], p[32], p[33]]
            &&& m.kind == kind
            &&& m.requested is Some <==> requested is Some
            &&& requested is Some ==> requested->0 == m.requested->0.a * 0x100_0000
                + m.requested->0.b * 0x1_0000 + m.requested->0.c * 0x100 + m.requested->0.d
        },
{
    let c = p.subrange(236, 240);
    if p.len() >= 240 {
        assert(c[0] == p[236] && c[1] == p[237] && c[2] == p[238] && c[3] == p[239]);
        if c == magic_cookie() {
            assert(c[0] == 99 && c[1] == 130 && c[2] == 83 && c[3] == 99);
        }
        if p[236] == 99 && p[237] == 130 && p[238] == 83 && p[239] == 99 {
            assert(c =~= magic_cookie());
        }
    }
    if acceptable(p) {
        assert(message_in(p).chaddr =~= seq![p[28], p[29], p[30], p[31], p[32], p[33]]);
        let (kind, requested) = dhcp_options(mended(p.skip(240)));
        if requested is Some {
            net::lemma_address_with(requested->0);
        }
    }
}

/// Options without the few that have a length of their own are read as they
/// are.
pub proof fn law_ordinary_options_are_read_as_they_are(s: Seq<u8>)
    requires
        forall|i: int|
            0 <= i < s.len() ==> {
                let b = #[trigger] s[i];
                b != 80 && b != 81 && b != 94 && b != 152 && b != 153 && b != 154 && b != 155
            },
    ensures
        mended(s) == s,
    decreases s.len(),
{
    lemma_ordinary_options_fit(s);
    law_mended_options_fit(s);
}

proof fn lemma_ordinary_options_fit(s: Seq<u8>)
    requires
        forall|i: int|
            0 <= i < s.len() ==> {
                let b = #[trigger] s[i];
                b != 80 && b != 81 && b != 94 && b != 152 && b != 153 && b != 154 && b != 155
            },
    ensures
        options_fit(s),
    decreases s.len(),
{
    if !options_end(s) {
        let n = if s[0] == 0 {
            1
        } else {
            run_size(s, s[0])
        };
        lemma_run(s, s[0]);
        let t = s.skip(n);
        assert forall|i: int| 0 <= i < t.len() implies {
            let b = #[trigger] t[i];
            b != 80 && b != 81 && b != 94 && b != 152 && b != 153 && b != 154 && b != 155
        } by {
            assert(t[i] == s[i + n]);
        }
        lemma_ordinary_options_fit(t);
    }
}

/// Whether `p` is a packet from the server to the client that sent `m`, with
/// the address `ip` for it, and behind the magic cookie the options `options`.
pub open spec fn is_packet_to(m: MessageView, ip: Ipv4Addr, options: Seq<u8>, p: Seq<u8>) -> bool {
    &&& p.len() == 240 + options.len()
    &&& p[0] == 2 && p[1] == 1 && p[2] == 6 && p[3] == 0
    &&& p[4] * 0x100_0000 + p[5] * 0x1_0000 + p[6] * 0x100 + p[7] == m.xid
    &&& p[10] * 256 + p[11] == m.flags
    &&& p.subrange(12, 16) == seq![0u8, 0, 0, 0]
    &&& p.subrange(16, 20) == seq![ip.a, ip.b, ip.c, ip.d]
    &&& p.subrange(20, 28) == seq![0u8, 0, 0, 0, 0, 0, 0, 0]
    &&& p.subrange(28, 34) == m.chaddr
    &&& p.subrange(236, 240) == seq![99u8, 130, 83, 99]
    &&& p.skip(240) == options
}

/// Whether `p` gives the address `ip` in the network `n` to the client that
/// sent `m`, with a message of the type `kind`: the mask has as many leading
/// one bits as the prefix of the network is long, and the router, the DNS
/// server and the server are the gateway, for an hour.
pub open spec fn gives(n: Network, m: MessageView, ip: Ipv4Addr, kind: u8, p: Seq<u8>) -> bool {
    let g = n.gateway;
    let mask = p.subrange(242, 246);
    &&& is_packet_to(
        m,
        ip,
        seq![1u8, 4] + mask + seq![3u8, 4, g.a, g.b, g.c, g.d] + seq![6u8, 4, g.a, g.b, g.c, g.d]
            + seq![51u8, 4, 0, 0, 14, 16] + seq![53u8, 1, kind] + seq![
            54u8,
            4,
            g.a,
            g.b,
            g.c,
            g.d,
            255,
        ],
        p,
    )
    &&& mask[0] * 0x100_0000 + mask[1] * 0x1_0000 + mask[2] * 0x100 + mask[3] == 0x1_0000_0000
        - vstd::arithmetic::power2::pow2((32 - n.cidr@.prefix) as nat)
}

proof fn lemma_is_packet_to(
    m: MessageView,
    ip: Ipv4Addr,
    kind: u8,
    lease: Option<LeaseOptions>,
    options: Seq<u8>,
)
    requires
        m.chaddr.len() == 6,
        option_bytes(kind, lease) == options,
    ensures
        is_packet_to(m, ip, options, packet_of(m, ip, kind, lease)),
{
    lemma_packet_fields(m, ip, kind, lease);
    let p = packet_of(m, ip, kind, lease);
    let x = bytes::be32_bytes(m.xid);
    bytes::lemma_be32(m.xid);
    bytes::lemma_be16(m.flags);
    let s = p.subrange(4, 8);
    assert(p[4] == s[0] && p[5] == s[1] && p[6] == s[2] && p[7] == s[3]);
    let t = p.subrange(10, 12);
    assert(p[10] == t[0] && p[11] == t[1]);
    assert(p.subrange(12, 16) =~= seq![0u8, 0, 0, 0]);
    assert(p.subrange(20, 28) =~= seq![0u8, 0, 0, 0, 0, 0, 0, 0]);
    assert(p.subrange(16, 20) =~= seq![ip.a, ip.b, ip.c, ip.d]);
    assert(p.subrange(236, 240) =~= seq![99u8, 130, 83, 99]);
    assert(p.len() == 240 + options.len());
}

proof fn lemma_gives(n: Network, m: MessageView, ip: Ipv4Addr, kind: u8)
    requires
        m.chaddr.len() == 6,
        n.cidr@.prefix <= 32,
    ensures
        gives(n, m, ip, kind, lease_packet(n, m, ip, kind)),
{
    let prefix = n.cidr@.prefix as int;
    let size = net::host_count(prefix);
    vstd::arithmetic::power2::lemma2_to64();
    vstd::arithmetic::power2::lemma_pow2_pos((32 - prefix) as nat);
    if prefix > 0 {
        vstd::arithmetic::power2::lemma_pow2_strictly_increases((32 - prefix) as nat, 32);
    }
    let number = 0x1_0000_0000 - size;
    let made = net::address_with(number as u32);
    net::lemma_address_with(number as u32);
    assert(made.num() == number);
    let mask = mask_of(prefix);
    assert(mask.num() == number);
    let g = n.gateway;
    let lease = LeaseOptions {
        server: g,
        mask,
        router: g,
        dns: g,
        seconds: LEASE_SECONDS,
    };
    let p = lease_packet(n, m, ip, kind);
    let bits = seq![mask.a, mask.b, mask.c, mask.d];
    let options = seq![1u8, 4] + bits + seq![3u8, 4, g.a, g.b, g.c, g.d] + seq![6u8, 4, g.a, g.b, g.c, g.d] + seq![51u8, 4, 0, 0, 14, 16] + seq![53u8, 1, kind]
        + seq![54u8, 4, g.a, g.b, g.c, g.d, 255];
    assert(bytes::be32_bytes(LEASE_SECONDS) =~= seq![0u8, 0, 14, 16]);
    assert(option_bytes(kind, Some(lease)) =~= options);
    lemma_is_packet_to(m, ip, kind, Some(lease), options);
    assert(p.subrange(242, 246) =~= bits) by {
        let o = p.skip(240);
        assert(o == options);
        assert(p[242] == o[2] && p[243] == o[3] && p[244] == o[4] && p[245] == o[5]);
    }
}

/// What a packet that gives an address says, byte by byte.
pub proof fn law_what_a_lease_says(n: Network, m: MessageView, ip: Ipv4Addr, kind: u8, p: Seq<u8>)
    requires
        m.chaddr.len() == 6,
        gives(n, m, ip, kind, p),
    ensures
        ({
            let g = n.gateway;
            &&& p.len() == 274
            &&& p[0] == 2 && p[1] == 1 && p[2] == 6
            &&& p[4] * 0x100_0000 + p[5] * 0x1_0000 + p[6] * 0x100 + p[7] == m.xid
            &&& p[10] * 256 + p[11] == m.flags
            &&& p[16] == ip.a && p[17] == ip.b && p[18] == ip.c && p[19] == ip.d
            &&& p.subrange(28, 34) == m.chaddr
            &&& p[236] == 99 && p[237] == 130 && p[238] == 83 && p[239] == 99
            &&& p[240] == 1 && p[241] == 4
            &&& p[242] * 0x100_0000 + p[243] * 0x1_0000 + p[244] * 0x100 + p[245] == 0x1_0000_0000
                - vstd::arithmetic::power2::pow2((32 - n.cidr@.prefix) as nat)
            &&& p[246] == 3 && p[247] == 4
            &&& p[248] == g.a && p[249] == g.b && p[250] == g.c && p[251] == g.d
            &&& p[252] == 6 && p[253] == 4
            &&& p[254] == g.a && p[255] == g.b && p[256] == g.c && p[257] == g.d
            &&& p[258] == 51 && p[259] == 4
            &&& p[260] * 0x100_0000 + p[261] * 0x1_0000 + p[262] * 0x100 + p[263] == 3600
            &&& p[264] == 53 && p[265] == 1 && p[266] == kind
            &&& p[267] == 54 && p[268] == 4
            &&& p[269] == g.a && p[270] == g.b && p[271] == g.c && p[272] == g.d
            &&& p[273] == 255
        }),
{
    let g = n.gateway;
    let mask = p.subrange(242, 246);
    let options = seq![1u8, 4] + mask + seq![3u8, 4, g.a, g.b, g.c, g.d] + seq![
        6u8,
        4,
        g.a,
        g.b,
        g.c,
        g.d,
    ] + seq![51u8, 4, 0, 0, 14, 16] + seq![53u8, 1, kind] + seq![54u8, 4, g.a, g.b, g.c, g.d, 255];
    let s = p.skip(240);
    assert(s == options);
    assert(options.len() == 34);
    assert forall|i: int| 240 <= i < 274 implies #[trigger] p[i] == options[i - 240] by {
        assert(s[i - 240] == p[i]);
    }
    let a = p.subrange(16, 20);
    assert(a[0] == p[16] && a[1] == p[17] && a[2] == p[18] && a[3] == p[19]);
    let c = p.subrange(236, 240);
    assert(c[0] == p[236] && c[1] == p[237] && c[2] == p[238] && c[3] == p[239]);
}

/// Every offer and every acknowledgement, on every message and in every
/// network, says byte by byte what a client needs: its address, the mask of the
/// network, the gateway as router, DNS server and server, and an hour.
pub proof fn law_every_lease_is_complete(
    before: ipam::IpamView,
    m: MessageView,
    after: ipam::IpamView,
    p: Seq<u8>,
)
    requires
        m.chaddr.len() == 6,
        before.network.cidr@.prefix <= 32,
        answers(before, m, after, Some(p)),
        p.len() > 244,
    ensures
        ({
            let n = before.network;
            let c = m.chaddr;
            let mac = MacAddr { o0: c[0], o1: c[1], o2: c[2], o3: c[3], o4: c[4], o5: c[5] };
            let ip = after.bindings[mac];
            &&& after.bindings.contains_key(mac)
            &&& p.len() == 274
            &&& p[16] == ip.a && p[17] == ip.b && p[18] == ip.c && p[19] == ip.d
            &&& p[240] == 1 && p[241] == 4
            &&& p[242] * 0x100_0000 + p[243] * 0x1_0000 + p[244] * 0x100 + p[245] == 0x1_0000_0000
                - vstd::arithmetic::power2::pow2((32 - n.cidr@.prefix) as nat)
            &&& p.subrange(246, 248) == seq![3u8, 4] && p.subrange(248, 252) == seq![
                n.gateway.a,
                n.gateway.b,
                n.gateway.c,
                n.gateway.d,
            ]
            &&& p.subrange(252, 254) == seq![6u8, 4] && p.subrange(254, 258) == p.subrange(248, 252)
            &&& p.subrange(258, 264) == seq![51u8, 4, 0, 0, 14, 16]
            &&& p.subrange(264, 267) == seq![53u8, 1, if m.kind == Some(1u8) { 2 } else { 5 }]
            &&& p.subrange(267, 269) == seq![54u8, 4] && p.subrange(269, 273) == p.subrange(248, 252)
        }),
{
    law_what_is_answered(before, m, after, Some(p));
    let n = before.network;
    let c = m.chaddr;
    let mac = MacAddr { o0: c[0], o1: c[1], o2: c[2], o3: c[3], o4: c[4], o5: c[5] };
    let ip = after.bindings[mac];
    let kind: u8 = if m.kind == Some(1u8) {
        2
    } else {
        5
    };
    assert(gives(n, m, ip, kind, p)) by {
        if m.kind == Some(3u8) && !(before.bindings.contains_key(mac) && gives(
            n,
            m,
            ip,
            kind,
            p,
        )) {
            assert(p.len() == 240 + 4);
        }
    }
    law_what_a_lease_says(n, m, ip, kind, p);
    let g = n.gateway;
    assert(p.subrange(246, 248) =~= seq![3u8, 4]);
    assert(p.subrange(248, 252) =~= seq![g.a, g.b, g.c, g.d]);
    assert(p.subrange(252, 254) =~= seq![6u8, 4]);
    assert(p.subrange(254, 258) =~= p.subrange(248, 252));
    assert(p.subrange(264, 267) =~= seq![53u8, 1, kind]);
    assert(p.subrange(267, 269) =~= seq![54u8, 4]);
    assert(p.subrange(269, 273) =~= p.subrange(248, 252));
    let t = p.subrange(258, 264);
    let s = p.skip(240);
    let mask = p.subrange(242, 246);
    assert(s[20] == p[260] && s[21] == p[261] && s[22] == p[262] && s[23] == p[263]);
    assert(t =~= seq![51u8, 4, 0, 0, 14, 16]);
}

/// What the server answers, on every message, in bytes.
///
/// A discover, of type 1, is answered with an offer, of type 2, of the address
/// that is bound to the client, and this stays as it is; where none is, of the
/// lowest address of the pool that is bound to nobody, which is then bound to
/// it; and not at all where every address is bound. A request, of type 3, is
/// answered with an acknowledgement, of type 5, where the address that it names
/// in its option, or else in its field, is the one bound to the client, and
/// otherwise with a refusal, of type 6, that gives no address. Nothing else is
/// answered, and nothing else changes.
#[verifier::rlimit(40)]
pub proof fn law_what_is_answered(
    before: ipam::IpamView,
    m: MessageView,
    after: ipam::IpamView,
    reply: Option<Seq<u8>>,
)
    requires
        m.chaddr.len() == 6,
        before.network.cidr@.prefix <= 32,
        answers(before, m, after, reply),
    ensures
        ({
            let c = m.chaddr;
            let mac = MacAddr { o0: c[0], o1: c[1], o2: c[2], o3: c[3], o4: c[4], o5: c[5] };
            let n = before.network;
            let bound = |ip: Ipv4Addr| exists|x: MacAddr| #[trigger]
                before.bindings.contains_key(x) && before.bindings[x] == ip;
            let pooled = |ip: Ipv4Addr| n.pool.start.num() <= ip.num() <= n.pool.end.num();
            let named = match m.requested {
                Some(ip) => ip,
                None => m.ciaddr,
            };
            &&& m.kind == Some(1u8) && before.bindings.contains_key(mac) ==> {
                &&& after == before
                &&& reply matches Some(p) && gives(n, m, before.bindings[mac], 2, p)
            }
            &&& m.kind == Some(1u8) && !before.bindings.contains_key(mac) ==> {
                ||| {
                    &&& reply is None
                    &&& after == before
                    &&& forall|ip: Ipv4Addr| #[trigger] pooled(ip) ==> bound(ip)
                }
                ||| exists|ip: Ipv4Addr|
                    {
                        &&& #[trigger] pooled(ip)
                        &&& !bound(ip)
                        &&& forall|x: Ipv4Addr| #[trigger]
                            pooled(x) && x.num() < ip.num() ==> bound(x)
                        &&& after.network == n
                        &&& after.bindings == before.bindings.insert(mac, ip)
                        &&& reply matches Some(p) && gives(n, m, ip, 2, p)
                    }
            }
            &&& m.kind == Some(3u8) ==> {
                &&& after == before
                &&& reply matches Some(p) && if before.bindings.contains_key(mac)
                    && before.bindings[mac] == named {
                    gives(n, m, named, 5, p)
                } else {
                    is_packet_to(
                        m,
                        Ipv4Addr { a: 0, b: 0, c: 0, d: 0 },
                        seq![53u8, 1, 6, 255],
                        p,
                    )
                }
            }
            &&& m.kind != Some(1u8) && m.kind != Some(3u8) ==> after == before && reply is None
        }),
{
    let c = m.chaddr;
    let mac = MacAddr { o0: c[0], o1: c[1], o2: c[2], o3: c[3], o4: c[4], o5: c[5] };
    let n = before.network;
    assert(m.mac() == mac);
    let pooled = |ip: Ipv4Addr| n.pool.start.num() <= ip.num() <= n.pool.end.num();
    let bound = |ip: Ipv4Addr| exists|x: MacAddr| #[trigger]
        before.bindings.contains_key(x) && before.bindings[x] == ip;
    assert forall|ip: Ipv4Addr| bound(ip) == #[trigger] before.bound(ip) by {}
    let named = match m.requested {
        Some(ip) => ip,
        None => m.ciaddr,
    };
    if m.kind == Some(1u8) {
        if before.bindings.contains_key(mac) {
            lemma_gives(n, m, before.bindings[mac], 2);
        } else if before.exhausted() {
            assert forall|ip: Ipv4Addr| #[trigger] pooled(ip) implies bound(ip) by {
                assert(before.bound(ip));
            }
        } else {
            let ip = choose|ip: Ipv4Addr| #[trigger]
                before.lowest_free(ip) && after == before.bind(mac, ip) && reply == Some(
                    lease_packet(before.network, m, ip, OFFER),
                );
            lemma_gives(n, m, ip, 2);
            assert(pooled(ip) && !bound(ip));
            assert forall|x: Ipv4Addr| #[trigger] pooled(x) && x.num() < ip.num() implies bound(
                x,
            ) by {
                assert(before.bound(x));
            }
        }
    } else if m.kind == Some(3u8) {
        lemma_gives(n, m, named, 5);
        lemma_is_packet_to(
            m,
            Ipv4Addr { a: 0, b: 0, c: 0, d: 0 },
            6,
            None,
            seq![53u8, 1, 6, 255],
        );
    }
}

} // verus!
