//! The WAN of a port, which is one `passt` process: how the process is
//! started, how frames are carried to it and back, and when it is started
//! again.

use vstd::prelude::*;
use vstd::slice::slice_subrange;

use crate::bytes;
use crate::bytes::{push_all, push_be16, read_be16};
use crate::model::MacAddr;
use crate::switch::frame::mac_at;
use crate::text;
use crate::text::{decimal_string, push_decimal, string_of};

verus! {

/// The direction of a frame from the VM to the wire.
pub const VNET_EGRESS: u8 = 0x01;

/// The direction of a frame from the wire to the VM.
pub const VNET_INGRESS: u8 = 0x02;

/// The length of a vnet header: the direction, a reserved byte, and the length
/// of the frame in two bytes.
pub const VNET_HEADER_LEN: usize = 4;

/// The length of what stands before each frame of a stream: the length of the
/// frame in four bytes.
pub const FRAME_HEADER_LEN: usize = 4;

/// How many bytes of a frame that is not complete are kept.
pub const MAX_PASST_PENDING: usize = 1048576;

// -- starting -----------------------------------------------------------------

/// A TCP port of the host that is forwarded to a port of the VM.
#[derive(Debug, Clone, Copy, PartialEq, Eq, Structural)]
pub struct PortForward {
    pub host: u16,
    pub vm: u16,
}

/// What a process is started with: the address of the VM, and the ports that
/// are forwarded to it.
#[derive(Debug, PartialEq, Eq)]
pub struct PasstConfig {
    pub vm_ip: String,
    pub forwards: Vec<PortForward>,
}

/// What a [`PasstConfig`] holds.
#[verifier::ext_equal]
pub struct ConfigView {
    pub vm_ip: Seq<char>,
    pub forwards: Seq<PortForward>,
}

impl View for PasstConfig {
    type V = ConfigView;

    open spec fn view(&self) -> ConfigView {
        ConfigView { vm_ip: self.vm_ip@, forwards: self.forwards@ }
    }
}

impl Clone for PasstConfig {
    fn clone(&self) -> (r: Self)
        ensures
            r@ == self@,
    {
        let mut forwards: Vec<PortForward> = Vec::new();
        let mut i: usize = 0;
        while i < self.forwards.len()
            invariant
                i <= self.forwards@.len(),
                forwards@ == self.forwards@.take(i as int),
            decreases self.forwards@.len() - i,
        {
            forwards.push(self.forwards[i]);
            assert(self.forwards@.take(i + 1) =~= self.forwards@.take(i as int).push(
                self.forwards@[i as int],
            ));
            i = i + 1;
        }
        assert(forwards@ =~= self.forwards@);
        PasstConfig { vm_ip: self.vm_ip.clone(), forwards }
    }
}

impl PasstConfig {
    /// Whether the two hold the same.
    pub fn same(&self, other: &PasstConfig) -> (r: bool)
        ensures
            r == (self@ == other@),
    {
        if self.vm_ip != other.vm_ip {
            return false;
        }
        if self.forwards.len() != other.forwards.len() {
            return false;
        }
        let mut i: usize = 0;
        while i < self.forwards.len()
            invariant
                i <= self.forwards@.len(),
                self.forwards@.len() == other.forwards@.len(),
                forall|j: int| 0 <= j < i ==> self.forwards@[j] == other.forwards@[j],
            decreases self.forwards@.len() - i,
        {
            if self.forwards[i] != other.forwards[i] {
                return false;
            }
            i = i + 1;
        }
        assert(self@ =~= other@);
        true
    }
}

/// The forwards that the published pairs `f` of a port, VM port first, call
/// for.
pub open spec fn forwards_for(f: Seq<(u16, u16)>) -> Seq<PortForward> {
    f.map_values(|p: (u16, u16)| PortForward { host: p.1, vm: p.0 })
}

/// What the process of a port is started with, for the VM's address and the
/// published pairs, VM port first.
pub fn passt_config_for(vm_ip: &str, published: &Vec<(u16, u16)>) -> (r: PasstConfig)
    ensures
        r@ == (ConfigView { vm_ip: vm_ip@, forwards: forwards_for(published@) }),
{
    let mut forwards: Vec<PortForward> = Vec::new();
    let mut i: usize = 0;
    while i < published.len()
        invariant
            i <= published@.len(),
            forwards@ == forwards_for(published@.take(i as int)),
        decreases published@.len() - i,
    {
        forwards.push(PortForward { host: published[i].1, vm: published[i].0 });
        assert(forwards@ =~= forwards_for(published@.take(i + 1)));
        i = i + 1;
    }
    assert(published@.take(published@.len() as int) =~= published@);
    PasstConfig { vm_ip: vm_ip.to_owned(), forwards }
}

/// The number `n` in decimal, with a minus sign where it is negative.
pub open spec fn signed_decimal(n: int) -> Seq<char> {
    if n < 0 {
        seq!['-'] + text::decimal((-n) as nat)
    } else {
        text::decimal(n as nat)
    }
}

/// The argument for one forward: `-t`, the host port, a colon, the address of
/// the VM, a slash, and the VM port.
pub open spec fn forward_arg(vm_ip: Seq<char>, f: PortForward) -> Seq<char> {
    seq!['-', 't'] + text::decimal(f.host as nat) + seq![':'] + vm_ip + seq!['/'] + text::decimal(
        f.vm as nat,
    )
}

/// The arguments that a process is started with, to serve the descriptor
/// `fd`.
pub open spec fn argv_of(c: ConfigView, fd: int) -> Seq<Seq<char>> {
    seq!["passt"@, "--fd"@, signed_decimal(fd), "-a"@, c.vm_ip] + c.forwards.map_values(
        |f: PortForward| forward_arg(c.vm_ip, f),
    )
}

/// `fd` in decimal.
fn fd_text(fd: i32) -> (r: String)
    ensures
        r@ == signed_decimal(fd as int),
{
    if fd >= 0 {
        return decimal_string(fd as u64);
    }
    let mut out: Vec<char> = Vec::new();
    out.push('-');
    push_decimal(&mut out, (-(fd as i64)) as u64);
    assert(out@ =~= signed_decimal(fd as int));
    string_of(out.as_slice())
}

/// The argument for one forward.
fn forward_text(vm_ip: &str, f: PortForward) -> (r: String)
    ensures
        r@ == forward_arg(vm_ip@, f),
{
    let mut s = String::new();
    s.push('-');
    s.push('t');
    s.append(decimal_string(f.host as u64).as_str());
    s.push(':');
    s.append(vm_ip);
    s.push('/');
    s.append(decimal_string(f.vm as u64).as_str());
    assert(s@ =~= forward_arg(vm_ip@, f));
    s
}

/// The arguments that a process is started with, to serve the descriptor `fd`:
/// the descriptor, the address of the VM, and one `-t` for each forward, in
/// order.
pub fn passt_argv(config: &PasstConfig, fd: i32) -> (r: Vec<String>)
    ensures
        r@.map_values(|s: String| s@) == argv_of(config@, fd as int),
{
    let mut argv: Vec<String> = Vec::new();
    argv.push("passt".to_owned());
    argv.push("--fd".to_owned());
    argv.push(fd_text(fd));
    argv.push("-a".to_owned());
    argv.push(config.vm_ip.clone());
    let ghost want = argv_of(config@, fd as int);
    let mut i: usize = 0;
    while i < config.forwards.len()
        invariant
            i <= config.forwards@.len(),
            argv.len() == 5 + i,
            want == argv_of(config@, fd as int),
            forall|j: int| 0 <= j < argv.len() ==> (#[trigger] argv@[j])@ == want[j],
        decreases config.forwards@.len() - i,
    {
        let arg = forward_text(config.vm_ip.as_str(), config.forwards[i]);
        assert(arg@ == want[5 + i]);
        argv.push(arg);
        i = i + 1;
    }
    assert(argv@.map_values(|s: String| s@) =~= want);
    argv
}

// -- vnet frames --------------------------------------------------------------

/// Why bytes are not a vnet frame.
#[derive(Debug, Clone, Copy, PartialEq, Eq, Structural)]
pub enum VnetError {
    /// They are fewer than a header has.
    TooShort(usize),
    /// They are fewer than the header announces.
    Truncated { declared: u16, have: usize },
}

impl VnetError {
    /// The error in words.
    pub fn message(&self) -> (r: String)
        ensures
            r@ == (match *self {
                VnetError::TooShort(n) => "vnet buffer too short: "@ + text::decimal(n as nat)
                    + " bytes"@,
                VnetError::Truncated { declared, have } => "vnet frame truncated: declared "@
                    + text::decimal(declared as nat) + ", have "@ + text::decimal(have as nat),
            }),
    {
        match self {
            VnetError::TooShort(n) => {
                let mut s = "vnet buffer too short: ".to_owned();
                s.append(decimal_string(*n as u64).as_str());
                s.append(" bytes");
                s
            },
            VnetError::Truncated { declared, have } => {
                let mut s = "vnet frame truncated: declared ".to_owned();
                s.append(decimal_string(*declared as u64).as_str());
                s.append(", have ");
                s.append(decimal_string(*have as u64).as_str());
                s
            },
        }
    }
}

/// The bytes that carry `payload` in the given direction. The length is
/// written in 16 bits.
pub open spec fn vnet_bytes(direction: u8, payload: Seq<u8>) -> Seq<u8> {
    seq![direction, 0u8] + bytes::be16_bytes((payload.len() % 0x1_0000) as u16) + payload
}

/// The bytes that carry the frame `payload` in the given direction.
pub fn encode_vnet(direction: u8, payload: &[u8]) -> (r: Vec<u8>)
    ensures
        r@ == vnet_bytes(direction, payload@),
{
    let mut out: Vec<u8> = Vec::new();
    out.push(direction);
    out.push(0);
    push_be16(&mut out, (payload.len() % 0x1_0000) as u16);
    push_all(&mut out, payload);
    assert(out@ =~= vnet_bytes(direction, payload@));
    out
}

/// What the bytes `b` carry: the direction and the frame, or why there is
/// none.
pub open spec fn vnet_content(b: Seq<u8>) -> Result<(u8, Seq<u8>), VnetError> {
    let len = bytes::be16(b[2], b[3]);
    if b.len() < VNET_HEADER_LEN {
        Err(VnetError::TooShort(b.len() as usize))
    } else if b.len() < VNET_HEADER_LEN + len {
        Err(
            VnetError::Truncated {
                declared: len as u16,
                have: (b.len() - VNET_HEADER_LEN) as usize,
            },
        )
    } else {
        Ok((b[0], b.subrange(VNET_HEADER_LEN as int, VNET_HEADER_LEN + len)))
    }
}

/// The direction and the frame that the bytes carry.
pub fn decode_vnet(buf: &[u8]) -> (r: Result<(u8, &[u8]), VnetError>)
    ensures
        match r {
            Ok((direction, payload)) => vnet_content(buf@) == Ok::<(u8, Seq<u8>), VnetError>(
                (direction, payload@),
            ),
            Err(e) => vnet_content(buf@) == Err::<(u8, Seq<u8>), VnetError>(e),
        },
{
    if buf.len() < VNET_HEADER_LEN {
        return Err(VnetError::TooShort(buf.len()));
    }
    let len: u16 = read_be16(buf[2], buf[3]);
    if buf.len() - VNET_HEADER_LEN < len as usize {
        return Err(
            VnetError::Truncated { declared: len, have: buf.len() - VNET_HEADER_LEN },
        );
    }
    Ok((buf[0], slice_subrange(buf, VNET_HEADER_LEN, VNET_HEADER_LEN + len as usize)))
}

/// What was encoded is decoded to the same direction and the same frame, for
/// every frame whose length fits in 16 bits.
pub proof fn law_vnet_round_trip(direction: u8, payload: Seq<u8>)
    requires
        payload.len() <= 0xffff,
    ensures
        vnet_content(vnet_bytes(direction, payload)) == Ok::<(u8, Seq<u8>), VnetError>(
            (direction, payload),
        ),
{
    let b = vnet_bytes(direction, payload);
    bytes::lemma_be16(payload.len() as u16);
    assert(b[2] == bytes::be16_bytes(payload.len() as u16)[0]);
    assert(b[3] == bytes::be16_bytes(payload.len() as u16)[1]);
    assert(b.subrange(4, 4 + payload.len() as int) =~= payload);
}

// -- streams of frames --------------------------------------------------------

/// The bytes that carry `payload` in a stream: its length, in 32 bits, and the
/// frame.
pub open spec fn frame_bytes(payload: Seq<u8>) -> Seq<u8> {
    bytes::be32_bytes((payload.len() % 0x1_0000_0000) as u32) + payload
}

/// The bytes that carry the frame `payload` in a stream.
pub fn encode_frame(payload: &[u8]) -> (r: Vec<u8>)
    ensures
        r@ == frame_bytes(payload@),
{
    let n: u32 = (payload.len() as u64 % 0x1_0000_0000) as u32;
    let mut out: Vec<u8> = Vec::new();
    out.push((n / 0x100_0000) as u8);
    out.push((n / 0x1_0000 % 0x100) as u8);
    out.push((n / 0x100 % 0x100) as u8);
    out.push((n % 0x100) as u8);
    push_all(&mut out, payload);
    assert(out@ =~= frame_bytes(payload@));
    out
}

/// Whether `b` starts with a complete frame.
pub open spec fn starts_with_frame(b: Seq<u8>) -> bool {
    b.len() >= FRAME_HEADER_LEN && b.len() >= FRAME_HEADER_LEN + bytes::be32_at(b, 0)
}

/// The frame that `b` starts with.
pub open spec fn first_frame(b: Seq<u8>) -> Seq<u8> {
    b.subrange(FRAME_HEADER_LEN as int, FRAME_HEADER_LEN + bytes::be32_at(b, 0))
}

/// The first frame in `buf`, with the number of bytes that it takes up; none
/// where it is not complete.
pub fn next_frame(buf: &[u8]) -> (r: Option<(usize, Vec<u8>)>)
    ensures
        match r {
            Some((n, payload)) => starts_with_frame(buf@) && payload@ == first_frame(buf@) && n
                == FRAME_HEADER_LEN + payload@.len(),
            None => !starts_with_frame(buf@),
        },
{
    match decode_frame(buf) {
        Some(payload) => {
            let mut v: Vec<u8> = Vec::new();
            push_all(&mut v, payload);
            assert(v@ =~= payload@);
            Some((FRAME_HEADER_LEN + payload.len(), v))
        },
        None => None,
    }
}

/// The first frame in `buf`, where it is complete.
pub fn decode_frame(buf: &[u8]) -> (r: Option<&[u8]>)
    ensures
        match r {
            Some(payload) => starts_with_frame(buf@) && payload@ == first_frame(buf@)
                && FRAME_HEADER_LEN + payload@.len() <= buf.len(),
            None => !starts_with_frame(buf@),
        },
{
    if buf.len() < FRAME_HEADER_LEN {
        return None;
    }
    let n: u64 = buf[0] as u64 * 0x100_0000 + buf[1] as u64 * 0x1_0000 + buf[2] as u64 * 0x100
        + buf[3] as u64;
    if ((buf.len() - FRAME_HEADER_LEN) as u64) < n {
        return None;
    }
    Some(slice_subrange(buf, FRAME_HEADER_LEN, FRAME_HEADER_LEN + n as usize))
}

/// The complete frames that `b` starts with, in order.
pub open spec fn frames_in(b: Seq<u8>) -> Seq<Seq<u8>>
    decreases b.len(),
{
    if starts_with_frame(b) {
        seq![first_frame(b)] + frames_in(b.skip(FRAME_HEADER_LEN + bytes::be32_at(b, 0)))
    } else {
        seq![]
    }
}

/// What is left of `b` behind the complete frames.
pub open spec fn rest_of(b: Seq<u8>) -> Seq<u8>
    decreases b.len(),
{
    if starts_with_frame(b) {
        rest_of(b.skip(FRAME_HEADER_LEN + bytes::be32_at(b, 0)))
    } else {
        b
    }
}

/// The receiving end of a stream of frames: the bytes of a frame that is not
/// complete yet.
#[derive(Debug)]
pub struct FrameReader {
    pending: Vec<u8>,
}

impl View for FrameReader {
    type V = Seq<u8>;

    closed spec fn view(&self) -> Seq<u8> {
        self.pending@
    }
}

impl FrameReader {
    /// A receiving end that has received nothing.
    pub fn new() -> (r: FrameReader)
        ensures
            r@ == Seq::<u8>::empty(),
    {
        FrameReader { pending: Vec::new() }
    }

    /// Receives `bytes`, and gives the frames that are complete now. Where
    /// more than the bytes that are kept are left over, the stream is broken
    /// and they are dropped.
    pub fn receive(&mut self, bytes: &[u8]) -> (r: Vec<Vec<u8>>)
        ensures
            r@.map_values(|f: Vec<u8>| f@) == frames_in(old(self)@ + bytes@),
            final(self)@ == (if rest_of(old(self)@ + bytes@).len() > MAX_PASST_PENDING {
                Seq::empty()
            } else {
                rest_of(old(self)@ + bytes@)
            }),
    {
        let mut whole: Vec<u8> = Vec::new();
        push_all(&mut whole, self.pending.as_slice());
        push_all(&mut whole, bytes);
        let ghost b = old(self)@ + bytes@;
        assert(whole@ =~= b);
        let mut at: usize = 0;
        let mut frames: Vec<Vec<u8>> = Vec::new();
        let ghost mut done: Seq<Seq<u8>> = Seq::empty();
        assert(b.skip(0) =~= b);
        assert(done + frames_in(b) =~= frames_in(b));
        loop
            invariant
                whole@ == b,
                at <= whole.len(),
                frames.len() == done.len(),
                forall|i: int| 0 <= i < done.len() ==> (#[trigger] frames@[i])@ == done[i],
                frames_in(b) == done + frames_in(b.skip(at as int)),
                rest_of(b) == rest_of(b.skip(at as int)),
            ensures
                !starts_with_frame(b.skip(at as int)),
            decreases whole.len() - at,
        {
            let tail = slice_subrange(whole.as_slice(), at, whole.len());
            assert(tail@ =~= b.skip(at as int));
            match next_frame(tail) {
                Some((n, payload)) => {
                    proof {
                        assert(tail@.skip(n as int) =~= b.skip(at + n));
                        assert(done.push(payload@) + frames_in(b.skip(at + n)) =~= done
                            + frames_in(b.skip(at as int)));
                        done = done.push(payload@);
                    }
                    frames.push(payload);
                    at = at + n;
                },
                None => {
                    break;
                },
            }
        }
        let tail = slice_subrange(whole.as_slice(), at, whole.len());
        assert(tail@ =~= b.skip(at as int));
        let mut left: Vec<u8> = Vec::new();
        if tail.len() <= MAX_PASST_PENDING {
            push_all(&mut left, tail);
            assert(left@ =~= tail@);
        }
        self.pending = left;
        assert(frames@.map_values(|f: Vec<u8>| f@) =~= frames_in(b));
        frames
    }
}

/// The MAC address of the WAN, which is the source of the frames that it
/// delivers.
pub fn source_of(payload: &[u8]) -> (r: Option<MacAddr>)
    ensures
        r == (if payload.len() >= 12 {
            Some(MacAddr::of(payload@.subrange(6, 12)))
        } else {
            None
        }),
{
    if payload.len() < 12 {
        return None;
    }
    Some(mac_at(payload, 6))
}

/// A frame that was written to a stream, whatever follows it, is the first
/// that is read, and what follows it is read next.
pub proof fn law_stream_gives_back_frames(payload: Seq<u8>, more: Seq<u8>)
    requires
        payload.len() <= 0xffff_ffff,
    ensures
        frames_in(frame_bytes(payload) + more) == seq![payload] + frames_in(more),
        rest_of(frame_bytes(payload) + more) == rest_of(more),
{
    let b = frame_bytes(payload) + more;
    let n = payload.len() as u32;
    let h = bytes::be32_bytes(n);
    assert(b[0] == h[0] && b[1] == h[1] && b[2] == h[2] && b[3] == h[3]);
    bytes::lemma_be32(n);
    assert(bytes::be32_at(b, 0) == n);
    assert(first_frame(b) =~= payload);
    assert(b.skip(4 + n as int) =~= more);
}

/// How a stream is cut into pieces does not matter: the frames of two pieces,
/// the second received after the first, are the frames of both together.
pub proof fn law_pieces_do_not_matter(a: Seq<u8>, b: Seq<u8>)
    ensures
        frames_in(a + b) == frames_in(a) + frames_in(rest_of(a) + b),
        rest_of(a + b) == rest_of(rest_of(a) + b),
    decreases a.len(),
{
    if starts_with_frame(a) {
        let n = FRAME_HEADER_LEN + bytes::be32_at(a, 0);
        let w = a + b;
        assert(w[0] == a[0] && w[1] == a[1] && w[2] == a[2] && w[3] == a[3]);
        assert(first_frame(w) =~= first_frame(a));
        assert(w.skip(n) =~= a.skip(n) + b);
        law_pieces_do_not_matter(a.skip(n), b);
        assert(frames_in(w) =~= frames_in(a) + frames_in(rest_of(a) + b));
    } else {
        assert(frames_in(a) + frames_in(a + b) =~= frames_in(a + b));
    }
}

// -- supervision --------------------------------------------------------------

/// The first delay before a process is started again, in milliseconds.
pub const BACKOFF_BASE_MS: u64 = 100;

/// The longest delay before a process is started again, in milliseconds.
pub const BACKOFF_CAP_MS: u64 = 2000;

/// The delay, in milliseconds, before a process is started again after
/// `failures` failures in a row: it doubles with each, up to the longest.
pub open spec fn backoff(failures: u32) -> int {
    let doubled = BACKOFF_BASE_MS * vstd::arithmetic::power2::pow2(
        (if failures == 0 {
            0
        } else if failures > 17 {
            16
        } else {
            failures - 1
        }) as nat,
    );
    if doubled <= BACKOFF_CAP_MS {
        doubled
    } else {
        BACKOFF_CAP_MS as int
    }
}

/// The delay, in milliseconds, before a process is started again after
/// `failures` failures in a row.
pub fn restart_backoff(failures: u32) -> (r: u64)
    ensures
        r == backoff(failures),
        BACKOFF_BASE_MS <= r <= BACKOFF_CAP_MS,
{
    let shift: u32 = if failures == 0 {
        0
    } else if failures > 17 {
        16
    } else {
        failures - 1
    };
    let mut delay: u64 = BACKOFF_BASE_MS;
    let mut i: u32 = 0;
    proof {
        vstd::arithmetic::power2::lemma2_to64();
    }
    while i < shift && delay < BACKOFF_CAP_MS
        invariant
            i <= shift,
            BACKOFF_BASE_MS <= delay < 2 * BACKOFF_CAP_MS,
            delay == BACKOFF_BASE_MS * vstd::arithmetic::power2::pow2(i as nat),
        decreases shift - i,
    {
        proof {
            vstd::arithmetic::power2::lemma_pow2_unfold((i + 1) as nat);
        }
        delay = delay * 2;
        i = i + 1;
    }
    proof {
        if i < shift {
            vstd::arithmetic::power2::lemma_pow2_strictly_increases(i as nat, shift as nat);
            assert(BACKOFF_BASE_MS * vstd::arithmetic::power2::pow2(shift as nat) >= delay);
        }
    }
    if delay <= BACKOFF_CAP_MS {
        delay
    } else {
        BACKOFF_CAP_MS
    }
}

/// A failure in a row never shortens the delay, and no number of them makes it
/// longer than the longest.
pub proof fn law_backoff_grows_to_its_cap(f: u32, g: u32)
    requires
        f <= g,
    ensures
        BACKOFF_BASE_MS <= backoff(f) <= backoff(g) <= BACKOFF_CAP_MS,
        f >= 6 ==> backoff(f) == BACKOFF_CAP_MS,
{
    vstd::arithmetic::power2::lemma2_to64();
    let s = |n: u32| -> nat { (if n == 0 { 0 } else if n > 17 { 16 } else { n - 1 }) as nat };
    let a = s(f);
    let b = s(g);
    if a < b {
        vstd::arithmetic::power2::lemma_pow2_strictly_increases(a, b);
    }
    if 0 < a {
        vstd::arithmetic::power2::lemma_pow2_strictly_increases(0, a);
    }
    if 5 < a {
        vstd::arithmetic::power2::lemma_pow2_strictly_increases(5, a);
    }
}

// -- laws on what is started and sent -----------------------------------------

/// Whether `arg` forwards the host port `host` to the port `vm` of the address
/// `vm_ip`: the letters -t, the one in decimal, a colon, the address, a slash,
/// and the other in decimal.
pub open spec fn forwards_to(arg: Seq<char>, host: u16, vm_ip: Seq<char>, vm: u16) -> bool {
    exists|h: Seq<char>, v: Seq<char>| #[trigger]
        written(h, host) && #[trigger] written(v, vm) && arg == seq!['-', 't'] + h + seq![':'] + vm_ip
            + seq!['/'] + v
}

/// Whether `s` is the number `n` in decimal.
pub open spec fn written(s: Seq<char>, n: u16) -> bool {
    &&& s.len() >= 1
    &&& text::all_digits(s)
    &&& text::decimal_value(s) == n
    &&& s.len() > 1 ==> s[0] != '0'
}

/// A process is started with five arguments and one for every forward, of
/// however many: the first five name the descriptor and the address of the VM,
/// and the others, in order, the host port and the VM port of each forward.
pub proof fn law_every_forward_is_an_argument(c: ConfigView, fd: int)
    requires
        fd >= 0,
    ensures
        ({
            let argv = argv_of(c, fd);
            &&& argv.len() == 5 + c.forwards.len()
            &&& argv[0] == "passt"@
            &&& argv[1] == "--fd"@
            &&& text::all_digits(argv[2]) && text::decimal_value(argv[2]) == fd
            &&& argv[3] == "-a"@
            &&& argv[4] == c.vm_ip
            &&& forall|i: int|
                0 <= i < c.forwards.len() ==> forwards_to(
                    #[trigger] argv[5 + i],
                    c.forwards[i].host,
                    c.vm_ip,
                    c.forwards[i].vm,
                ) && argv[5 + i] == seq!['-', 't'] + text::decimal(c.forwards[i].host as nat)
                    + seq![':'] + c.vm_ip + seq!['/'] + text::decimal(c.forwards[i].vm as nat)
        }),
{
    let argv = argv_of(c, fd);
    text::lemma_decimal(fd as nat);
    assert forall|i: int| 0 <= i < c.forwards.len() implies forwards_to(
        #[trigger] argv[5 + i],
        c.forwards[i].host,
        c.vm_ip,
        c.forwards[i].vm,
    ) && argv[5 + i] == seq!['-', 't'] + text::decimal(c.forwards[i].host as nat) + seq![':']
        + c.vm_ip + seq!['/'] + text::decimal(c.forwards[i].vm as nat) by {
        lemma_forwards_to(c.vm_ip, c.forwards[i]);
        assert(argv[5 + i] == forward_arg(c.vm_ip, c.forwards[i]));
    }
}

proof fn lemma_forwards_to(vm_ip: Seq<char>, f: PortForward)
    ensures
        forwards_to(forward_arg(vm_ip, f), f.host, vm_ip, f.vm),
{
    let h = text::decimal(f.host as nat);
    let v = text::decimal(f.vm as nat);
    text::lemma_decimal(f.host as nat);
    text::lemma_decimal(f.vm as nat);
    text::law_decimal_is_read(f.host as nat, 0xffff);
    text::law_decimal_is_read(f.vm as nat, 0xffff);
    assert(written(h, f.host) && written(v, f.vm));
}

/// Every pair that is published for a port is among the arguments of its
/// process, and every argument behind the first five is one of these pairs.
pub proof fn law_every_published_pair_is_an_argument(
    published: crate::model::Published,
    port: Seq<char>,
    f: Seq<(u16, u16)>,
    vm_ip: Seq<char>,
    fd: int,
    vm: u16,
)
    requires
        crate::model::forwards_of(published, port, f),
        fd >= 0,
    ensures
        ({
            let argv = argv_of(ConfigView { vm_ip, forwards: forwards_for(f) }, fd);
            &&& published.contains_key((port, vm)) ==> exists|i: int|
                5 <= i < argv.len() && forwards_to(
                    #[trigger] argv[i],
                    published[(port, vm)],
                    vm_ip,
                    vm,
                )
            &&& forall|i: int|
                5 <= i < argv.len() ==> exists|x: u16| #[trigger]
                    published.contains_key((port, x)) && forwards_to(
                        #[trigger] argv[i],
                        published[(port, x)],
                        vm_ip,
                        x,
                    )
        }),
{
    let c = ConfigView { vm_ip, forwards: forwards_for(f) };
    let argv = argv_of(c, fd);
    law_every_forward_is_an_argument(c, fd);
    assert(c.forwards.len() == f.len());
    if published.contains_key((port, vm)) {
        let i = choose|i: int| 0 <= i < f.len() && (#[trigger] f[i]).0 == vm;
        assert(c.forwards[i] == (PortForward { host: f[i].1, vm: f[i].0 }));
        assert(forwards_to(argv[5 + i], published[(port, vm)], vm_ip, vm));
    }
    assert forall|i: int| 5 <= i < argv.len() implies exists|x: u16| #[trigger]
        published.contains_key((port, x)) && forwards_to(
            #[trigger] argv[i],
            published[(port, x)],
            vm_ip,
            x,
        ) by {
        let k = i - 5;
        assert(argv[5 + k] == argv[i]);
        assert(c.forwards[k] == (PortForward { host: f[k].1, vm: f[k].0 }));
        assert(published.contains_key((port, f[k].0)));
    }
}

/// A frame is written to a stream as its length, the high byte first, and its
/// bytes, however long it is.
pub proof fn law_frames_are_written_whole(payload: Seq<u8>)
    requires
        payload.len() <= 0xffff_ffff,
    ensures
        ({
            let b = frame_bytes(payload);
            &&& b.len() == 4 + payload.len()
            &&& b[0] * 0x100_0000 + b[1] * 0x1_0000 + b[2] * 0x100 + b[3] == payload.len()
            &&& b.skip(4) == payload
        }),
{
    let b = frame_bytes(payload);
    let n = payload.len() as u32;
    bytes::lemma_be32(n);
    let h = bytes::be32_bytes(n);
    assert(b[0] == h[0] && b[1] == h[1] && b[2] == h[2] && b[3] == h[3]);
    assert(b.skip(4) =~= payload);
}

/// The bytes of a stream are read as frames by their lengths alone: the first
/// frame is given as soon as all of it is there, and then what follows it is
/// read. Until then nothing is given, and the bytes are left.
pub proof fn law_frames_are_read_whole(b: Seq<u8>)
    ensures
        ({
            let n = b[0] * 0x100_0000 + b[1] * 0x1_0000 + b[2] * 0x100 + b[3];
            &&& b.len() >= 4 && b.len() >= 4 + n ==> {
                &&& frames_in(b).len() > 0
                &&& frames_in(b)[0] == b.subrange(4, 4 + n)
                &&& frames_in(b).skip(1) == frames_in(b.skip(4 + n))
                &&& rest_of(b) == rest_of(b.skip(4 + n))
            }
            &&& b.len() < 4 || b.len() < 4 + n ==> frames_in(b).len() == 0 && rest_of(b) == b
        }),
        MAX_PASST_PENDING == 1024 * 1024,
{
    let n = b[0] * 0x100_0000 + b[1] * 0x1_0000 + b[2] * 0x100 + b[3];
    if starts_with_frame(b) {
        assert(frames_in(b).skip(1) =~= frames_in(b.skip(4 + n)));
    }
}

/// A vnet frame is written as the direction, a zero byte, its length in two
/// bytes, the high byte first, and its bytes.
pub proof fn law_vnet_frames_are_written_whole(direction: u8, payload: Seq<u8>)
    requires
        payload.len() <= 0xffff,
    ensures
        ({
            let b = vnet_bytes(direction, payload);
            &&& b.len() == 4 + payload.len()
            &&& b[0] == direction && b[1] == 0
            &&& b[2] * 256 + b[3] == payload.len()
            &&& b.skip(4) == payload
        }),
{
    let b = vnet_bytes(direction, payload);
    bytes::lemma_be16(payload.len() as u16);
    assert(b.skip(4) =~= payload);
}

/// The delay starts at 100 milliseconds and doubles with every failure, until
/// it is two seconds.
pub proof fn law_backoff_doubles(n: u32)
    requires
        n < u32::MAX,
    ensures
        backoff(0) == 100,
        backoff(1) == 100,
        n >= 1 ==> backoff((n + 1) as u32) == (if backoff(n) <= 1000 {
            2 * backoff(n)
        } else {
            2000
        }),
{
    vstd::arithmetic::power2::lemma2_to64();
    law_backoff_grows_to_its_cap(n, (n + 1) as u32);
    if 1 <= n < 17 {
        vstd::arithmetic::power2::lemma_pow2_unfold(n as nat);
    }
}

/// Bytes carry a vnet frame by their lengths alone: the bytes behind the header,
/// as many as it says, in the direction that it names; more may follow.
pub proof fn law_vnet_frames_are_read_whole(b: Seq<u8>)
    requires
        b.len() <= usize::MAX,
    ensures
        ({
            let n = b[2] * 256 + b[3];
            vnet_content(b) == (if b.len() < 4 {
                Err::<(u8, Seq<u8>), VnetError>(VnetError::TooShort(b.len() as usize))
            } else if b.len() < 4 + n {
                Err(VnetError::Truncated { declared: n as u16, have: (b.len() - 4) as usize })
            } else {
                Ok((b[0], b.subrange(4, 4 + n)))
            })
        }),
{
}

} // verus!
