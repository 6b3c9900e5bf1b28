//! Network addresses: IPv4 addresses, IPv4 networks, and MAC addresses, with
//! their text forms.

use vstd::prelude::*;

use crate::text;
use crate::text::{chars_of, digit_value, parse_hex_byte, push_decimal, push_hex_byte, split_at, string_of};

verus! {

// -- IPv4 addresses -----------------------------------------------------------

/// An IPv4 address, by its four octets.
#[derive(Debug, Clone, Copy, PartialEq, Eq, Hash, Structural)]
pub struct Ipv4Addr {
    pub a: u8,
    pub b: u8,
    pub c: u8,
    pub d: u8,
}

/// The text is not an address or a network.
#[derive(Debug, Clone, Copy, PartialEq, Eq, Structural)]
pub struct AddrParseError;

impl Ipv4Addr {
    /// The address as a number, the first octet being the most significant.
    pub open spec fn num(self) -> int {
        self.a * 0x100_0000 + self.b * 0x1_0000 + self.c * 0x100 + self.d
    }

    /// The four octets, in order.
    pub open spec fn bytes(self) -> Seq<u8> {
        seq![self.a, self.b, self.c, self.d]
    }

    /// The address in dotted decimal.
    pub open spec fn text(self) -> Seq<char> {
        text::decimal(self.a as nat).push('.') + (text::decimal(self.b as nat).push('.') + (text::decimal(
            self.c as nat,
        ).push('.') + text::decimal(self.d as nat)))
    }

    /// The address with the given octets.
    pub fn new(a: u8, b: u8, c: u8, d: u8) -> (r: Ipv4Addr)
        ensures
            r == (Ipv4Addr { a, b, c, d }),
    {
        Ipv4Addr { a, b, c, d }
    }

    /// The four octets, in order.
    pub fn octets(&self) -> (r: [u8; 4])
        ensures
            r@ == self.bytes(),
    {
        let r: [u8; 4] = [self.a, self.b, self.c, self.d];
        assert(r@ =~= self.bytes());
        r
    }

    /// The address as a number.
    pub fn to_u32(&self) -> (r: u32)
        ensures
            r == self.num(),
    {
        self.a as u32 * 0x100_0000 + self.b as u32 * 0x1_0000 + self.c as u32 * 0x100
            + self.d as u32
    }

    /// The address with the given number.
    pub fn from_u32(n: u32) -> (r: Ipv4Addr)
        ensures
            r == address_with(n),
            r.num() == n,
    {
        Ipv4Addr {
            a: (n / 0x100_0000) as u8,
            b: (n / 0x1_0000 % 0x100) as u8,
            c: (n / 0x100 % 0x100) as u8,
            d: (n % 0x100) as u8,
        }
    }

    /// The address 0.0.0.0.
    pub fn unspecified() -> (r: Ipv4Addr)
        ensures
            r == any_address(),
    {
        Ipv4Addr { a: 0, b: 0, c: 0, d: 0 }
    }

    /// The address 255.255.255.255.
    pub fn broadcast() -> (r: Ipv4Addr)
        ensures
            r == all_hosts(),
    {
        Ipv4Addr { a: 255, b: 255, c: 255, d: 255 }
    }

    /// Whether this is 0.0.0.0.
    pub fn is_unspecified(&self) -> (r: bool)
        ensures
            r == (self.num() == 0),
            r == (*self == any_address()),
    {
        self.a == 0 && self.b == 0 && self.c == 0 && self.d == 0
    }

    /// The address in dotted decimal.
    pub fn to_string(&self) -> (r: String)
        ensures
            r@ == self.text(),
    {
        let mut out: Vec<char> = Vec::new();
        push_address(&mut out, *self);
        assert(out@ =~= self.text());
        string_of(out.as_slice())
    }

    /// The address that `s` writes in dotted decimal, no octet having a
    /// leading zero.
    pub fn parse(s: &str) -> (r: Result<Ipv4Addr, AddrParseError>)
        ensures
            match r {
                Ok(ip) => s@ == ip.text(),
                Err(_) => forall|ip: Ipv4Addr| #[trigger] ip.text() != s@,
            },
    {
        let chars = chars_of(s);
        parse_address(chars.as_slice())
    }
}

/// The address with the number `n`.
pub open spec fn address_with(n: u32) -> Ipv4Addr {
    Ipv4Addr {
        a: (n / 0x100_0000) as u8,
        b: (n / 0x1_0000 % 0x100) as u8,
        c: (n / 0x100 % 0x100) as u8,
        d: (n % 0x100) as u8,
    }
}

/// The address with the number `n` has the number `n`.
pub proof fn lemma_address_with(n: u32)
    ensures
        address_with(n).num() == n,
{
}

/// The address 0.0.0.0.
pub open spec fn any_address() -> Ipv4Addr {
    Ipv4Addr { a: 0, b: 0, c: 0, d: 0 }
}

/// The address 255.255.255.255.
pub open spec fn all_hosts() -> Ipv4Addr {
    Ipv4Addr { a: 255, b: 255, c: 255, d: 255 }
}

/// An address is known by its number.
pub proof fn lemma_num_injective(x: Ipv4Addr, y: Ipv4Addr)
    requires
        x.num() == y.num(),
    ensures
        x == y,
{
    assert(x.a == y.a);
    assert(x.b == y.b);
    assert(x.c == y.c);
}

/// Appends an address in dotted decimal to `out`.
fn push_address(out: &mut Vec<char>, ip: Ipv4Addr)
    ensures
        final(out)@ == old(out)@ + ip.text(),
{
    push_decimal(out, ip.a as u64);
    out.push('.');
    push_decimal(out, ip.b as u64);
    out.push('.');
    push_decimal(out, ip.c as u64);
    out.push('.');
    push_decimal(out, ip.d as u64);
    assert(out@ =~= old(out)@ + ip.text());
}

/// What decimal numbers below a thousand look like.
proof fn lemma_small_decimal(n: nat)
    requires
        n < 1000,
    ensures
        n < 10 ==> text::decimal(n) == seq![text::digit_char(n as int)],
        10 <= n < 100 ==> text::decimal(n) == seq![
            text::digit_char((n / 10) as int),
            text::digit_char((n % 10) as int),
        ],
        100 <= n ==> text::decimal(n) == seq![
            text::digit_char((n / 100) as int),
            text::digit_char((n / 10 % 10) as int),
            text::digit_char((n % 10) as int),
        ],
{
    reveal_with_fuel(text::decimal, 3);
    if 100 <= n {
        assert(text::decimal(n) =~= seq![
            text::digit_char((n / 100) as int),
            text::digit_char((n / 10 % 10) as int),
            text::digit_char((n % 10) as int),
        ]);
    } else if 10 <= n {
        assert(text::decimal(n) =~= seq![
            text::digit_char((n / 10) as int),
            text::digit_char((n % 10) as int),
        ]);
    }
}

/// The octet that `s` writes in decimal without a leading zero.
fn parse_octet(s: &[char]) -> (r: Option<u8>)
    ensures
        match r {
            Some(n) => s@ == text::decimal(n as nat),
            None => forall|n: u8| #[trigger] text::decimal(n as nat) != s@,
        },
{
    proof {
        assert forall|n: u8|
            {
                let t = #[trigger] text::decimal(n as nat);
                &&& n < 10 ==> t.len() == 1 && t[0] == text::digit_char(n as int)
                &&& 10 <= n < 100 ==> t.len() == 2 && t[0] == text::digit_char((n / 10) as int) && t[1]
                    == text::digit_char((n % 10) as int)
                &&& 100 <= n ==> t.len() == 3 && t[0] == text::digit_char((n / 100) as int) && t[1]
                    == text::digit_char((n / 10 % 10) as int) && t[2] == text::digit_char((n % 10) as int)
            } by {
            lemma_small_decimal(n as nat);
        }
    }
    if s.len() == 0 || s.len() > 3 {
        return None;
    }
    let x: u8 = match digit_value(s[0]) {
        Some(x) => x,
        None => {
            return None;
        },
    };
    if s.len() == 1 {
        assert(s@ =~= text::decimal(x as nat));
        return Some(x);
    }
    let y: u8 = match digit_value(s[1]) {
        Some(y) => y,
        None => {
            return None;
        },
    };
    if x == 0 {
        return None;
    }
    if s.len() == 2 {
        let n: u8 = x * 10 + y;
        assert(s@ =~= text::decimal(n as nat));
        return Some(n);
    }
    let z: u8 = match digit_value(s[2]) {
        Some(z) => z,
        None => {
            return None;
        },
    };
    let n: u32 = x as u32 * 100 + y as u32 * 10 + z as u32;
    if n > 255 {
        return None;
    }
    let m: u8 = n as u8;
    assert(s@ =~= text::decimal(m as nat));
    Some(m)
}

/// The pieces of a dotted address.
proof fn lemma_address_pieces(ip: Ipv4Addr)
    ensures
        text::split(ip.text(), '.') == seq![
            text::decimal(ip.a as nat),
            text::decimal(ip.b as nat),
            text::decimal(ip.c as nat),
            text::decimal(ip.d as nat),
        ],
{
    let a = text::decimal(ip.a as nat);
    let b = text::decimal(ip.b as nat);
    let c = text::decimal(ip.c as nat);
    let d = text::decimal(ip.d as nat);
    lemma_no_separator(ip.a as nat);
    lemma_no_separator(ip.b as nat);
    lemma_no_separator(ip.c as nat);
    lemma_no_separator(ip.d as nat);
    text::lemma_split_none(d, '.');
    text::lemma_split_joined(c, '.', d);
    text::lemma_split_joined(b, '.', c.push('.') + d);
    text::lemma_split_joined(a, '.', b.push('.') + (c.push('.') + d));
    assert(text::split(ip.text(), '.') =~= seq![a, b, c, d]);
}

/// A decimal number holds neither a dot nor a slash.
proof fn lemma_no_separator(n: nat)
    ensures
        forall|j: int|
            0 <= j < text::decimal(n).len() ==> text::decimal(n)[j] != '.' && text::decimal(n)[j] != '/',
{
    text::lemma_decimal(n);
    assert(text::all_digits(text::decimal(n)));
    assert forall|j: int| 0 <= j < text::decimal(n).len() implies text::decimal(n)[j] != '.' && text::decimal(n)[j]
        != '/' by {
        assert(text::is_digit(text::decimal(n)[j]));
    }
}

/// The address that `s` writes in dotted decimal.
fn parse_address(s: &[char]) -> (r: Result<Ipv4Addr, AddrParseError>)
    ensures
        match r {
            Ok(ip) => s@ == ip.text(),
            Err(_) => forall|ip: Ipv4Addr| #[trigger] ip.text() != s@,
        },
{
    proof {
        assert forall|ip: Ipv4Addr| #[trigger] ip.text() == s@ implies text::split(s@, '.') == seq![
            text::decimal(ip.a as nat),
            text::decimal(ip.b as nat),
            text::decimal(ip.c as nat),
            text::decimal(ip.d as nat),
        ] by {
            lemma_address_pieces(ip);
        }
        text::lemma_join_split(s@, '.');
    }
    let parts = split_at(s, '.');
    if parts.len() != 4 {
        return Err(AddrParseError);
    }
    let ghost p = text::split(s@, '.');
    assert(p[0] == parts[0]@ && p[1] == parts[1]@ && p[2] == parts[2]@ && p[3] == parts[3]@);
    let a: Option<u8> = parse_octet(parts[0].as_slice());
    let b: Option<u8> = parse_octet(parts[1].as_slice());
    let c: Option<u8> = parse_octet(parts[2].as_slice());
    let d: Option<u8> = parse_octet(parts[3].as_slice());
    match (a, b, c, d) {
        (Some(a), Some(b), Some(c), Some(d)) => {
            let ip = Ipv4Addr { a, b, c, d };
            proof {
                reveal_with_fuel(text::join, 4);
                assert(p.skip(1).skip(1).skip(1) =~= seq![p[3]]);
                assert(p.skip(1)[0] == p[1]);
                assert(p.skip(1).skip(1)[0] == p[2]);
                assert(s@ == ip.text());
            }
            Ok(ip)
        },
        _ => Err(AddrParseError),
    }
}

/// Writing an address and reading it back gives the address, and every text
/// that reads as an address is the one that is written for it.
pub proof fn law_address_text_is_unique(x: Ipv4Addr, y: Ipv4Addr)
    ensures
        x.text() == y.text() <==> x == y,
{
    if x.text() == y.text() {
        lemma_address_pieces(x);
        lemma_address_pieces(y);
        let p = text::split(x.text(), '.');
        let q = text::split(y.text(), '.');
        assert(p[0] == q[0] && p[1] == q[1] && p[2] == q[2] && p[3] == q[3]);
        text::lemma_decimal(x.a as nat);
        text::lemma_decimal(x.b as nat);
        text::lemma_decimal(x.c as nat);
        text::lemma_decimal(x.d as nat);
        text::lemma_decimal(y.a as nat);
        text::lemma_decimal(y.b as nat);
        text::lemma_decimal(y.c as nat);
        text::lemma_decimal(y.d as nat);
    }
}

// -- IPv4 networks ------------------------------------------------------------

/// An IPv4 network in CIDR notation: an address without host bits and the
/// length of the network prefix.
#[derive(Debug, Clone, Copy, PartialEq, Eq, Structural)]
pub struct Ipv4Cidr {
    pub(crate) addr: Ipv4Addr,
    pub(crate) prefix: u8,
}

/// What an [`Ipv4Cidr`] holds.
pub struct CidrView {
    pub addr: Ipv4Addr,
    pub prefix: u8,
}

impl View for Ipv4Cidr {
    type V = CidrView;

    closed spec fn view(&self) -> CidrView {
        CidrView { addr: self.addr, prefix: self.prefix }
    }
}

/// How many addresses a network with a prefix of `prefix` bits has.
pub open spec fn host_count(prefix: int) -> int {
    vstd::arithmetic::power2::pow2((32 - prefix) as nat) as int
}

/// The first address, as a number, of the network of `prefix` bits that the
/// address number `n` is in.
pub open spec fn network_part(n: int, prefix: int) -> int {
    n - n % host_count(prefix)
}

impl CidrView {
    /// Whether the prefix is at most 32 bits long and the address has no host
    /// bits.
    pub open spec fn valid(self) -> bool {
        self.prefix <= 32 && network_part(self.addr.num(), self.prefix as int) == self.addr.num()
    }

    /// Whether `ip` is in the network.
    pub open spec fn has(self, ip: Ipv4Addr) -> bool {
        network_part(ip.num(), self.prefix as int) == self.addr.num()
    }

    /// The network as text: the address, a slash, and the prefix length.
    pub open spec fn text(self) -> Seq<char> {
        self.addr.text().push('/') + text::decimal(self.prefix as nat)
    }
}

/// The number of addresses of a network, which is a power of two.
fn count_hosts(prefix: u8) -> (r: u64)
    requires
        prefix <= 32,
    ensures
        r == host_count(prefix as int),
        1 <= r <= 0x1_0000_0000,
{
    let mut i: u8 = prefix;
    let mut n: u64 = 1;
    proof {
        vstd::arithmetic::power2::lemma2_to64();
    }
    while i < 32
        invariant
            prefix <= i <= 32,
            n == vstd::arithmetic::power2::pow2((i - prefix) as nat),
            n <= vstd::arithmetic::power2::pow2(32),
            vstd::arithmetic::power2::pow2(32) == 0x1_0000_0000,
        decreases 32 - i,
    {
        proof {
            vstd::arithmetic::power2::lemma_pow2_unfold((i + 1 - prefix) as nat);
            if (i + 1 - prefix) < 32 {
                vstd::arithmetic::power2::lemma_pow2_strictly_increases((i + 1 - prefix) as nat, 32);
            }
        }
        n = n * 2;
        i = i + 1;
    }
    proof {
        vstd::arithmetic::power2::lemma_pow2_pos((32 - prefix) as nat);
    }
    n
}

impl Ipv4Cidr {
    #[verifier::type_invariant]
    closed spec fn wf(self) -> bool {
        self@.valid()
    }

    /// The network's first address.
    pub fn addr(&self) -> (r: Ipv4Addr)
        ensures
            r == self@.addr,
    {
        self.addr
    }

    /// The length of the network prefix in bits, at most 32.
    pub fn prefix(&self) -> (r: u8)
        ensures
            r == self@.prefix,
            self@.valid(),
    {
        proof {
            use_type_invariant(self);
        }
        self.prefix
    }

    /// Whether `ip` is in the network.
    pub fn contains(&self, ip: Ipv4Addr) -> (r: bool)
        ensures
            r == self@.has(ip),
            self@.valid(),
    {
        proof {
            use_type_invariant(self);
        }
        let size: u64 = count_hosts(self.prefix);
        let n: u64 = ip.to_u32() as u64;
        assert(n % size <= n) by (nonlinear_arith)
            requires
                size > 0,
        ;
        n - n % size == self.addr.to_u32() as u64
    }

    /// The network mask: as many leading one bits as the prefix is long.
    pub fn netmask(&self) -> (r: Ipv4Addr)
        ensures
            r.num() == 0x1_0000_0000 - host_count(self@.prefix as int),
            self@.valid(),
    {
        proof {
            use_type_invariant(self);
        }
        netmask(self.prefix)
    }

    /// The network as text.
    pub fn to_string(&self) -> (r: String)
        ensures
            r@ == self@.text(),
    {
        let mut out: Vec<char> = Vec::new();
        push_address(&mut out, self.addr);
        out.push('/');
        push_decimal(&mut out, self.prefix as u64);
        assert(out@ =~= self@.text());
        string_of(out.as_slice())
    }

    /// The network that `s` writes: an address, a slash, and a prefix length
    /// of at most 32 bits; an address with host bits is refused.
    pub fn parse(s: &str) -> (r: Result<Ipv4Cidr, AddrParseError>)
        ensures
            match r {
                Ok(c) => c@.valid() && s@ == c@.text(),
                Err(_) => forall|v: CidrView| #[trigger] v.valid() ==> v.text() != s@,
            },
    {
        let chars = chars_of(s);
        proof {
            assert forall|v: CidrView| #[trigger] v.valid() && v.text() == s@ implies text::split(
                s@,
                '/',
            ) == seq![v.addr.text(), text::decimal(v.prefix as nat)] by {
                lemma_network_pieces(v);
            }
            text::lemma_join_split(s@, '/');
        }
        let parts = split_at(chars.as_slice(), '/');
        if parts.len() != 2 {
            return Err(AddrParseError);
        }
        let ghost p = text::split(s@, '/');
        assert(p[0] == parts[0]@ && p[1] == parts[1]@);
        let addr = match parse_address(parts[0].as_slice()) {
            Ok(addr) => addr,
            Err(e) => {
                return Err(e);
            },
        };
        let prefix: u8 = match parse_octet(parts[1].as_slice()) {
            Some(prefix) => prefix,
            None => {
                return Err(AddrParseError);
            },
        };
        proof {
            assert forall|v: CidrView| #[trigger] v.valid() && v.text() == s@ implies v.addr == addr
                && v.prefix == prefix by {
                law_address_text_is_unique(v.addr, addr);
                text::lemma_decimal(v.prefix as nat);
                text::lemma_decimal(prefix as nat);
                assert(p[1] == text::decimal(v.prefix as nat));
            }
        }
        if prefix > 32 {
            return Err(AddrParseError);
        }
        if addr.to_u32() as u64 % count_hosts(prefix) != 0 {
            return Err(AddrParseError);
        }
        let c = Ipv4Cidr { addr, prefix };
        proof {
            reveal_with_fuel(text::join, 2);
            assert(p.skip(1) =~= seq![p[1]]);
        }
        Ok(c)
    }
}

/// The mask with `prefix` leading one bits.
pub fn netmask(prefix: u8) -> (r: Ipv4Addr)
    requires
        prefix <= 32,
    ensures
        r.num() == 0x1_0000_0000 - host_count(prefix as int),
{
    Ipv4Addr::from_u32((0x1_0000_0000 - count_hosts(prefix)) as u32)
}

/// The pieces of a network's text.
proof fn lemma_network_pieces(v: CidrView)
    ensures
        text::split(v.text(), '/') == seq![v.addr.text(), text::decimal(v.prefix as nat)],
{
    let ip = v.addr;
    lemma_no_separator(ip.a as nat);
    lemma_no_separator(ip.b as nat);
    lemma_no_separator(ip.c as nat);
    lemma_no_separator(ip.d as nat);
    lemma_no_separator(v.prefix as nat);
    let t = ip.text();
    let a = text::decimal(ip.a as nat);
    let b = text::decimal(ip.b as nat);
    let c = text::decimal(ip.c as nat);
    let d = text::decimal(ip.d as nat);
    let cd = c.push('.') + d;
    let bcd = b.push('.') + cd;
    assert forall|j: int| 0 <= j < t.len() implies t[j] != '/' by {
        if j < a.len() {
            assert(t[j] == a[j]);
        } else if j > a.len() {
            let k = j - a.len() - 1;
            assert(t[j] == bcd[k]);
            if k < b.len() {
                assert(bcd[k] == b[k]);
            } else if k > b.len() {
                let m = k - b.len() - 1;
                assert(bcd[k] == cd[m]);
                if m < c.len() {
                    assert(cd[m] == c[m]);
                } else if m > c.len() {
                    assert(cd[m] == d[m - c.len() - 1]);
                }
            }
        }
    }
    text::lemma_split_none(text::decimal(v.prefix as nat), '/');
    text::lemma_split_joined(t, '/', text::decimal(v.prefix as nat));
    assert(text::split(v.text(), '/') =~= seq![t, text::decimal(v.prefix as nat)]);
}

/// The text of a network is the text of no other network.
pub proof fn law_network_text_is_unique(x: CidrView, y: CidrView)
    ensures
        x.text() == y.text() <==> x == y,
{
    if x.text() == y.text() {
        lemma_network_pieces(x);
        lemma_network_pieces(y);
        let p = text::split(x.text(), '/');
        let q = text::split(y.text(), '/');
        assert(p[0] == q[0] && p[1] == q[1]);
        law_address_text_is_unique(x.addr, y.addr);
        text::lemma_decimal(x.prefix as nat);
        text::lemma_decimal(y.prefix as nat);
    }
}

// -- MAC addresses ------------------------------------------------------------

/// An Ethernet address, by its six octets.
#[derive(Debug, Clone, Copy, PartialEq, Eq, Hash, Structural)]
pub struct MacAddr {
    pub o0: u8,
    pub o1: u8,
    pub o2: u8,
    pub o3: u8,
    pub o4: u8,
    pub o5: u8,
}

impl MacAddr {
    /// The six octets, in order.
    pub open spec fn bytes(self) -> Seq<u8> {
        seq![self.o0, self.o1, self.o2, self.o3, self.o4, self.o5]
    }

    /// The address with the octets `s`.
    pub open spec fn of(s: Seq<u8>) -> MacAddr {
        MacAddr { o0: s[0], o1: s[1], o2: s[2], o3: s[3], o4: s[4], o5: s[5] }
    }

    /// The octets in lower-case hexadecimal, with a colon between each two.
    pub open spec fn text(self) -> Seq<char> {
        text::hex_byte(self.o0).push(':') + text::hex_byte(self.o1).push(':') + text::hex_byte(
            self.o2,
        ).push(':') + text::hex_byte(self.o3).push(':') + text::hex_byte(self.o4).push(':')
            + text::hex_byte(self.o5)
    }

    /// The octets in lower-case hexadecimal, with nothing between them.
    pub open spec fn plain_text(self) -> Seq<char> {
        text::hex_byte(self.o0) + text::hex_byte(self.o1) + text::hex_byte(self.o2)
            + text::hex_byte(self.o3) + text::hex_byte(self.o4) + text::hex_byte(self.o5)
    }

    /// The address with the given octets.
    pub fn from_bytes(b: [u8; 6]) -> (r: MacAddr)
        ensures
            r == MacAddr::of(b@),
            r.bytes() == b@,
    {
        let r = MacAddr { o0: b[0], o1: b[1], o2: b[2], o3: b[3], o4: b[4], o5: b[5] };
        assert(r.bytes() =~= b@);
        r
    }

    /// The six octets, in order.
    pub fn octets(&self) -> (r: [u8; 6])
        ensures
            r@ == self.bytes(),
    {
        let r: [u8; 6] = [self.o0, self.o1, self.o2, self.o3, self.o4, self.o5];
        assert(r@ =~= self.bytes());
        r
    }

    /// The address in lower-case hexadecimal with colons.
    pub fn to_string(&self) -> (r: String)
        ensures
            r@ == self.text(),
    {
        let mut out: Vec<char> = Vec::new();
        push_hex_byte(&mut out, self.o0);
        out.push(':');
        push_hex_byte(&mut out, self.o1);
        out.push(':');
        push_hex_byte(&mut out, self.o2);
        out.push(':');
        push_hex_byte(&mut out, self.o3);
        out.push(':');
        push_hex_byte(&mut out, self.o4);
        out.push(':');
        push_hex_byte(&mut out, self.o5);
        assert(out@ =~= self.text());
        string_of(out.as_slice())
    }

    /// The address in lower-case hexadecimal without colons.
    pub fn to_plain_string(&self) -> (r: String)
        ensures
            r@ == self.plain_text(),
    {
        let mut out: Vec<char> = Vec::new();
        push_hex_byte(&mut out, self.o0);
        push_hex_byte(&mut out, self.o1);
        push_hex_byte(&mut out, self.o2);
        push_hex_byte(&mut out, self.o3);
        push_hex_byte(&mut out, self.o4);
        push_hex_byte(&mut out, self.o5);
        assert(out@ =~= self.plain_text());
        string_of(out.as_slice())
    }

    /// The address that `s` writes: six octets of two hexadecimal digits of
    /// either case, with a colon between each two octets.
    pub fn parse(s: &str) -> (r: Result<MacAddr, AddrParseError>)
        ensures
            match r {
                Ok(m) => m.text() == lower_hex_text(s@),
                Err(_) => forall|m: MacAddr| #[trigger] m.text() != lower_hex_text(s@),
            },
    {
        let c = chars_of(s);
        let ghost low = lower_hex_text(s@);
        if c.len() != 17 {
            assert(forall|m: MacAddr| (#[trigger] m.text()).len() == 17);
            return Err(AddrParseError);
        }
        proof {
            assert forall|m: MacAddr| #[trigger] m.text() == low implies {
                &&& text::hex_byte(m.o0) == seq![low[0], low[1]]
                &&& text::hex_byte(m.o1) == seq![low[3], low[4]]
                &&& text::hex_byte(m.o2) == seq![low[6], low[7]]
                &&& text::hex_byte(m.o3) == seq![low[9], low[10]]
                &&& text::hex_byte(m.o4) == seq![low[12], low[13]]
                &&& text::hex_byte(m.o5) == seq![low[15], low[16]]
                &&& low[2] == ':' && low[5] == ':' && low[8] == ':' && low[11] == ':' && low[14]
                    == ':'
            } by {
                assert(text::hex_byte(m.o0) =~= seq![low[0], low[1]]);
                assert(text::hex_byte(m.o1) =~= seq![low[3], low[4]]);
                assert(text::hex_byte(m.o2) =~= seq![low[6], low[7]]);
                assert(text::hex_byte(m.o3) =~= seq![low[9], low[10]]);
                assert(text::hex_byte(m.o4) =~= seq![low[12], low[13]]);
                assert(text::hex_byte(m.o5) =~= seq![low[15], low[16]]);
            }
        }
        if c[2] != ':' || c[5] != ':' || c[8] != ':' || c[11] != ':' || c[14] != ':' {
            return Err(AddrParseError);
        }
        let b0: Option<u8> = parse_hex_byte(c[0], c[1]);
        let b1: Option<u8> = parse_hex_byte(c[3], c[4]);
        let b2: Option<u8> = parse_hex_byte(c[6], c[7]);
        let b3: Option<u8> = parse_hex_byte(c[9], c[10]);
        let b4: Option<u8> = parse_hex_byte(c[12], c[13]);
        let b5: Option<u8> = parse_hex_byte(c[15], c[16]);
        match (b0, b1, b2, b3, b4, b5) {
            (Some(o0), Some(o1), Some(o2), Some(o3), Some(o4), Some(o5)) => {
                let m = MacAddr { o0, o1, o2, o3, o4, o5 };
                assert(m.text() =~= low);
                Ok(m)
            },
            _ => Err(AddrParseError),
        }
    }
}

/// `s` with the hexadecimal digits `A` to `F` in lower case.
pub open spec fn lower_hex_text(s: Seq<char>) -> Seq<char> {
    s.map_values(|c: char| text::lower_hex(c))
}

/// The text of a MAC address is the text of no other, and it is its own
/// lower-case form: what is written reads back as the same address.
pub proof fn law_mac_text_is_unique(x: MacAddr, y: MacAddr)
    ensures
        x.text() == y.text() <==> x == y,
        lower_hex_text(x.text()) == x.text(),
{
    let t = x.text();
    let u = y.text();
    if t == u {
        assert(t[0] == u[0] && t[1] == u[1] && t[3] == u[3] && t[4] == u[4] && t[6] == u[6]
            && t[7] == u[7] && t[9] == u[9] && t[10] == u[10] && t[12] == u[12] && t[13] == u[13]
            && t[15] == u[15] && t[16] == u[16]);
        lemma_hex_byte_injective(x.o0, y.o0);
        lemma_hex_byte_injective(x.o1, y.o1);
        lemma_hex_byte_injective(x.o2, y.o2);
        lemma_hex_byte_injective(x.o3, y.o3);
        lemma_hex_byte_injective(x.o4, y.o4);
        lemma_hex_byte_injective(x.o5, y.o5);
    }
    assert(lower_hex_text(t) =~= t);
}

/// The text of a MAC address without colons is the text of no other.
pub proof fn law_plain_mac_text_is_unique(x: MacAddr, y: MacAddr)
    ensures
        x.plain_text() == y.plain_text() <==> x == y,
{
    let t = x.plain_text();
    let u = y.plain_text();
    if t == u {
        assert(t[0] == u[0] && t[1] == u[1] && t[2] == u[2] && t[3] == u[3] && t[4] == u[4] && t[5]
            == u[5] && t[6] == u[6] && t[7] == u[7] && t[8] == u[8] && t[9] == u[9] && t[10]
            == u[10] && t[11] == u[11]);
        lemma_hex_byte_injective(x.o0, y.o0);
        lemma_hex_byte_injective(x.o1, y.o1);
        lemma_hex_byte_injective(x.o2, y.o2);
        lemma_hex_byte_injective(x.o3, y.o3);
        lemma_hex_byte_injective(x.o4, y.o4);
        lemma_hex_byte_injective(x.o5, y.o5);
    }
}

/// The two digits of a byte tell the byte.
proof fn lemma_hex_byte_injective(x: u8, y: u8)
    ensures
        text::hex_byte(x)[0] == text::hex_byte(y)[0] && text::hex_byte(x)[1] == text::hex_byte(y)[1]
            ==> x == y,
{
}

impl std::str::FromStr for Ipv4Addr {
    type Err = AddrParseError;

    /// The address that `s` writes, as [`Ipv4Addr::parse`] reads it.
    fn from_str(s: &str) -> (r: Result<Self, AddrParseError>)
        ensures
            match r {
                Ok(ip) => s@ == ip.text(),
                Err(_) => forall|ip: Ipv4Addr| #[trigger] ip.text() != s@,
            },
    {
        Ipv4Addr::parse(s)
    }
}

impl std::str::FromStr for Ipv4Cidr {
    type Err = AddrParseError;

    /// The network that `s` writes, as [`Ipv4Cidr::parse`] reads it.
    fn from_str(s: &str) -> (r: Result<Self, AddrParseError>)
        ensures
            match r {
                Ok(c) => c@.valid() && s@ == c@.text(),
                Err(_) => forall|v: CidrView| #[trigger] v.valid() ==> v.text() != s@,
            },
    {
        Ipv4Cidr::parse(s)
    }
}

impl std::str::FromStr for MacAddr {
    type Err = AddrParseError;

    /// The address that `s` writes, as [`MacAddr::parse`] reads it.
    fn from_str(s: &str) -> (r: Result<Self, AddrParseError>)
        ensures
            match r {
                Ok(m) => m.text() == lower_hex_text(s@),
                Err(_) => forall|m: MacAddr| #[trigger] m.text() != lower_hex_text(s@),
            },
    {
        MacAddr::parse(s)
    }
}

// -- laws ---------------------------------------------------------------------

/// A network is a range of addresses: from its own on, which is a multiple of
/// their number, as many as two to the power of the bits behind the prefix.
pub proof fn law_network_is_a_range(v: CidrView, ip: Ipv4Addr)
    requires
        v.prefix <= 32,
    ensures
        ({
            let n = ip.a * 0x100_0000 + ip.b * 0x1_0000 + ip.c * 0x100 + ip.d;
            let first = v.addr.a * 0x100_0000 + v.addr.b * 0x1_0000 + v.addr.c * 0x100 + v.addr.d;
            let size = vstd::arithmetic::power2::pow2((32 - v.prefix) as nat) as int;
            &&& v.valid() <==> first % size == 0
            &&& v.valid() ==> (v.has(ip) <==> first <= n < first + size)
        }),
{
    let n = ip.num();
    let first = v.addr.num();
    let size = vstd::arithmetic::power2::pow2((32 - v.prefix) as nat) as int;
    vstd::arithmetic::power2::lemma_pow2_pos((32 - v.prefix) as nat);
    vstd::arithmetic::div_mod::lemma_mod_bound(n, size);
    if v.valid() && first <= n < first + size {
        vstd::arithmetic::div_mod::lemma_fundamental_div_mod(first, size);
        vstd::arithmetic::div_mod::lemma_fundamental_div_mod_converse(
            n,
            size,
            first / size,
            n - first,
        );
    }
}

/// The number of an address has its octets as digits to the base of 256, and
/// the bytes of an address and of a MAC address are their octets, in order.
pub proof fn law_addresses_are_their_octets(ip: Ipv4Addr, m: MacAddr)
    ensures
        ip.num() == ((ip.a * 256 + ip.b) * 256 + ip.c) * 256 + ip.d,
        ip.bytes() == seq![ip.a, ip.b, ip.c, ip.d],
        m.bytes() == seq![m.o0, m.o1, m.o2, m.o3, m.o4, m.o5],
        MacAddr::of(m.bytes()) == m,
{
}

/// The text of an address is four numbers in decimal, its octets in order,
/// with a dot between each two.
pub proof fn law_address_text_is_dotted(ip: Ipv4Addr)
    ensures
        ({
            let p = text::split(ip.text(), '.');
            &&& p.len() == 4
            &&& forall|i: int| 0 <= i < 4 ==> text::all_digits(#[trigger] p[i]) && p[i].len() >= 1
            &&& text::decimal_value(p[0]) == ip.a
            &&& text::decimal_value(p[1]) == ip.b
            &&& text::decimal_value(p[2]) == ip.c
            &&& text::decimal_value(p[3]) == ip.d
        }),
{
    lemma_address_pieces(ip);
    text::lemma_decimal(ip.a as nat);
    text::lemma_decimal(ip.b as nat);
    text::lemma_decimal(ip.c as nat);
    text::lemma_decimal(ip.d as nat);
    let p = text::split(ip.text(), '.');
    assert(p[0] == text::decimal(ip.a as nat) && p[1] == text::decimal(ip.b as nat) && p[2]
        == text::decimal(ip.c as nat) && p[3] == text::decimal(ip.d as nat));
}

/// The text of a network is that of its address, a slash, and the length of
/// its prefix in decimal.
pub proof fn law_network_text_is_slashed(v: CidrView)
    ensures
        ({
            let p = text::split(v.text(), '/');
            &&& p.len() == 2
            &&& p[0] == v.addr.text()
            &&& text::all_digits(p[1])
            &&& text::decimal_value(p[1]) == v.prefix
        }),
{
    lemma_network_pieces(v);
    text::lemma_decimal(v.prefix as nat);
}

/// The value of a hexadecimal digit in lower case.
pub open spec fn hex_value(c: char) -> int {
    if c as u32 <= 57 {
        c as u32 - 48
    } else {
        c as u32 - 87
    }
}

/// Whether `c` is a hexadecimal digit in lower case.
pub open spec fn is_lower_hex(c: char) -> bool {
    48 <= c as u32 <= 57 || 97 <= c as u32 <= 102
}

/// The text of a MAC address is its octets in order, each as two hexadecimal
/// digits in lower case, with a colon between each two; without the colons in
/// the plain form.
pub proof fn law_mac_text_is_hexadecimal(m: MacAddr, i: int)
    requires
        0 <= i < 6,
    ensures
        ({
            let o = seq![m.o0, m.o1, m.o2, m.o3, m.o4, m.o5][i];
            let t = m.text();
            let q = m.plain_text();
            &&& t.len() == 17
            &&& is_lower_hex(t[3 * i]) && is_lower_hex(t[3 * i + 1])
            &&& hex_value(t[3 * i]) * 16 + hex_value(t[3 * i + 1]) == o
            &&& i < 5 ==> t[3 * i + 2] == ':'
            &&& q.len() == 12
            &&& q[2 * i] == t[3 * i] && q[2 * i + 1] == t[3 * i + 1]
        }),
{
}

} // verus!
