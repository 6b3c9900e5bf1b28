//! The configuration of the daemon: flags, environment variables, defaults.
//!
//! A flag takes precedence over its environment variable, and that over the
//! default. There is no configuration file.

use vstd::prelude::*;

use crate::model;
use crate::model::Ipv4Addr;
use crate::names::NameMap;
use crate::server::DEFAULT_PUBLISH_RANGE;
use crate::text;
use crate::text::{chars_of, parse_u16, same_text, split_at, string_of, trim, words_of};

verus! {

/// Where the sockets and the state are kept by default.
pub const DEFAULT_SOCKET_DIR: &'static str = "/run/user/1000/k8snet";

/// The WAN program by default.
pub const DEFAULT_PASST_BINARY: &'static str = "passt";

/// The DNS upstreams by default.
pub const DEFAULT_UPSTREAM_DNS: &'static str = "1.1.1.1,8.8.8.8";

/// The MTU by default.
pub const DEFAULT_MTU: u16 = 1500;

/// The ports that Linux picks for outgoing connections by default.
pub const DEFAULT_EPHEMERAL_RANGE: (u16, u16) = (32768, 60999);

// -- types --------------------------------------------------------------------

/// The configuration of the daemon.
#[derive(Debug, PartialEq, Eq)]
pub struct Config {
    /// The directory of the control socket, the port sockets and the state.
    pub socket_dir: String,
    /// The name or the path of the WAN program.
    pub passt_binary: String,
    /// The DNS upstreams, in order.
    pub upstream_dns: Vec<Ipv4Addr>,
    /// The MTU of the networks.
    pub mtu: u16,
    /// Static forwards: there are none any longer, and this is always empty.
    pub port_forwards: Vec<u16>,
    /// The host ports that may be published, both ends included.
    pub publish_range: (u16, u16),
}

/// What a [`Config`] holds.
#[verifier::ext_equal]
pub struct ConfigView {
    pub socket_dir: Seq<char>,
    pub passt_binary: Seq<char>,
    pub upstream_dns: Seq<Ipv4Addr>,
    pub mtu: u16,
    pub port_forwards: Seq<u16>,
    pub publish_range: (u16, u16),
}

impl View for Config {
    type V = ConfigView;

    open spec fn view(&self) -> ConfigView {
        ConfigView {
            socket_dir: self.socket_dir@,
            passt_binary: self.passt_binary@,
            upstream_dns: self.upstream_dns@,
            mtu: self.mtu,
            port_forwards: self.port_forwards@,
            publish_range: self.publish_range,
        }
    }
}

/// Why there is no configuration.
#[derive(Debug, PartialEq, Eq)]
pub enum ConfigError {
    /// A value is not of the form it should have.
    InvalidValue { key: String, value: String },
    /// A list has an empty entry.
    EmptyListEntry { key: String },
}

/// What a [`ConfigError`] holds.
#[verifier::ext_equal]
pub enum ErrorView {
    InvalidValue { key: Seq<char>, value: Seq<char> },
    EmptyListEntry { key: Seq<char> },
}

impl View for ConfigError {
    type V = ErrorView;

    open spec fn view(&self) -> ErrorView {
        match self {
            ConfigError::InvalidValue { key, value } => ErrorView::InvalidValue {
                key: key@,
                value: value@,
            },
            ConfigError::EmptyListEntry { key } => ErrorView::EmptyListEntry { key: key@ },
        }
    }
}

/// The flags of the command line, where they are given.
#[derive(Debug, PartialEq, Eq)]
pub struct Flags {
    pub socket_dir: Option<String>,
    pub passt_binary: Option<String>,
    pub upstream_dns: Option<String>,
    pub mtu: Option<u16>,
}

/// What [`Flags`] hold.
#[verifier::ext_equal]
pub struct FlagsView {
    pub socket_dir: Option<Seq<char>>,
    pub passt_binary: Option<Seq<char>>,
    pub upstream_dns: Option<Seq<char>>,
    pub mtu: Option<u16>,
}

/// The content of an optional string.
pub open spec fn optional(s: Option<String>) -> Option<Seq<char>> {
    match s {
        Some(t) => Some(t@),
        None => None,
    }
}

impl View for Flags {
    type V = FlagsView;

    open spec fn view(&self) -> FlagsView {
        FlagsView {
            socket_dir: optional(self.socket_dir),
            passt_binary: optional(self.passt_binary),
            upstream_dns: optional(self.upstream_dns),
            mtu: self.mtu,
        }
    }
}

/// No flags.
pub open spec fn no_flags() -> FlagsView {
    FlagsView { socket_dir: None, passt_binary: None, upstream_dns: None, mtu: None }
}

impl Default for Flags {
    fn default() -> (r: Self)
        ensures
            r@ == no_flags(),
    {
        Flags { socket_dir: None, passt_binary: None, upstream_dns: None, mtu: None }
    }
}

// -- values -------------------------------------------------------------------

/// What is wrong with the entry `part` of the list `raw` under `key`.
pub open spec fn entry_error(key: Seq<char>, raw: Seq<char>, part: Seq<char>) -> Option<ErrorView> {
    if text::trimmed(part).len() == 0 {
        Some(ErrorView::EmptyListEntry { key })
    } else if model::no_address(text::trimmed(part)) {
        Some(ErrorView::InvalidValue { key, value: raw })
    } else {
        None
    }
}

/// Whether the list `raw` under `key` gives `r`: the addresses between the
/// commas, each with white space around it allowed; or what is wrong with the
/// first entry that has something wrong.
pub open spec fn ip_list(
    key: Seq<char>,
    raw: Seq<char>,
    r: Result<Seq<Ipv4Addr>, ErrorView>,
) -> bool {
    let parts = text::split(raw, ',');
    match r {
        Ok(ips) => {
            &&& ips.len() == parts.len()
            &&& forall|i: int|
                0 <= i < ips.len() ==> (#[trigger] ips[i]).text() == text::trimmed(parts[i])
        },
        Err(e) => exists|i: int|
            {
                &&& 0 <= i < parts.len()
                &&& #[trigger] entry_error(key, raw, parts[i]) == Some(e)
                &&& forall|j: int|
                    0 <= j < i ==> #[trigger] entry_error(key, raw, parts[j]) is None
            },
    }
}

/// The addresses in the list `raw` under `key`.
pub fn parse_ip_list(key: &str, raw: &str) -> (r: Result<Vec<Ipv4Addr>, ConfigError>)
    ensures
        match r {
            Ok(ips) => ip_list(key@, raw@, Ok(ips@)),
            Err(e) => ip_list(key@, raw@, Err(e@)),
        },
{
    let chars = chars_of(raw);
    let parts = split_at(chars.as_slice(), ',');
    let ghost want = text::split(raw@, ',');
    let mut ips: Vec<Ipv4Addr> = Vec::new();
    let mut i: usize = 0;
    while i < parts.len()
        invariant
            i <= parts.len(),
            want == text::split(raw@, ','),
            parts.len() == want.len(),
            forall|k: int| 0 <= k < parts.len() ==> (#[trigger] parts[k])@ == want[k],
            ips.len() == i,
            forall|k: int| 0 <= k < i ==> (#[trigger] ips[k]).text() == text::trimmed(want[k]),
            forall|k: int| 0 <= k < i ==> #[trigger] entry_error(key@, raw@, want[k]) is None,
        decreases parts.len() - i,
    {
        let part = trim(parts[i].as_slice());
        assert(part@ == text::trimmed(want[i as int]));
        if part.len() == 0 {
            assert(entry_error(key@, raw@, want[i as int]) == Some(
                ErrorView::EmptyListEntry { key: key@ },
            ));
            return Err(ConfigError::EmptyListEntry { key: key.to_owned() });
        }
        let word = string_of(part.as_slice());
        match Ipv4Addr::parse(word.as_str()) {
            Ok(ip) => {
                ips.push(ip);
            },
            Err(_) => {
                assert(entry_error(key@, raw@, want[i as int]) == Some(
                    ErrorView::InvalidValue { key: key@, value: raw@ },
                ));
                return Err(
                    ConfigError::InvalidValue { key: key.to_owned(), value: raw.to_owned() },
                );
            },
        }
        i = i + 1;
    }
    Ok(ips)
}

/// The range that `raw` writes: two numbers that fit 16 bits, with a dash
/// between them, of which the first is not the greater.
pub open spec fn range_in(raw: Seq<char>) -> Option<(u16, u16)> {
    let parts = text::split(raw, '-');
    let start = text::number_in(parts[0], 0xffff);
    let end = text::number_in(parts[1], 0xffff);
    if parts.len() == 2 && start is Some && end is Some && start->0 <= end->0 {
        Some((start->0 as u16, end->0 as u16))
    } else {
        None
    }
}

/// The range that `raw` writes.
pub fn parse_publish_range(raw: &str) -> (r: Result<(u16, u16), ConfigError>)
    ensures
        match r {
            Ok(range) => range_in(raw@) == Some(range),
            Err(e) => range_in(raw@) is None && e@ == (ErrorView::InvalidValue {
                key: "K8NETD_PUBLISH_RANGE"@,
                value: raw@,
            }),
        },
{
    let chars = chars_of(raw);
    let parts = split_at(chars.as_slice(), '-');
    if parts.len() == 2 {
        if let (Some(start), Some(end)) = (
            parse_u16(parts[0].as_slice()),
            parse_u16(parts[1].as_slice()),
        ) {
            if start <= end {
                return Ok((start, end));
            }
        }
    }
    Err(
        ConfigError::InvalidValue {
            key: "K8NETD_PUBLISH_RANGE".to_owned(),
            value: raw.to_owned(),
        },
    )
}

// -- resolving ----------------------------------------------------------------

/// The value of a setting: the flag, else the environment variable `key`, else
/// the default.
pub open spec fn setting(
    flag: Option<Seq<char>>,
    env: Map<Seq<char>, Seq<char>>,
    key: Seq<char>,
    default: Seq<char>,
) -> Seq<char> {
    match flag {
        Some(v) => v,
        None => if env.contains_key(key) {
            env[key]
        } else {
            default
        },
    }
}

/// The MTU: the flag, else the environment variable, which must be a number
/// that fits 16 bits, else the default.
pub open spec fn mtu_setting(flag: Option<u16>, env: Map<Seq<char>, Seq<char>>) -> Result<
    u16,
    ErrorView,
> {
    let key = "K8NETD_MTU"@;
    match flag {
        Some(m) => Ok(m),
        None => if !env.contains_key(key) {
            Ok(DEFAULT_MTU)
        } else {
            match text::number_in(env[key], 0xffff) {
                Some(n) => Ok(n as u16),
                None => Err(ErrorView::InvalidValue { key, value: env[key] }),
            }
        },
    }
}

/// The host ports that may be published: the environment variable, which must
/// be a range, else the default.
pub open spec fn range_setting(env: Map<Seq<char>, Seq<char>>) -> Result<(u16, u16), ErrorView> {
    let key = "K8NETD_PUBLISH_RANGE"@;
    if !env.contains_key(key) {
        Ok(DEFAULT_PUBLISH_RANGE)
    } else {
        match range_in(env[key]) {
            Some(range) => Ok(range),
            None => Err(ErrorView::InvalidValue { key, value: env[key] }),
        }
    }
}

/// Whether the flags and the environment variables give the configuration, or
/// the error, `r`. The first error counts, in this order: the DNS upstreams,
/// the MTU, the host ports.
pub open spec fn resolution(
    flags: FlagsView,
    env: Map<Seq<char>, Seq<char>>,
    r: Result<ConfigView, ErrorView>,
) -> bool {
    let key = "K8NETD_UPSTREAM_DNS"@;
    let dns = setting(flags.upstream_dns, env, key, DEFAULT_UPSTREAM_DNS@);
    let mtu = mtu_setting(flags.mtu, env);
    let range = range_setting(env);
    match r {
        Ok(c) => {
            &&& c.socket_dir == setting(
                flags.socket_dir,
                env,
                "K8NETD_SOCKET_DIR"@,
                DEFAULT_SOCKET_DIR@,
            )
            &&& c.passt_binary == setting(
                flags.passt_binary,
                env,
                "K8NETD_PASST_BINARY"@,
                DEFAULT_PASST_BINARY@,
            )
            &&& ip_list(key, dns, Ok(c.upstream_dns))
            &&& mtu == Ok::<u16, ErrorView>(c.mtu)
            &&& c.port_forwards == Seq::<u16>::empty()
            &&& range == Ok::<(u16, u16), ErrorView>(c.publish_range)
        },
        Err(e) => {
            ||| ip_list(key, dns, Err(e))
            ||| exists|ips: Seq<Ipv4Addr>| #[trigger]
                ip_list(key, dns, Ok(ips)) && (mtu == Err::<u16, ErrorView>(e) || (mtu is Ok
                    && range == Err::<(u16, u16), ErrorView>(e)))
        },
    }
}

/// The contents of the environment variables.
pub open spec fn values(env: Map<Seq<char>, String>) -> Map<Seq<char>, Seq<char>> {
    env.map_values(|s: String| s@)
}

/// The value of a setting.
fn setting_of(flag: &Option<String>, env: &NameMap<String>, key: &str, default: &str) -> (r: String)
    ensures
        r@ == setting(optional(*flag), values(env@), key@, default@),
{
    match flag {
        Some(v) => v.clone(),
        None => match env.get(key) {
            Some(v) => v.clone(),
            None => default.to_owned(),
        },
    }
}

impl Config {
    /// The configuration that the flags and the environment variables give.
    pub fn resolve(flags: &Flags, env: &NameMap<String>) -> (r: Result<Config, ConfigError>)
        ensures
            match r {
                Ok(c) => resolution(flags@, values(env@), Ok(c@)),
                Err(e) => resolution(flags@, values(env@), Err(e@)),
            },
    {
        let socket_dir = setting_of(
            &flags.socket_dir,
            env,
            "K8NETD_SOCKET_DIR",
            DEFAULT_SOCKET_DIR,
        );
        let passt_binary = setting_of(
            &flags.passt_binary,
            env,
            "K8NETD_PASST_BINARY",
            DEFAULT_PASST_BINARY,
        );
        let dns_raw = setting_of(
            &flags.upstream_dns,
            env,
            "K8NETD_UPSTREAM_DNS",
            DEFAULT_UPSTREAM_DNS,
        );
        let upstream_dns = match parse_ip_list("K8NETD_UPSTREAM_DNS", dns_raw.as_str()) {
            Ok(ips) => ips,
            Err(e) => {
                return Err(e);
            },
        };
        assert(ip_list("K8NETD_UPSTREAM_DNS"@, dns_raw@, Ok(upstream_dns@)));
        let mtu: u16 = match flags.mtu {
            Some(m) => m,
            None => match env.get("K8NETD_MTU") {
                Some(raw) => match parse_u16(chars_of(raw.as_str()).as_slice()) {
                    Some(m) => m,
                    None => {
                        return Err(
                            ConfigError::InvalidValue {
                                key: "K8NETD_MTU".to_owned(),
                                value: raw.clone(),
                            },
                        );
                    },
                },
                None => DEFAULT_MTU,
            },
        };
        let publish_range: (u16, u16) = match env.get("K8NETD_PUBLISH_RANGE") {
            Some(raw) => match parse_publish_range(raw.as_str()) {
                Ok(range) => range,
                Err(e) => {
                    return Err(e);
                },
            },
            None => DEFAULT_PUBLISH_RANGE,
        };
        let port_forwards: Vec<u16> = Vec::new();
        Ok(
            Config {
                socket_dir,
                passt_binary,
                upstream_dns,
                mtu,
                port_forwards,
                publish_range,
            },
        )
    }
}

// -- flags --------------------------------------------------------------------

/// The flags that the arguments `args` add to `f`. Each flag is followed by
/// its value, and a later one counts. Anything else is an error.
pub open spec fn flags_in(args: Seq<Seq<char>>, f: FlagsView) -> Result<FlagsView, ErrorView>
    decreases args.len(),
{
    if args.len() == 0 {
        Ok(f)
    } else if args[0] != "--socket-dir"@ && args[0] != "--passt-binary"@ && args[0]
        != "--upstream-dns"@ && args[0] != "--mtu"@ {
        Err(ErrorView::InvalidValue { key: "--flags"@, value: args[0] })
    } else if args.len() == 1 {
        Err(ErrorView::InvalidValue { key: args[0], value: "<missing>"@ })
    } else if args[0] == "--socket-dir"@ {
        flags_in(args.skip(2), FlagsView { socket_dir: Some(args[1]), ..f })
    } else if args[0] == "--passt-binary"@ {
        flags_in(args.skip(2), FlagsView { passt_binary: Some(args[1]), ..f })
    } else if args[0] == "--upstream-dns"@ {
        flags_in(args.skip(2), FlagsView { upstream_dns: Some(args[1]), ..f })
    } else {
        match text::number_in(args[1], 0xffff) {
            Some(n) => flags_in(args.skip(2), FlagsView { mtu: Some(n as u16), ..f }),
            None => Err(ErrorView::InvalidValue { key: "--mtu"@, value: args[1] }),
        }
    }
}

/// The contents of the arguments.
pub open spec fn arguments(args: Seq<String>) -> Seq<Seq<char>> {
    args.map_values(|s: String| s@)
}

/// The flags that the arguments of the command line give.
pub fn parse_flags(args: &Vec<String>) -> (r: Result<Flags, ConfigError>)
    ensures
        match r {
            Ok(f) => flags_in(arguments(args@), no_flags()) == Ok::<FlagsView, ErrorView>(f@),
            Err(e) => flags_in(arguments(args@), no_flags()) == Err::<FlagsView, ErrorView>(e@),
        },
{
    let mut f = Flags::default();
    let mut i: usize = 0;
    let ghost all = arguments(args@);
    assert(all.skip(0) =~= all);
    while i < args.len()
        invariant
            i <= args.len(),
            all == arguments(args@),
            flags_in(all, no_flags()) == flags_in(all.skip(i as int), f@),
        decreases args.len() - i,
    {
        let arg = args[i].as_str();
        let ghost rest = all.skip(i as int);
        assert(rest[0] == arg@);
        let is_socket_dir = same_text(arg, "--socket-dir");
        let is_passt_binary = same_text(arg, "--passt-binary");
        let is_upstream_dns = same_text(arg, "--upstream-dns");
        let is_mtu = same_text(arg, "--mtu");
        if !is_socket_dir && !is_passt_binary && !is_upstream_dns && !is_mtu {
            return Err(
                ConfigError::InvalidValue { key: "--flags".to_owned(), value: arg.to_owned() },
            );
        }
        if args.len() - i < 2 {
            return Err(
                ConfigError::InvalidValue { key: arg.to_owned(), value: "<missing>".to_owned() },
            );
        }
        let value = args[i + 1].clone();
        assert(rest[1] == value@);
        assert(rest.skip(2) =~= all.skip(i + 2));
        if is_socket_dir {
            f.socket_dir = Some(value);
        } else if is_passt_binary {
            f.passt_binary = Some(value);
        } else if is_upstream_dns {
            f.upstream_dns = Some(value);
        } else {
            match parse_u16(chars_of(value.as_str()).as_slice()) {
                Some(n) => {
                    f.mtu = Some(n);
                },
                None => {
                    return Err(ConfigError::InvalidValue { key: "--mtu".to_owned(), value });
                },
            }
        }
        i = i + 2;
    }
    assert(all.skip(i as int).len() == 0);
    Ok(f)
}

// -- the host -----------------------------------------------------------------

/// The range that the first two words of `raw` write, where both are numbers
/// that fit 16 bits.
pub open spec fn ephemeral_in(raw: Seq<char>) -> Option<(u16, u16)> {
    let w = text::words(raw);
    let start = text::number_in(w[0], 0xffff);
    let end = text::number_in(w[1], 0xffff);
    if w.len() >= 2 && start is Some && end is Some {
        Some((start->0 as u16, end->0 as u16))
    } else {
        None
    }
}

/// The ports that the host picks for outgoing connections, as its setting
/// `raw` says, where it could be read; the default of Linux otherwise.
pub fn ephemeral_range(raw: Option<&str>) -> (r: (u16, u16))
    ensures
        r == (match raw {
            Some(s) => match ephemeral_in(s@) {
                Some(range) => range,
                None => DEFAULT_EPHEMERAL_RANGE,
            },
            None => DEFAULT_EPHEMERAL_RANGE,
        }),
{
    if let Some(s) = raw {
        let w = words_of(chars_of(s).as_slice());
        if w.len() >= 2 {
            if let (Some(start), Some(end)) = (
                parse_u16(w[0].as_slice()),
                parse_u16(w[1].as_slice()),
            ) {
                return (start, end);
            }
        }
    }
    DEFAULT_EPHEMERAL_RANGE
}

/// Whether `p` is in the range, both ends included.
pub open spec fn within(range: (u16, u16), p: u16) -> bool {
    range.0 <= p <= range.1
}

/// Whether neither range ends before the other starts: where neither is
/// reversed, they have a port in common.
pub fn ranges_overlap(a: (u16, u16), b: (u16, u16)) -> (r: bool)
    ensures
        r == (a.0 <= b.1 && b.0 <= a.1),
        a.0 <= a.1 && b.0 <= b.1 ==> r == exists|p: u16| #[trigger] within(a, p) && within(b, p),
{
    proof {
        if a.0 <= b.1 && b.0 <= a.1 && a.0 <= a.1 && b.0 <= b.1 {
            let p = if a.0 >= b.0 {
                a.0
            } else {
                b.0
            };
            assert(within(a, p) && within(b, p));
        }
    }
    a.0 <= b.1 && b.0 <= a.1
}

/// The version `raw` without the `v` before its first digit, where it starts
/// so.
pub open spec fn normal_version(raw: Seq<char>) -> Seq<char> {
    if raw.len() >= 2 && raw[0] == 'v' && text::is_digit(raw[1]) {
        raw.skip(1)
    } else {
        raw
    }
}

/// The version without the `v` before its first digit: releases are tagged
/// with one, other builds are not.
pub fn normalize_version(raw: &str) -> (r: String)
    ensures
        r@ == normal_version(raw@),
{
    let c = chars_of(raw);
    if c.len() >= 2 && c[0] == 'v' && 48 <= c[1] as u32 && c[1] as u32 <= 57 {
        let mut rest: Vec<char> = Vec::new();
        let mut i: usize = 1;
        while i < c.len()
            invariant
                1 <= i <= c.len(),
                rest@ == c@.subrange(1, i as int),
            decreases c.len() - i,
        {
            rest.push(c[i]);
            assert(c@.subrange(1, i + 1) =~= c@.subrange(1, i as int).push(c@[i as int]));
            i = i + 1;
        }
        assert(rest@ =~= raw@.skip(1));
        return string_of(rest.as_slice());
    }
    raw.to_owned()
}

// -- laws ---------------------------------------------------------------------

/// A flag takes precedence over its environment variable, and that over the
/// default.
pub proof fn law_precedence(
    flag: Seq<char>,
    env: Map<Seq<char>, Seq<char>>,
    key: Seq<char>,
    value: Seq<char>,
    default: Seq<char>,
)
    ensures
        setting(Some(flag), env, key, default) == flag,
        setting(None, env.insert(key, value), key, default) == value,
        setting(None, env.remove(key), key, default) == default,
{
}

/// Whatever else the environment has, such as the forwards of former versions,
/// makes no difference.
pub proof fn law_other_variables_are_ignored(
    flags: FlagsView,
    env: Map<Seq<char>, Seq<char>>,
    key: Seq<char>,
    value: Seq<char>,
    r: Result<ConfigView, ErrorView>,
)
    requires
        key != "K8NETD_SOCKET_DIR"@,
        key != "K8NETD_PASST_BINARY"@,
        key != "K8NETD_UPSTREAM_DNS"@,
        key != "K8NETD_MTU"@,
        key != "K8NETD_PUBLISH_RANGE"@,
    ensures
        resolution(flags, env.insert(key, value), r) <==> resolution(flags, env, r),
{
}

/// What a configuration is made of, whatever the flags and the environment say:
/// each setting is the flag where it is given, else the variable where there is
/// one, else the default; and there is none only where the DNS servers, the MTU
/// or the host ports are not of their form.
pub proof fn law_what_a_configuration_is_made_of(
    flags: FlagsView,
    env: Map<Seq<char>, Seq<char>>,
    c: ConfigView,
)
    requires
        resolution(flags, env, Ok(c)),
    ensures
        c.socket_dir == (if flags.socket_dir is Some {
            flags.socket_dir->0
        } else if env.contains_key("K8NETD_SOCKET_DIR"@) {
            env["K8NETD_SOCKET_DIR"@]
        } else {
            "/run/user/1000/k8snet"@
        }),
        c.passt_binary == (if flags.passt_binary is Some {
            flags.passt_binary->0
        } else if env.contains_key("K8NETD_PASST_BINARY"@) {
            env["K8NETD_PASST_BINARY"@]
        } else {
            "passt"@
        }),
        ({
            let list = if flags.upstream_dns is Some {
                flags.upstream_dns->0
            } else if env.contains_key("K8NETD_UPSTREAM_DNS"@) {
                env["K8NETD_UPSTREAM_DNS"@]
            } else {
                "1.1.1.1,8.8.8.8"@
            };
            let parts = text::split(list, ',');
            &&& c.upstream_dns.len() == parts.len()
            &&& forall|i: int|
                0 <= i < parts.len() ==> (#[trigger] c.upstream_dns[i]).text() == text::trimmed(
                    parts[i],
                )
        }),
        flags.mtu is Some ==> c.mtu == flags.mtu->0,
        flags.mtu is None && !env.contains_key("K8NETD_MTU"@) ==> c.mtu == 1500,
        flags.mtu is None && env.contains_key("K8NETD_MTU"@) ==> text::number_in(
            env["K8NETD_MTU"@],
            0xffff,
        ) == Some(c.mtu as nat),
        !env.contains_key("K8NETD_PUBLISH_RANGE"@) ==> c.publish_range == (20_000u16, 21_000u16),
        env.contains_key("K8NETD_PUBLISH_RANGE"@) ==> range_in(env["K8NETD_PUBLISH_RANGE"@])
            == Some(c.publish_range),
        c.port_forwards.len() == 0,
{
}

/// A range that is written as two numbers with a dash between them is read so,
/// and refused only where the first is the greater.
pub proof fn law_ranges_are_read(a: u16, b: u16)
    ensures
        range_in(text::decimal(a as nat).push('-') + text::decimal(b as nat)) == (if a <= b {
            Some((a, b))
        } else {
            None
        }),
{
    let x = text::decimal(a as nat);
    let y = text::decimal(b as nat);
    text::lemma_decimal(a as nat);
    text::lemma_decimal(b as nat);
    text::law_decimal_is_read(a as nat, 0xffff);
    text::law_decimal_is_read(b as nat, 0xffff);
    assert forall|j: int| 0 <= j < x.len() implies x[j] != '-' by {
        assert(text::is_digit(x[j]));
    }
    assert forall|j: int| 0 <= j < y.len() implies y[j] != '-' by {
        assert(text::is_digit(y[j]));
    }
    text::lemma_split_none(y, '-');
    text::lemma_split_joined(x, '-', y);
    let parts = text::split(x.push('-') + y, '-');
    assert(parts =~= seq![x, y]);
}

/// A flag at the end of the arguments counts, whatever is before it, and leaves
/// the other flags as they are.
pub proof fn law_the_last_flag_counts(
    args: Seq<Seq<char>>,
    f: FlagsView,
    g: FlagsView,
    value: Seq<char>,
    mtu: u16,
)
    requires
        flags_in(args, f) == Ok::<FlagsView, ErrorView>(g),
    ensures
        flags_in(args + seq!["--socket-dir"@, value], f) == Ok::<FlagsView, ErrorView>(
            FlagsView { socket_dir: Some(value), ..g },
        ),
        flags_in(args + seq!["--passt-binary"@, value], f) == Ok::<FlagsView, ErrorView>(
            FlagsView { passt_binary: Some(value), ..g },
        ),
        flags_in(args + seq!["--upstream-dns"@, value], f) == Ok::<FlagsView, ErrorView>(
            FlagsView { upstream_dns: Some(value), ..g },
        ),
        flags_in(args + seq!["--mtu"@, text::decimal(mtu as nat)], f) == Ok::<FlagsView, ErrorView>(
            FlagsView { mtu: Some(mtu), ..g },
        ),
    decreases args.len(),
{
    reveal_strlit("--socket-dir");
    reveal_strlit("--passt-binary");
    reveal_strlit("--upstream-dns");
    reveal_strlit("--mtu");
    assert("--socket-dir"@.len() == 12 && "--passt-binary"@.len() == 14 && "--upstream-dns"@.len()
        == 14 && "--mtu"@.len() == 5);
    assert("--passt-binary"@[2] == 'p' && "--upstream-dns"@[2] == 'u');
    text::law_decimal_is_read(mtu as nat, 0xffff);
    let a = seq!["--socket-dir"@, value];
    let b = seq!["--passt-binary"@, value];
    let c = seq!["--upstream-dns"@, value];
    let d = seq!["--mtu"@, text::decimal(mtu as nat)];
    if args.len() == 0 {
        assert(args + a =~= a && args + b =~= b && args + c =~= c && args + d =~= d);
        assert(a.skip(2) =~= seq![] && b.skip(2) =~= seq![] && c.skip(2) =~= seq![] && d.skip(2)
            =~= seq![]);
        reveal_with_fuel(flags_in, 2);
    } else {
        let rest = args.skip(2);
        let next = if args[0] == "--socket-dir"@ {
            FlagsView { socket_dir: Some(args[1]), ..f }
        } else if args[0] == "--passt-binary"@ {
            FlagsView { passt_binary: Some(args[1]), ..f }
        } else if args[0] == "--upstream-dns"@ {
            FlagsView { upstream_dns: Some(args[1]), ..f }
        } else {
            FlagsView { mtu: Some(text::number_in(args[1], 0xffff)->0 as u16), ..f }
        };
        law_the_last_flag_counts(rest, next, g, value, mtu);
        lemma_skip_first(args, a);
        lemma_skip_first(args, b);
        lemma_skip_first(args, c);
        lemma_skip_first(args, d);
    }
}

proof fn lemma_skip_first(args: Seq<Seq<char>>, more: Seq<Seq<char>>)
    requires
        args.len() >= 2,
    ensures
        (args + more).skip(2) == args.skip(2) + more,
        (args + more)[0] == args[0],
        (args + more)[1] == args[1],
        (args + more).len() >= 2,
{
    assert((args + more).skip(2) =~= args.skip(2) + more);
}

/// Whether `part` is the text of an address, with white space around it or not.
pub open spec fn writes_address(part: Seq<char>) -> bool {
    exists|ip: Ipv4Addr| #[trigger] ip.text() == text::trimmed(part)
}

/// Settings that are of their form are never refused: DNS servers that are all
/// addresses, with white space around them or not, an MTU that is a number of
/// at most 16 bits, and host ports that are a range.
pub proof fn law_good_settings_are_never_refused(
    flags: FlagsView,
    env: Map<Seq<char>, Seq<char>>,
    list: Seq<char>,
    e: ErrorView,
)
    requires
        list == (if flags.upstream_dns is Some {
            flags.upstream_dns->0
        } else if env.contains_key("K8NETD_UPSTREAM_DNS"@) {
            env["K8NETD_UPSTREAM_DNS"@]
        } else {
            "1.1.1.1,8.8.8.8"@
        }),
        forall|i: int|
            0 <= i < text::split(list, ',').len() ==> writes_address(
                #[trigger] text::split(list, ',')[i],
            ),
        flags.mtu is Some || !env.contains_key("K8NETD_MTU"@) || text::number_in(
            env["K8NETD_MTU"@],
            0xffff,
        ) is Some,
        !env.contains_key("K8NETD_PUBLISH_RANGE"@) || range_in(env["K8NETD_PUBLISH_RANGE"@]) is Some,
    ensures
        !resolution(flags, env, Err(e)),
{
    let key = "K8NETD_UPSTREAM_DNS"@;
    let dns = setting(flags.upstream_dns, env, key, DEFAULT_UPSTREAM_DNS@);
    assert(dns == list);
    let parts = text::split(list, ',');
    assert forall|i: int| 0 <= i < parts.len() implies entry_error(
        key,
        dns,
        #[trigger] parts[i],
    ) is None by {
        assert(writes_address(text::split(list, ',')[i]));
        let ip = choose|ip: Ipv4Addr| #[trigger] ip.text() == text::trimmed(parts[i]);
        text::lemma_decimal(ip.a as nat);
        assert(ip.text().len() > 0);
    }
}

/// Arguments that start with anything but a flag and its value are refused:
/// with what they start with, with the flag whose value is missing, or with the
/// MTU that is no number of 16 bits.
pub proof fn law_other_arguments_are_refused(args: Seq<Seq<char>>, f: FlagsView)
    requires
        args.len() > 0,
    ensures
        ({
            let known = args[0] == "--socket-dir"@ || args[0] == "--passt-binary"@ || args[0]
                == "--upstream-dns"@ || args[0] == "--mtu"@;
            &&& !known ==> flags_in(args, f) == Err::<FlagsView, ErrorView>(
                ErrorView::InvalidValue { key: "--flags"@, value: args[0] },
            )
            &&& known && args.len() == 1 ==> flags_in(args, f) == Err::<FlagsView, ErrorView>(
                ErrorView::InvalidValue { key: args[0], value: "<missing>"@ },
            )
            &&& args[0] == "--mtu"@ && args.len() > 1 && text::number_in(args[1], 0xffff) is None
                ==> flags_in(args, f) == Err::<FlagsView, ErrorView>(
                ErrorView::InvalidValue { key: "--mtu"@, value: args[1] },
            )
        }),
{
    reveal_strlit("--socket-dir");
    reveal_strlit("--passt-binary");
    reveal_strlit("--upstream-dns");
    reveal_strlit("--mtu");
    assert("--socket-dir"@.len() == 12 && "--passt-binary"@.len() == 14 && "--upstream-dns"@.len()
        == 14 && "--mtu"@.len() == 5);
}

/// The ports that the host says it picks, two numbers with white space between
/// them, are read as they are.
pub proof fn law_ports_of_the_host_are_read(a: u16, b: u16, sep: char)
    requires
        text::white_space(sep),
    ensures
        ephemeral_in(text::decimal(a as nat).push(sep) + text::decimal(b as nat)) == Some((a, b)),
{
    let x = text::decimal(a as nat);
    let y = text::decimal(b as nat);
    text::lemma_decimal(a as nat);
    text::lemma_decimal(b as nat);
    text::law_decimal_is_read(a as nat, 0xffff);
    text::law_decimal_is_read(b as nat, 0xffff);
    assert forall|i: int| 0 <= i < x.len() implies !text::white_space(#[trigger] x[i]) by {
        assert(text::is_digit(x[i]));
    }
    assert forall|i: int| 0 <= i < y.len() implies !text::white_space(#[trigger] y[i]) by {
        assert(text::is_digit(y[i]));
    }
    text::law_words_are_told_apart(x, sep, y);
}

/// The letter v is taken from a version where a digit follows it, and nothing
/// else is ever taken.
pub proof fn law_only_the_letter_is_taken(version: Seq<char>)
    ensures
        version.len() > 0 && 48 <= version[0] as u32 <= 57 ==> normal_version(
            seq!['v'] + version,
        ) == version && normal_version(version) == version,
        version.len() > 0 && !(48 <= version[0] as u32 <= 57) ==> normal_version(
            seq!['v'] + version,
        ) == seq!['v'] + version,
        version.len() > 0 && version[0] != 'v' ==> normal_version(version) == version,
{
    assert((seq!['v'] + version).skip(1) =~= version);
}

/// What is wrong with a setting that is not of its form is told, with the
/// variable and its value: of a list its first bad entry, which is empty or no
/// address; else the MTU; else the host ports.
pub proof fn law_what_is_wrong_is_told(
    flags: FlagsView,
    env: Map<Seq<char>, Seq<char>>,
    list: Seq<char>,
    e: ErrorView,
    i: int,
)
    requires
        resolution(flags, env, Err(e)),
        list == (if flags.upstream_dns is Some {
            flags.upstream_dns->0
        } else if env.contains_key("K8NETD_UPSTREAM_DNS"@) {
            env["K8NETD_UPSTREAM_DNS"@]
        } else {
            "1.1.1.1,8.8.8.8"@
        }),
        0 <= i <= text::split(list, ',').len(),
        forall|j: int| 0 <= j < i ==> writes_address(#[trigger] text::split(list, ',')[j]),
        i < text::split(list, ',').len() ==> !writes_address(text::split(list, ',')[i]),
    ensures
        i < text::split(list, ',').len() ==> e == (if text::trimmed(text::split(list, ',')[i]).len()
            == 0 {
            ErrorView::EmptyListEntry { key: "K8NETD_UPSTREAM_DNS"@ }
        } else {
            ErrorView::InvalidValue { key: "K8NETD_UPSTREAM_DNS"@, value: list }
        }),
        i == text::split(list, ',').len() ==> e == (if flags.mtu is None && env.contains_key(
            "K8NETD_MTU"@,
        ) && text::number_in(env["K8NETD_MTU"@], 0xffff) is None {
            ErrorView::InvalidValue { key: "K8NETD_MTU"@, value: env["K8NETD_MTU"@] }
        } else {
            ErrorView::InvalidValue {
                key: "K8NETD_PUBLISH_RANGE"@,
                value: env["K8NETD_PUBLISH_RANGE"@],
            }
        }),
{
    let key = "K8NETD_UPSTREAM_DNS"@;
    let dns = setting(flags.upstream_dns, env, key, DEFAULT_UPSTREAM_DNS@);
    assert(dns == list);
    let parts = text::split(list, ',');
    assert forall|j: int| 0 <= j < i implies entry_error(key, dns, #[trigger] parts[j]) is None by {
        assert(writes_address(text::split(list, ',')[j]));
        let ip = choose|ip: Ipv4Addr| #[trigger] ip.text() == text::trimmed(parts[j]);
        text::lemma_decimal(ip.a as nat);
        assert(ip.text().len() > 0);
    }
    if i < parts.len() {
        assert(model::no_address(text::trimmed(parts[i]))) by {
            assert forall|ip: Ipv4Addr| #[trigger] ip.text() != text::trimmed(parts[i]) by {
                assert(!writes_address(parts[i]));
            }
        }
        assert(entry_error(key, dns, parts[i]) is Some);
        if ip_list(key, dns, Err(e)) {
            let k = choose|k: int|
                {
                    &&& 0 <= k < parts.len()
                    &&& #[trigger] entry_error(key, dns, parts[k]) == Some(e)
                    &&& forall|j: int|
                        0 <= j < k ==> #[trigger] entry_error(key, dns, parts[j]) is None
                };
            assert(entry_error(key, dns, parts[k]) is Some);
            assert(k >= i);
            assert(k <= i);
        } else {
            let ips = choose|ips: Seq<Ipv4Addr>| #[trigger] ip_list(key, dns, Ok(ips));
            assert(ips[i].text() == text::trimmed(parts[i]));
            assert(writes_address(parts[i]));
        }
    } else if ip_list(key, dns, Err(e)) {
        let k = choose|k: int|
            {
                &&& 0 <= k < parts.len()
                &&& #[trigger] entry_error(key, dns, parts[k]) == Some(e)
                &&& forall|j: int|
                    0 <= j < k ==> #[trigger] entry_error(key, dns, parts[j]) is None
            };
        assert(entry_error(key, dns, parts[k]) is None);
    }
}

} // verus!
