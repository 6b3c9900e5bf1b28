//! Reading the parameters of requests.

use vstd::prelude::*;

use crate::json;
use crate::json::{Number, Value};
use crate::model::{IpPool, Ipv4Addr, MacAddr, Network};
use crate::model;
use crate::net;
use crate::protocol;
use crate::protocol::RpcError;
use crate::text;

verus! {

/// The text under `key` in the parameters `p`.
pub open spec fn text_param(p: json::Json, key: Seq<char>) -> Option<Seq<char>> {
    protocol::text_in(json::member(p, key))
}

/// The number under `key` in the parameters `p`, where it fits 16 bits.
pub open spec fn number_param(p: json::Json, key: Seq<char>) -> Option<u16> {
    match json::member(p, key) {
        Some(json::Json::Number(Number::PosInt(n))) => if n <= 0xffff {
            Some(n as u16)
        } else {
            None
        },
        _ => None,
    }
}

/// The MAC address that `s` writes, in either case.
pub open spec fn mac_in(s: Seq<char>) -> Option<MacAddr> {
    if exists|m: MacAddr| #[trigger] m.text() == net::lower_hex_text(s) {
        Some(choose|m: MacAddr| #[trigger] m.text() == net::lower_hex_text(s))
    } else {
        None
    }
}

/// The MAC address under `key` in the parameters `p`.
pub open spec fn mac_param_in(p: json::Json, key: Seq<char>) -> Option<MacAddr> {
    match text_param(p, key) {
        Some(s) => mac_in(s),
        None => None,
    }
}

/// The text under `key`.
pub fn str_param<'a>(params: &'a Value, key: &str) -> (r: Result<&'a str, RpcError>)
    ensures
        match r {
            Ok(s) => text_param(params@, key@) == Some(s@),
            Err(e) => text_param(params@, key@) is None && e == RpcError::InvalidParams,
        },
{
    match params.get(key) {
        Some(v) => match v.as_str() {
            Some(s) => Ok(s),
            None => Err(RpcError::InvalidParams),
        },
        None => Err(RpcError::InvalidParams),
    }
}

/// The number under `key`, which must fit 16 bits.
pub fn u16_param(params: &Value, key: &str) -> (r: Result<u16, RpcError>)
    ensures
        match r {
            Ok(n) => number_param(params@, key@) == Some(n),
            Err(e) => number_param(params@, key@) is None && e == RpcError::InvalidParams,
        },
{
    match params.get(key) {
        Some(v) => match v.as_u64() {
            Some(n) => if n <= 0xffff {
                Ok(n as u16)
            } else {
                Err(RpcError::InvalidParams)
            },
            None => Err(RpcError::InvalidParams),
        },
        None => Err(RpcError::InvalidParams),
    }
}

/// The MAC address under `key`.
pub fn mac_param(params: &Value, key: &str) -> (r: Result<MacAddr, RpcError>)
    ensures
        match r {
            Ok(m) => mac_param_in(params@, key@) == Some(m),
            Err(e) => mac_param_in(params@, key@) is None && e == RpcError::InvalidParams,
        },
{
    let s = match str_param(params, key) {
        Ok(s) => s,
        Err(e) => {
            return Err(e);
        },
    };
    match read_mac(s) {
        Some(m) => Ok(m),
        None => Err(RpcError::InvalidParams),
    }
}

/// The MAC address that `s` writes, in either case.
pub fn read_mac(s: &str) -> (r: Option<MacAddr>)
    ensures
        r == mac_in(s@),
{
    match MacAddr::parse(s) {
        Ok(m) => {
            proof {
                net::law_mac_text_is_unique(
                    m,
                    choose|m: MacAddr| #[trigger] m.text() == net::lower_hex_text(s@),
                );
            }
            Some(m)
        },
        Err(_) => None,
    }
}

// -- networks -----------------------------------------------------------------

/// Whether the parameters `p` have what a network is described by: a name, a
/// network, a gateway and the ends of a pool, each a text.
pub open spec fn has_network_params(p: json::Json) -> bool {
    &&& text_param(p, "name"@) is Some
    &&& text_param(p, "cidr"@) is Some
    &&& text_param(p, "gateway"@) is Some
    &&& text_param(p, "poolStart"@) is Some
    &&& text_param(p, "poolEnd"@) is Some
}

/// Whether the parameters `p` describe the valid network `n`.
pub open spec fn describes(p: json::Json, n: Network) -> bool {
    &&& n.wf()
    &&& text_param(p, "name"@) == Some(n.name@)
    &&& text_param(p, "cidr"@) == Some(n.cidr@.text())
    &&& text_param(p, "gateway"@) == Some(n.gateway.text())
    &&& text_param(p, "poolStart"@) == Some(n.pool.start.text())
    &&& text_param(p, "poolEnd"@) == Some(n.pool.end.text())
}

/// Whether the parameters `p` describe some valid network.
pub open spec fn describes_network(p: json::Json) -> bool {
    exists|n: Network| #[trigger] describes(p, n)
}

/// The network that the parameters describe.
pub fn network_param(params: &Value) -> (r: Result<Network, RpcError>)
    ensures
        match r {
            Ok(n) => describes(params@, n),
            Err(e) => !describes_network(params@) && e == RpcError::InvalidParams,
        },
{
    let name = str_param(params, "name")?;
    let cidr = str_param(params, "cidr")?;
    let gateway = str_param(params, "gateway")?;
    let pool_start = str_param(params, "poolStart")?;
    let pool_end = str_param(params, "poolEnd")?;
    let start = match Ipv4Addr::parse(pool_start) {
        Ok(ip) => ip,
        Err(_) => {
            return Err(RpcError::InvalidParams);
        },
    };
    let end = match Ipv4Addr::parse(pool_end) {
        Ok(ip) => ip,
        Err(_) => {
            return Err(RpcError::InvalidParams);
        },
    };
    let pool = match IpPool::new(start, end) {
        Ok(pool) => pool,
        Err(_) => {
            proof {
                lemma_pool_is_described(params@, start, end);
            }
            return Err(RpcError::InvalidParams);
        },
    };
    match Network::new(name, cidr, gateway, pool) {
        Ok(n) => Ok(n),
        Err(e) => {
            proof {
                lemma_pool_is_described(params@, start, end);
                assert forall|n: Network| !(#[trigger] describes(params@, n)) by {
                    if describes(params@, n) {
                        assert(n.pool == pool);
                        model::law_valid_network_is_not_refused(n, e);
                    }
                }
            }
            Err(RpcError::InvalidParams)
        },
    }
}

/// A described network has the pool whose ends are described.
proof fn lemma_pool_is_described(p: json::Json, start: Ipv4Addr, end: Ipv4Addr)
    requires
        text_param(p, "poolStart"@) == Some(start.text()),
        text_param(p, "poolEnd"@) == Some(end.text()),
    ensures
        forall|n: Network| #[trigger] describes(p, n) ==> n.pool == (IpPool { start, end }),
{
    assert forall|n: Network| #[trigger] describes(p, n) implies n.pool == (IpPool {
        start,
        end,
    }) by {
        net::law_address_text_is_unique(n.pool.start, start);
        net::law_address_text_is_unique(n.pool.end, end);
    }
}

/// Two networks that the same parameters describe agree in everything.
pub proof fn law_parameters_describe_one_network(p: json::Json, m: Network, n: Network)
    requires
        describes(p, m),
        describes(p, n),
    ensures
        m.name@ == n.name@,
        m.cidr@ == n.cidr@,
        m.gateway == n.gateway,
        m.pool == n.pool,
{
    net::law_network_text_is_unique(m.cidr@, n.cidr@);
    net::law_address_text_is_unique(m.gateway, n.gateway);
    net::law_address_text_is_unique(m.pool.start, n.pool.start);
    net::law_address_text_is_unique(m.pool.end, n.pool.end);
}

// -- laws ---------------------------------------------------------------------

/// Whether the parameters `p` are an object whose member `key` is the text
/// `word`.
pub open spec fn says(p: json::Json, key: Seq<char>, word: Seq<char>) -> bool {
    p matches json::Json::Object(m) && m.contains_key(key) && m[key] == json::Json::String(word)
}

/// A text is read wherever it stands under its key, whatever it is and whatever
/// else there is; a number wherever it fits 16 bits; and a MAC address wherever
/// it is written in either case.
pub proof fn law_parameters_are_read(p: json::Json, key: Seq<char>, word: Seq<char>, n: u64)
    ensures
        text_param(p, key) == Some(word) <==> says(p, key, word),
        (p matches json::Json::Object(m) && m.contains_key(key) && m[key] == json::Json::Number(
            Number::PosInt(n),
        )) ==> number_param(p, key) == (if n <= 0xffff {
            Some(n as u16)
        } else {
            None
        }),
        number_param(p, key) is Some ==> (p matches json::Json::Object(m) && m.contains_key(key)
            && m[key] is Number),
{
}

/// The text of a MAC address is read as it, with its letters in lower or in
/// upper case, and what is read is written so.
pub proof fn law_mac_addresses_are_read(p: json::Json, key: Seq<char>, s: Seq<char>, m: MacAddr)
    requires
        says(p, key, s),
    ensures
        s == m.text() ==> mac_param_in(p, key) == Some(m),
        mac_param_in(p, key) == Some(m) <==> s.len() == 17 && forall|i: int|
            0 <= i < 17 ==> (#[trigger] s[i]) == m.text()[i] || (97 <= m.text()[i] as u32 <= 102 && s[i]
                as u32 == m.text()[i] as u32 - 32),
{
    net::law_mac_text_is_unique(m, m);
    let low = net::lower_hex_text(s);
    if mac_in(s) is Some {
        let x = mac_in(s)->0;
        assert(x.text() == low);
        net::law_mac_text_is_unique(x, m);
    }
    net::law_mac_text_is_hexadecimal(m, 0);
    let fits = s.len() == 17 && forall|i: int|
        0 <= i < 17 ==> (#[trigger] s[i]) == m.text()[i] || (97 <= m.text()[i] as u32 <= 102 && s[i]
            as u32 == m.text()[i] as u32 - 32);
    if fits {
        assert forall|i: int| 0 <= i < 17 implies low[i] == m.text()[i] by {
            lemma_lower_hex(m.text(), i, m);
            assert(low[i] == text::lower_hex(s[i]));
            if s[i] != m.text()[i] {
                assert(s[i] as u32 + 32 == m.text()[i] as u32);
                text::lemma_char_code(low[i], m.text()[i]);
            }
        }
        assert(low =~= m.text());
    }
    if low == m.text() {
        assert(s.len() == 17);
        assert forall|i: int| 0 <= i < 17 implies (#[trigger] s[i]) == m.text()[i] || (97
            <= m.text()[i] as u32 <= 102 && s[i] as u32 == m.text()[i] as u32 - 32) by {
            assert(low[i] == text::lower_hex(s[i]));
        }
    }
    if s == m.text() {
        assert(low == m.text());
    }
}

/// The text of a MAC address has no letters in upper case.
proof fn lemma_lower_hex(t: Seq<char>, i: int, m: MacAddr)
    requires
        t == m.text(),
        0 <= i < 17,
    ensures
        text::lower_hex(t[i]) == t[i],
{
    net::law_mac_text_is_unique(m, m);
    assert(net::lower_hex_text(t)[i] == text::lower_hex(t[i]));
}

/// The parameters of a network describe it, and no other, by its name, its
/// addresses, its gateway and the ends of its pool.
pub proof fn law_networks_are_described(p: json::Json, n: Network)
    ensures
        describes(p, n) <==> {
            &&& n.wf()
            &&& says(p, "name"@, n.name@)
            &&& says(p, "cidr"@, n.cidr@.text())
            &&& says(p, "gateway"@, n.gateway.text())
            &&& says(p, "poolStart"@, n.pool.start.text())
            &&& says(p, "poolEnd"@, n.pool.end.text())
        },
        describes(p, n) ==> has_network_params(p),
{
    law_parameters_are_read(p, "name"@, n.name@, 0);
    law_parameters_are_read(p, "cidr"@, n.cidr@.text(), 0);
    law_parameters_are_read(p, "gateway"@, n.gateway.text(), 0);
    law_parameters_are_read(p, "poolStart"@, n.pool.start.text(), 0);
    law_parameters_are_read(p, "poolEnd"@, n.pool.end.text(), 0);
}

} // verus!
