//! IPv4 addresses and CIDR networks as plain values: an address is its
//! 32-bit value, a network is a (masked) address plus a prefix length.
//! Parsing a configured CIDR entry goes through the `ipnetwork` crate;
//! parsing a packet's source address and testing membership are verified
//! here.

use vstd::prelude::*;
use vstd::string::StrSliceExecFns;

use crate::strutil::split_on;

verus! {

/// An IPv4 network: the network address and the prefix length in bits.
#[derive(Clone, Copy, Debug)]
pub struct Ipv4Net {
    pub addr: u32,
    pub prefix: u8,
}

/// Membership of address `ip` in `net`: the top `net.prefix` bits agree.
pub open spec fn net_contains(net: Ipv4Net, ip: u32) -> bool
    recommends
        net.prefix <= 32,
{
    if net.prefix == 0 {
        true
    } else {
        (ip >> (32 - net.prefix) as u32) == (net.addr >> (32 - net.prefix) as u32)
    }
}

impl Ipv4Net {
    pub open spec fn wf(&self) -> bool {
        self.prefix <= 32
    }

    /// Whether `ip` lies in this network.
    pub fn contains(&self, ip: u32) -> (r: bool)
        requires
            self.wf(),
        ensures
            r == net_contains(*self, ip),
    {
        if self.prefix == 0 {
            true
        } else {
            let shift: u32 = 32 - self.prefix as u32;
            (ip >> shift) == (self.addr >> shift)
        }
    }
}

/// ASCII decimal digit.
pub open spec fn is_digit(c: char) -> bool {
    '0' <= c && c <= '9'
}

pub open spec fn digit_val(c: char) -> int {
    c as int - '0' as int
}

/// Decimal value of a digit string, most significant first.
pub open spec fn decimal_val(s: Seq<char>) -> int
    decreases s.len(),
{
    if s.len() == 0 {
        0
    } else {
        decimal_val(s.drop_last()) * 10 + digit_val(s.last())
    }
}

/// A well-formed IPv4 octet: one to three digits, at most 255, and no
/// leading zero (so `0` is fine but `01` is not).
pub open spec fn octet_str(s: Seq<char>) -> bool {
    &&& 1 <= s.len() <= 3
    &&& (forall|i: int| 0 <= i < s.len() ==> is_digit(#[trigger] s[i]))
    &&& decimal_val(s) <= 255
    &&& (s.len() > 1 ==> s[0] != '0')
}

/// The address denoted by a dotted-quad string: exactly four well-formed
/// octets separated by `.`, combined most significant first. `None` on any
/// malformed input.
pub open spec fn ipv4_spec(s: Seq<char>) -> Option<u32> {
    let parts = split_on(s, '.');
    if parts.len() == 4 && (forall|i: int| 0 <= i < 4 ==> octet_str(#[trigger] parts[i])) {
        Some(
            (decimal_val(parts[0]) * 0x1000000 + decimal_val(parts[1]) * 0x10000 + decimal_val(
                parts[2],
            ) * 0x100 + decimal_val(parts[3])) as u32,
        )
    } else {
        None
    }
}

/// Parse one octet; `None` exactly when the digits are not a well-formed
/// octet.
fn parse_octet(p: &str) -> (r: Option<u32>)
    ensures
        match r {
            Some(v) => octet_str(p@) && v == decimal_val(p@),
            None => !octet_str(p@),
        },
{
    let n = p.unicode_len();
    if n == 0 || n > 3 {
        return None;
    }
    if n > 1 && p.get_char(0) == '0' {
        return None;
    }
    let mut val: u32 = 0;
    for i in 0..n
        invariant
            n == p@.len(),
            n <= 3,
            forall|j: int| 0 <= j < i ==> is_digit(#[trigger] p@[j]),
            val == decimal_val(p@.subrange(0, i as int)),
            i == 0 ==> val == 0,
            i == 1 ==> val <= 9,
            i == 2 ==> val <= 99,
            i == 3 ==> val <= 999,
    {
        let c = p.get_char(i);
        if c < '0' || c > '9' {
            return None;
        }
        proof {
            assert(p@.subrange(0, i + 1).drop_last() =~= p@.subrange(0, i as int));
            assert(p@.subrange(0, i + 1).last() == p@[i as int]);
        }
        let d = c as u32 - '0' as u32;
        val = val * 10 + d;
    }
    proof {
        assert(p@.subrange(0, n as int) =~= p@);
    }
    if val > 255 {
        return None;
    }
    Some(val)
}

/// Parse a dotted-quad IPv4 address; `None` exactly on inputs outside the
/// grammar of [`ipv4_spec`].
pub fn parse_ipv4(s: &str) -> (r: Option<u32>)
    ensures
        r == ipv4_spec(s@),
{
    let parts = crate::strutil::split_str(s, '.');
    if parts.len() != 4 {
        return None;
    }
    let v0 = match parse_octet(parts[0].as_str()) {
        Some(v) => v,
        None => {
            return None;
        },
    };
    let v1 = match parse_octet(parts[1].as_str()) {
        Some(v) => v,
        None => {
            return None;
        },
    };
    let v2 = match parse_octet(parts[2].as_str()) {
        Some(v) => v,
        None => {
            return None;
        },
    };
    let v3 = match parse_octet(parts[3].as_str()) {
        Some(v) => v,
        None => {
            return None;
        },
    };
    Some(v0 * 0x1000000 + v1 * 0x10000 + v2 * 0x100 + v3)
}

/// What `ipnetwork` makes of one whitelist entry: the masked network
/// address and prefix, or nothing when the entry does not parse.
pub uninterp spec fn cidr_of(s: Seq<char>) -> Option<(u32, u8)>;

/// Relies on `ipnetwork::Ipv4Network`'s `FromStr` impl (and on
/// `Ipv4Network::network` / `prefix`): it parses `a.b.c.d`,
/// `a.b.c.d/prefix` or `a.b.c.d/netmask`, rejects prefixes above 32, and
/// `network()` returns the masked address.
#[verifier::external_body]
fn parse_cidr_raw(s: &str) -> (r: Option<(u32, u8)>)
    ensures
        r == cidr_of(s@),
        r matches Some(p) ==> p.1 <= 32,
{
    match s.parse::<ipnetwork::Ipv4Network>() {
        Ok(n) => Some((u32::from(n.network()), n.prefix())),
        Err(_) => None,
    }
}

/// Parse one configured whitelist entry into a network.
pub fn parse_network(s: &str) -> (r: Option<Ipv4Net>)
    ensures
        match r {
            Some(net) => cidr_of(s@) == Some((net.addr, net.prefix)) && net.wf(),
            None => cidr_of(s@) is None,
        },
{
    match parse_cidr_raw(s) {
        Some((addr, prefix)) => Some(Ipv4Net { addr, prefix }),
        None => None,
    }
}

} // verus!
