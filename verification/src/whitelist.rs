//! The immutable whitelist: a list of IPv4 networks and a set of
//! fingerprint strings. A source address or fingerprint that matches is
//! skipped by the pipeline before any counting happens.

use vstd::prelude::*;

use crate::cidr::Ipv4Net;
use crate::cidr::ipv4_spec;
use crate::cidr::net_contains;
use crate::cidr::parse_ipv4;
use crate::strutil::contains_str;
use crate::strutil::vec_contains_str;

verus! {

/// Whether the address written in `ip` falls in one of `nets`; a string
/// that is not a well-formed IPv4 address matches nothing.
pub open spec fn ip_whitelisted(nets: Seq<Ipv4Net>, ip: Seq<char>) -> bool {
    match ipv4_spec(ip) {
        Some(a) => exists|i: int| 0 <= i < nets.len() && net_contains(#[trigger] nets[i], a),
        None => false,
    }
}

#[derive(Clone)]
pub struct Whitelist {
    pub networks: Vec<Ipv4Net>,
    pub ja3s: Vec<String>,
}

impl Whitelist {
    pub open spec fn wf(&self) -> bool {
        forall|i: int| 0 <= i < self.networks@.len() ==> (#[trigger] self.networks@[i]).wf()
    }

    pub fn new(networks: Vec<Ipv4Net>, ja3s: Vec<String>) -> (r: Whitelist)
        requires
            forall|i: int| 0 <= i < networks@.len() ==> (#[trigger] networks@[i]).wf(),
        ensures
            r.networks == networks,
            r.ja3s == ja3s,
            r.wf(),
    {
        Whitelist { networks, ja3s }
    }

    /// Parse `ip` as an IPv4 address and test it against every configured
    /// network; a parse failure is never whitelisted.
    pub fn is_ip_whitelisted(&self, ip: &str) -> (r: bool)
        requires
            self.wf(),
        ensures
            r == ip_whitelisted(self.networks@, ip@),
    {
        let addr = match parse_ipv4(ip) {
            Some(a) => a,
            None => {
                return false;
            },
        };
        for i in 0..self.networks.len()
            invariant
                self.wf(),
                ipv4_spec(ip@) == Some(addr),
                forall|j: int| 0 <= j < i ==> !net_contains(#[trigger] self.networks@[j], addr),
        {
            if self.networks[i].contains(addr) {
                return true;
            }
        }
        false
    }

    /// Exact membership in the configured fingerprint set; an empty set
    /// whitelists nothing.
    pub fn is_ja3_whitelisted(&self, ja3: &str) -> (r: bool)
        ensures
            r == contains_str(self.ja3s@, ja3@),
    {
        if self.ja3s.len() == 0 {
            return false;
        }
        vec_contains_str(&self.ja3s, ja3)
    }
}

} // verus!
