//! The recognised configuration options, and the parsers for the two
//! comma-separated whitelist options. Command-line handling itself lives
//! outside the library; this struct carries plain values.

use vstd::prelude::*;
use vstd::string::StrSliceExecFns;

use crate::cidr::Ipv4Net;
use crate::cidr::cidr_of;
use crate::strutil::csv_fields;
use crate::strutil::split_trim_csv;

verus! {

/// The networks denoted by a sequence of whitelist fields: each field that
/// parses as a CIDR contributes one network, the rest are dropped.
pub open spec fn networks_of(fields: Seq<Seq<char>>) -> Seq<Ipv4Net>
    decreases fields.len(),
{
    if fields.len() == 0 {
        Seq::empty()
    } else {
        networks_of(fields.drop_last()) + (match cidr_of(fields.last()) {
            Some((a, p)) => seq![Ipv4Net { addr: a, prefix: p }],
            None => Seq::empty(),
        })
    }
}

/// The fingerprint whitelist denoted by the configured string: empty when
/// the string is empty, else its comma-separated fields, trimmed.
pub open spec fn ja3_list(s: Seq<char>) -> Seq<Seq<char>> {
    if s.len() == 0 {
        Seq::empty()
    } else {
        csv_fields(s)
    }
}

#[derive(Clone, Debug)]
pub struct AppArgs {
    /// Live capture device, mutually exclusive with `file`.
    pub interface: Option<String>,
    /// Capture file to replay.
    pub file: Option<String>,
    /// Strict violation threshold per key per window.
    pub threshold: u16,
    /// Sliding window width in seconds.
    pub window: u64,
    /// Enforcement endpoint for alert payloads.
    pub alert_url: String,
    /// Suppress network emission while keeping all local state updates.
    pub dry_run: bool,
    /// Requested block duration carried in each alert payload.
    pub block_seconds: u32,
    /// Comma-separated whitelisted networks in CIDR notation.
    pub whitelist_networks: String,
    /// Comma-separated whitelisted fingerprints.
    pub whitelist_ja3s: String,
    /// Diagnostic: log each newly created bucket.
    pub log_create_buckets: Option<bool>,
    /// Include the source address in each key.
    pub agg_ip: bool,
}

/// Every field names a network.
pub open spec fn all_fields_parse(fields: Seq<Seq<char>>) -> bool {
    forall|i: int| 0 <= i < fields.len() ==> cidr_of(#[trigger] fields[i]) is Some
}

impl AppArgs {
    /// Parse the configured CIDR list. An entry that is not a valid IPv4
    /// CIDR is a configuration error: the first offending field comes
    /// back as the error, for the caller to surface at startup.
    pub fn parse_whitelist_networks(&self) -> (r: Result<Vec<Ipv4Net>, String>)
        ensures
            ({
                let fields = csv_fields(self.whitelist_networks@);
                match r {
                    Ok(nets) => {
                        &&& all_fields_parse(fields)
                        &&& nets@ == networks_of(fields)
                        &&& forall|i: int| 0 <= i < nets@.len() ==> (#[trigger] nets@[i]).wf()
                    },
                    Err(bad) => exists|i: int|
                        {
                            &&& 0 <= i < fields.len()
                            &&& cidr_of(#[trigger] fields[i]) is None
                            &&& bad@ == fields[i]
                            &&& forall|j: int| 0 <= j < i ==> cidr_of(#[trigger] fields[j]) is Some
                        },
                }
            }),
    {
        let fields = split_trim_csv(self.whitelist_networks.as_str());
        let mut out: Vec<Ipv4Net> = Vec::new();
        let ghost all = csv_fields(self.whitelist_networks@);
        let n = fields.len();
        for i in 0..n
            invariant
                n == fields@.len(),
                all == csv_fields(self.whitelist_networks@),
                fields@.map_values(|x: String| x@) == all,
                out@ =~= networks_of(all.subrange(0, i as int)),
                forall|j: int| 0 <= j < out@.len() ==> (#[trigger] out@[j]).wf(),
                forall|j: int| 0 <= j < i ==> cidr_of(#[trigger] all[j]) is Some,
        {
            proof {
                assert(fields@.map_values(|x: String| x@)[i as int] == fields@[i as int]@);
                assert(all.subrange(0, i + 1).drop_last() =~= all.subrange(0, i as int));
                assert(all.subrange(0, i + 1).last() == all[i as int]);
            }
            match crate::cidr::parse_network(fields[i].as_str()) {
                Some(net) => {
                    out.push(net);
                },
                None => {
                    let bad = fields[i].clone();
                    proof {
                        let wi = i as int;
                        assert(0 <= wi < csv_fields(self.whitelist_networks@).len());
                        assert(cidr_of(csv_fields(self.whitelist_networks@)[wi]) is None);
                        assert(bad@ == csv_fields(self.whitelist_networks@)[wi]);
                        assert(forall|j: int|
                            0 <= j < wi ==> cidr_of(
                                #[trigger] csv_fields(self.whitelist_networks@)[j],
                            ) is Some);
                    }
                    return Err(bad);
                },
            }
        }
        proof {
            assert(all.subrange(0, all.len() as int) =~= all);
        }
        Ok(out)
    }

    /// Parse the configured fingerprint list; an empty option yields an
    /// empty list rather than one empty entry.
    pub fn parse_whitelist_ja3(&self) -> (r: Vec<String>)
        ensures
            r@.map_values(|x: String| x@) == ja3_list(self.whitelist_ja3s@),
    {
        if self.whitelist_ja3s.as_str().unicode_len() == 0 {
            let r: Vec<String> = Vec::new();
            proof {
                assert(r@.map_values(|x: String| x@) =~= ja3_list(self.whitelist_ja3s@));
            }
            r
        } else {
            split_trim_csv(self.whitelist_ja3s.as_str())
        }
    }
}

} // verus!
