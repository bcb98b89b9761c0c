//! Rendering a fingerprint digest as lowercase hex and building the
//! composite bucket key from digest and source address.

use vstd::prelude::*;
use vstd::string::StrSliceExecFns;
use vstd::string::StringExecFns;

verus! {

/// The lowercase hex character of a nibble.
pub open spec fn hex_digit(n: int) -> char
    recommends
        0 <= n < 16,
{
    if n == 0 {
        '0'
    } else if n == 1 {
        '1'
    } else if n == 2 {
        '2'
    } else if n == 3 {
        '3'
    } else if n == 4 {
        '4'
    } else if n == 5 {
        '5'
    } else if n == 6 {
        '6'
    } else if n == 7 {
        '7'
    } else if n == 8 {
        '8'
    } else if n == 9 {
        '9'
    } else if n == 10 {
        'a'
    } else if n == 11 {
        'b'
    } else if n == 12 {
        'c'
    } else if n == 13 {
        'd'
    } else if n == 14 {
        'e'
    } else {
        'f'
    }
}

/// Lowercase hex rendering of a byte string, two digits per byte.
pub open spec fn hex_str(bytes: Seq<u8>) -> Seq<char>
    decreases bytes.len(),
{
    if bytes.len() == 0 {
        Seq::empty()
    } else {
        hex_str(bytes.drop_last()) + seq![
            hex_digit(bytes.last() as int / 16),
            hex_digit(bytes.last() as int % 16),
        ]
    }
}

fn hex_char(n: u8) -> (r: &'static str)
    requires
        n < 16,
    ensures
        r@ == seq![hex_digit(n as int)],
{
    proof {
        reveal_strlit("0");
        reveal_strlit("1");
        reveal_strlit("2");
        reveal_strlit("3");
        reveal_strlit("4");
        reveal_strlit("5");
        reveal_strlit("6");
        reveal_strlit("7");
        reveal_strlit("8");
        reveal_strlit("9");
        reveal_strlit("a");
        reveal_strlit("b");
        reveal_strlit("c");
        reveal_strlit("d");
        reveal_strlit("e");
        reveal_strlit("f");
    }
    let r = match n {
        0 => "0",
        1 => "1",
        2 => "2",
        3 => "3",
        4 => "4",
        5 => "5",
        6 => "6",
        7 => "7",
        8 => "8",
        9 => "9",
        10 => "a",
        11 => "b",
        12 => "c",
        13 => "d",
        14 => "e",
        _ => "f",
    };
    proof {
        assert(r@ =~= seq![hex_digit(n as int)]);
    }
    r
}

/// Render a digest as lowercase hex.
pub fn digest_to_string(digest: &Vec<u8>) -> (r: String)
    ensures
        r@ == hex_str(digest@),
{
    let mut out = String::new();
    let n = digest.len();
    for i in 0..n
        invariant
            n == digest@.len(),
            out@ == hex_str(digest@.subrange(0, i as int)),
    {
        let b = digest[i];
        out.append(hex_char(b / 16));
        out.append(hex_char(b % 16));
        proof {
            assert(digest@.subrange(0, i + 1).drop_last() =~= digest@.subrange(0, i as int));
            assert(digest@.subrange(0, i + 1).last() == digest@[i as int]);
        }
    }
    proof {
        assert(digest@.subrange(0, n as int) =~= digest@);
    }
    out
}

/// The composite key for a packet: the digest in hex (or the literal
/// `None` when the handshake carried none), with the source address
/// appended after a dash when aggregation by address is on.
pub open spec fn key_spec(hash: Option<Seq<u8>>, source: Seq<char>, agg_ip: bool) -> Seq<char> {
    let base = match hash {
        Some(h) => hex_str(h),
        None => "None"@,
    };
    if agg_ip {
        base + seq!['-'] + source
    } else {
        base
    }
}

/// Build the composite key for one packet.
pub fn generate_key(hash: &Option<Vec<u8>>, source: &str, agg_ip: bool) -> (r: String)
    ensures
        r@ == key_spec(hash.deep_view(), source@, agg_ip),
{
    let mut out: String = match hash {
        Some(h) => {
            let s = digest_to_string(h);
            proof {
                assert(h.deep_view() =~= h@);
            }
            s
        },
        None => {
            let s = String::from_str("None");
            s
        },
    };
    if agg_ip {
        out.append("-");
        out.append(source);
        proof {
            reveal_strlit("-");
            assert("-"@ =~= seq!['-']);
        }
    }
    out
}

} // verus!
