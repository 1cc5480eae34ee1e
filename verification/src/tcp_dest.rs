//! The TCP (MLLP) destination's decisions: framing the outgoing content and
//! classifying the peer's acknowledgment.  The socket work lives outside
//! this crate; a reply containing `|AA|` or `|CA|` is positive, `|AE|`,
//! `|CE|`, `|AR|` or `|CR|` negative, and a reply that at least carries
//! `MSA|` is taken as positive — anything else is no acknowledgment at all.

use vstd::prelude::*;

use crate::bytesutil::{contains_seq, contains_sub};
use vstd::string::StringSliceAdditionalSpecFns;
use vstd::utf8::encode_utf8;

verus! {

/// How a peer's reply reads.
#[derive(Debug, PartialEq, Eq, Structural)]
pub enum AckVerdict {
    Positive,
    Negative,
    Invalid,
}

/// A reply with a positive commit or accept code.
pub open spec fn has_positive_code(r: Seq<u8>) -> bool {
    contains_seq(r, encode_utf8("|AA|"@)) || contains_seq(r, encode_utf8("|CA|"@))
}

/// A reply with a reject or error code.
pub open spec fn has_negative_code(r: Seq<u8>) -> bool {
    ||| contains_seq(r, encode_utf8("|AE|"@))
    ||| contains_seq(r, encode_utf8("|CE|"@))
    ||| contains_seq(r, encode_utf8("|AR|"@))
    ||| contains_seq(r, encode_utf8("|CR|"@))
}

/// A reply that at least carries an MSA segment.
pub open spec fn has_msa(r: Seq<u8>) -> bool {
    contains_seq(r, encode_utf8("MSA|"@))
}

/// The verdict a reply stands for, positive codes first, then negative,
/// then the bare presence of `MSA|`.
pub open spec fn spec_classify(r: Seq<u8>) -> AckVerdict {
    if has_positive_code(r) {
        AckVerdict::Positive
    } else if has_negative_code(r) {
        AckVerdict::Negative
    } else if has_msa(r) {
        AckVerdict::Positive
    } else {
        AckVerdict::Invalid
    }
}

/// Classifies the bytes a peer answered with.
pub fn classify_ack(response: &[u8]) -> (r: AckVerdict)
    ensures
        r == spec_classify(response@),
{
    if contains_sub(response, "|AA|".as_bytes()) || contains_sub(response, "|CA|".as_bytes()) {
        AckVerdict::Positive
    } else if contains_sub(response, "|AE|".as_bytes()) || contains_sub(
        response,
        "|CE|".as_bytes(),
    ) || contains_sub(response, "|AR|".as_bytes()) || contains_sub(response, "|CR|".as_bytes()) {
        AckVerdict::Negative
    } else if contains_sub(response, "MSA|".as_bytes()) {
        AckVerdict::Positive
    } else {
        AckVerdict::Invalid
    }
}

/// The TCP destination's configuration.
pub struct TcpSender {
    pub host: String,
    pub port: u16,
    pub channel_name: String,
}

impl TcpSender {
    pub fn new(host: String, port: u16, channel_name: String) -> (r: Self)
        ensures
            r.host == host,
            r.port == port,
            r.channel_name == channel_name,
    {
        TcpSender { host, port, channel_name }
    }
}

/// A byte trimmed from a response's edges when unwrapped.
pub open spec fn trim_lead(s: Seq<u8>, b: u8) -> Seq<u8>
    decreases s.len(),
{
    if s.len() > 0 && s[0] == b {
        trim_lead(s.drop_first(), b)
    } else {
        s
    }
}

/// Trailing occurrences of a byte dropped.
pub open spec fn trim_trail(s: Seq<u8>, b: u8) -> Seq<u8>
    decreases s.len(),
{
    if s.len() > 0 && s.last() == b {
        trim_trail(s.drop_last(), b)
    } else {
        s
    }
}

/// A raw MLLP reply unwrapped for display: leading start bytes, then
/// trailing returns, line feeds and end bytes stripped, in that order.
pub open spec fn spec_unwrap_reply(s: Seq<u8>) -> Seq<u8> {
    trim_trail(trim_trail(trim_trail(trim_lead(s, 0x0B), 0x0D), 0x0A), 0x1C)
}

/// Strips a byte from the front.
fn trim_lead_exec(s: &[u8], b: u8) -> (r: Vec<u8>)
    ensures
        r@ == trim_lead(s@, b),
{
    let n = s.len();
    let mut i: usize = 0;
    proof {
        assert(s@.skip(0) =~= s@);
    }
    while i < n && s[i] == b
        invariant
            n == s@.len(),
            i <= n,
            trim_lead(s@, b) == trim_lead(s@.skip(i as int), b),
        decreases n - i,
    {
        proof {
            assert(s@.skip(i as int)[0] == s@[i as int]);
            assert(s@.skip(i as int).drop_first() =~= s@.skip(i + 1));
        }
        i += 1;
    }
    proof {
        if i < n {
            assert(s@.skip(i as int)[0] == s@[i as int]);
            assert(trim_lead(s@.skip(i as int), b) == s@.skip(i as int));
        } else {
            assert(s@.skip(i as int) =~= Seq::<u8>::empty());
        }
    }
    crate::bytesutil::sub_bytes(s, i, n)
}

/// Strips a byte from the back.
fn trim_trail_exec(s: &[u8], b: u8) -> (r: Vec<u8>)
    ensures
        r@ == trim_trail(s@, b),
{
    let n = s.len();
    let mut e: usize = n;
    proof {
        assert(s@.take(n as int) =~= s@);
    }
    while e > 0 && s[e - 1] == b
        invariant
            n == s@.len(),
            e <= n,
            trim_trail(s@, b) == trim_trail(s@.take(e as int), b),
        decreases e,
    {
        proof {
            assert(s@.take(e as int).last() == s@[e - 1]);
            assert(s@.take(e as int).drop_last() =~= s@.take(e - 1));
        }
        e -= 1;
    }
    proof {
        if e > 0 {
            assert(s@.take(e as int).last() == s@[e - 1]);
            assert(trim_trail(s@.take(e as int), b) == s@.take(e as int));
        } else {
            assert(s@.take(0) =~= Seq::<u8>::empty());
        }
    }
    crate::bytesutil::sub_bytes(s, 0, e)
}

/// Unwraps a raw MLLP reply for display.
pub fn unwrap_reply(response: &[u8]) -> (r: Vec<u8>)
    ensures
        r@ == spec_unwrap_reply(response@),
{
    let a = trim_lead_exec(response, 0x0B);
    let b = trim_trail_exec(a.as_slice(), 0x0D);
    let c = trim_trail_exec(b.as_slice(), 0x0A);
    trim_trail_exec(c.as_slice(), 0x1C)
}

} // verus!
