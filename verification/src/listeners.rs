//! The listeners' decisions: which files the file poller takes up, what a
//! polled database row becomes, how an ingress reply maps to a response,
//! which CORS posture a channel runs with, and the origin strings that tag
//! a message with where it came from.  Sockets, servers and timers live
//! outside this crate.

use vstd::prelude::*;

use crate::bytesutil::{ends_with_bytes, push_decimal, dec_text};
use crate::json::{json_text_of, json_to_string, jview, jview_members, JModel, JVal};
use vstd::string::{StrSliceExecFns, StringExecFns, StringSliceAdditionalSpecFns};
use vstd::utf8::encode_utf8;

verus! {

/// TLS material for a listener: certificate and key file paths.
#[derive(Debug, Clone)]
pub struct TlsConfig {
    pub cert_path: String,
    pub key_path: String,
}

impl TlsConfig {
    pub fn new(cert: String, key: String) -> (r: Self)
        ensures
            r.cert_path == cert,
            r.key_path == key,
    {
        TlsConfig { cert_path: cert, key_path: key }
    }
}

/// A name already marked processed.
pub open spec fn marked_processed(name: Seq<char>) -> bool {
    let n = encode_utf8(name);
    let suffix = encode_utf8(".processed"@);
    n.len() >= suffix.len() && n.subrange(n.len() - suffix.len(), n.len() as int) == suffix
}

/// Whether the file poller takes a file up: everything but what it has
/// already renamed.
pub fn should_process_file(name: &str) -> (r: bool)
    ensures
        r == !marked_processed(name@),
{
    !ends_with_bytes(name.as_bytes(), ".processed".as_bytes())
}

/// The CORS posture of a channel's HTTP listener.
#[derive(Debug, PartialEq, Eq, Structural)]
pub enum CorsMode {
    Permissive,
    AllowList,
    Restrictive,
}

/// Development runs permissive; production honors a non-empty allow-list
/// and is restrictive otherwise.
pub fn cors_mode(is_dev: bool, allowed_origins: &Option<Vec<String>>) -> (r: CorsMode)
    ensures
        is_dev ==> r == CorsMode::Permissive,
        !is_dev ==> r == (match allowed_origins {
            Some(os) => if os@.len() > 0 {
                CorsMode::AllowList
            } else {
                CorsMode::Restrictive
            },
            None => CorsMode::Restrictive,
        }),
{
    if is_dev {
        CorsMode::Permissive
    } else {
        match allowed_origins {
            Some(os) => if os.len() > 0 {
                CorsMode::AllowList
            } else {
                CorsMode::Restrictive
            },
            None => CorsMode::Restrictive,
        }
    }
}

/// How waiting for a message's outcome ended, seen from the HTTP ingress.
pub enum IngressWait {
    Succeeded,
    Failed(String),
    ChannelClosed,
    TimedOut,
}

/// The ingress response: success is plain 200; a processor failure carries
/// its text verbatim as 400; a dropped reply handle is an opaque 500; a
/// timeout is 504.
pub fn ingress_reply(outcome: IngressWait) -> (r: (u16, String))
    ensures
        match outcome {
            IngressWait::Succeeded => r.0 == 200 && r.1@ == "Message Processed Successfully"@,
            IngressWait::Failed(e) => r.0 == 400 && r.1 == e,
            IngressWait::ChannelClosed => r.0 == 500 && r.1@ == "Channel Dropped Response"@,
            IngressWait::TimedOut => r.0 == 504 && r.1@ == "Processing Timeout"@,
        },
{
    match outcome {
        IngressWait::Succeeded => (200, String::from_str("Message Processed Successfully")),
        IngressWait::Failed(e) => (400, e),
        IngressWait::ChannelClosed => (500, String::from_str("Channel Dropped Response")),
        IngressWait::TimedOut => (504, String::from_str("Processing Timeout")),
    }
}

/// A polled row's columns as JSON object members, every value a string.
pub open spec fn row_members(cols: Seq<(String, String)>) -> Seq<(Seq<char>, JModel)>
    decreases cols.len(),
{
    if cols.len() == 0 {
        Seq::empty()
    } else {
        row_members(cols.drop_last()).push((cols.last().0@, JModel::Str(cols.last().1@)))
    }
}

/// A polled database row as the flat JSON object the poller enqueues:
/// column name to string value, in column order.
pub fn row_to_payload(cols: Vec<(String, String)>) -> (r: String)
    ensures
        r@ == json_text_of(JModel::Obj(row_members(cols@))),
{
    let n = cols.len();
    let ghost cols0 = cols@;
    let mut members: Vec<(String, JVal)> = Vec::new();
    let mut rest = cols;
    proof {
        assert(jview_members(members@) =~= row_members(cols0.take(0)));
    }
    let mut k: usize = 0;
    while k < n
        invariant
            n == cols0.len(),
            k <= n,
            rest@ == cols0.skip(k as int),
            jview_members(members@) == row_members(cols0.take(k as int)),
        decreases n - k,
    {
        proof {
            assert(cols0.skip(k as int)[0] == cols0[k as int]);
            assert(cols0.skip(k as int).drop_first() =~= cols0.skip(k + 1));
        }
        let (name, value) = rest.remove(0);
        proof {
            assert(rest@ =~= cols0.skip(k + 1));
        }
        let ghost m0 = members@;
        proof {
            assert((name, value) == cols0[k as int]);
        }
        members.push((name, JVal::Str(value)));
        proof {
            assert(members@.drop_last() =~= m0);
            assert(members@.last().0 == cols0[k as int].0);
            assert(members@.last().1 == JVal::Str(cols0[k as int].1));
            assert(jview(members@.last().1) == JModel::Str(cols0[k as int].1@));
            assert(cols0.take(k + 1).drop_last() =~= cols0.take(k as int));
            assert(cols0.take(k + 1).last() == cols0[k as int]);
        }
        k += 1;
    }
    proof {
        assert(cols0.take(n as int) =~= cols0);
    }
    json_to_string(JVal::Obj(members))
}

/// The origin tag of a TCP-received message: `TCP :<port> from <peer>`.
pub fn origin_for_tcp(port: u16, peer: &str) -> (r: String)
    ensures
        r@ == "TCP :"@ + dec_text(port as u64) + " from "@ + peer@,
{
    let mut r = String::from_str("TCP :");
    push_decimal(port as u64, &mut r);
    r.append(" from ");
    r.append(peer);
    assert(r@ =~= "TCP :"@ + dec_text(port as u64) + " from "@ + peer@);
    r
}

/// The origin tag of an HTTP-received message:
/// `HTTP :<port><path> from <ip>`.
pub fn origin_for_http(port: u16, path: &str, ip: &str) -> (r: String)
    ensures
        r@ == "HTTP :"@ + dec_text(port as u64) + path@ + " from "@ + ip@,
{
    let mut r = String::from_str("HTTP :");
    push_decimal(port as u64, &mut r);
    r.append(path);
    r.append(" from ");
    r.append(ip);
    assert(r@ =~= "HTTP :"@ + dec_text(port as u64) + path@ + " from "@ + ip@);
    r
}

/// The origin tag of a file-read message: `File: <name>`.
pub fn origin_for_file(name: &str) -> (r: String)
    ensures
        r@ == "File: "@ + name@,
{
    let mut r = String::from_str("File: ");
    r.append(name);
    assert(r@ =~= "File: "@ + name@);
    r
}

} // verus!
