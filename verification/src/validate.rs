//! Ingress validation for the manual-test endpoint, and the API-key policy:
//! plain decisions, each with an exact contract.  Reading the environment
//! and answering HTTP requests happen outside this crate.

use vstd::prelude::*;

use crate::bytesutil::{lower_byte, slice_eq, str_chars, to_lower_bytes};
use vstd::string::{StrSliceExecFns, StringExecFns, StringSliceAdditionalSpecFns};
use vstd::utf8::encode_utf8;

verus! {

/// The largest payload the test endpoint takes, in bytes.
pub const MAX_PAYLOAD_SIZE: usize = 1048576;

/// The bytes of a text with every ASCII capital made small.
pub open spec fn lower_bytes_of(s: Seq<char>) -> Seq<u8> {
    encode_utf8(s).map_values(|b: u8| lower_byte(b))
}

/// A payload type the test endpoint accepts, compared without ASCII case.
pub open spec fn allowed_payload_type(t: Seq<char>) -> bool {
    ||| lower_bytes_of(t) == encode_utf8("hl7"@)
    ||| lower_bytes_of(t) == encode_utf8("fhir"@)
    ||| lower_bytes_of(t) == encode_utf8("json"@)
    ||| lower_bytes_of(t) == encode_utf8("xml"@)
    ||| lower_bytes_of(t) == encode_utf8("text"@)
    ||| lower_bytes_of(t) == encode_utf8("raw"@)
}

/// A whitespace character, as trimming sees it: the Unicode white-space
/// set.
pub open spec fn is_space_char(c: char) -> bool {
    ||| (0x9 <= (c as u32) && (c as u32) <= 0xD)
    ||| (c as u32) == 0x20
    ||| (c as u32) == 0x85
    ||| (c as u32) == 0xA0
    ||| (c as u32) == 0x1680
    ||| (0x2000 <= (c as u32) && (c as u32) <= 0x200A)
    ||| (c as u32) == 0x2028
    ||| (c as u32) == 0x2029
    ||| (c as u32) == 0x202F
    ||| (c as u32) == 0x205F
    ||| (c as u32) == 0x3000
}

/// A payload of nothing but whitespace (or nothing at all) — what is empty
/// once trimmed.
pub open spec fn blank_text(p: Seq<char>) -> bool {
    forall|i: int| 0 <= i < p.len() ==> is_space_char(#[trigger] p[i])
}

/// A manual test message for a channel.
pub struct TestMessageRequest {
    pub payload_type: String,
    pub payload: String,
}

/// A raw probe of a remote MLLP listener.
pub struct TestTcpRequest {
    pub host: String,
    pub port: u16,
    pub payload: String,
    pub timeout_seconds: Option<u64>,
}

impl TestMessageRequest {
    /// Accepts exactly a known payload type with a payload that fits the
    /// size bound and is not blank.
    pub fn validate(&self) -> (r: Result<(), String>)
        ensures
            r is Ok <==> (allowed_payload_type(self.payload_type@) && encode_utf8(
                self.payload@,
            ).len() <= MAX_PAYLOAD_SIZE && !blank_text(self.payload@)),
    {
        let lower = to_lower_bytes(self.payload_type.as_str().as_bytes());
        proof {
            assert(lower@ =~= lower_bytes_of(self.payload_type@));
        }
        let ok_type = slice_eq(lower.as_slice(), "hl7".as_bytes()) || slice_eq(
            lower.as_slice(),
            "fhir".as_bytes(),
        ) || slice_eq(lower.as_slice(), "json".as_bytes()) || slice_eq(
            lower.as_slice(),
            "xml".as_bytes(),
        ) || slice_eq(lower.as_slice(), "text".as_bytes()) || slice_eq(
            lower.as_slice(),
            "raw".as_bytes(),
        );
        if !ok_type {
            return Err(String::from_str("Invalid payload_type"));
        }
        let bytes = self.payload.as_str().as_bytes();
        if bytes.len() > MAX_PAYLOAD_SIZE {
            return Err(String::from_str("Payload too large"));
        }
        let cs = str_chars(self.payload.as_str());
        let n = cs.len();
        let mut i: usize = 0;
        while i < n
            invariant
                n == self.payload@.len(),
                cs@ == self.payload@,
                i <= n,
                allowed_payload_type(self.payload_type@),
                encode_utf8(self.payload@).len() <= MAX_PAYLOAD_SIZE,
                forall|j: int| 0 <= j < i ==> is_space_char(#[trigger] self.payload@[j]),
            decreases n - i,
        {
            let c = cs[i];
            let u = c as u32;
            let space = (9 <= u && u <= 13) || u == 0x20 || u == 0x85 || u == 0xA0 || u == 0x1680
                || (0x2000 <= u && u <= 0x200A) || u == 0x2028 || u == 0x2029 || u == 0x202F || u
                == 0x205F || u == 0x3000;
            if !space {
                return Ok(());
            }
            i += 1;
        }
        Err(String::from_str("Payload cannot be empty"))
    }
}

/// The message-listing query: an optional channel, an optional status, a
/// bounded count.
pub struct ListMessagesQuery {
    pub channel_id: Option<String>,
    pub status: Option<String>,
    pub limit: Option<i32>,
}

impl ListMessagesQuery {
    /// The row bound the store is asked for: the given limit, or a hundred.
    pub fn effective_limit(&self) -> (r: i32)
        ensures
            r == match self.limit {
                Some(l) => l,
                None => 100i32,
            },
    {
        match self.limit {
            Some(l) => l,
            None => 100,
        }
    }
}

/// The development fallback key.
pub open spec fn dev_api_key() -> Seq<char> {
    "dev-key-change-in-production-32chars"@
}

/// The key the engine runs with, given the environment's value: a set key
/// is taken (short ones only warned about); an unset or empty key is fatal
/// in production and falls back to the development key otherwise.
pub fn api_key_policy(env_key: Option<String>, is_production: bool) -> (r: Result<String, String>)
    ensures
        match env_key {
            Some(k) => if k@.len() > 0 {
                r matches Ok(key) && key == k
            } else {
                if is_production {
                    r is Err
                } else {
                    r matches Ok(key) && key@ == dev_api_key()
                }
            },
            None => if is_production {
                r is Err
            } else {
                r matches Ok(key) && key@ == dev_api_key()
            },
        },
{
    match env_key {
        Some(k) => {
            if k.as_str().unicode_len() > 0 {
                Ok(k)
            } else if is_production {
                Err(String::from_str("API_KEY must be set in production"))
            } else {
                Ok(String::from_str("dev-key-change-in-production-32chars"))
            }
        },
        None => {
            if is_production {
                Err(String::from_str("API_KEY must be set in production"))
            } else {
                Ok(String::from_str("dev-key-change-in-production-32chars"))
            }
        },
    }
}

/// A key long enough not to warrant a warning.
pub fn api_key_is_strong(key: &str) -> (r: bool)
    ensures
        r == (encode_utf8(key@).len() >= 32),
{
    key.as_bytes().len() >= 32
}

} // verus!
