//! Message status lifecycle: `PENDING → PROCESSING → (SENT | FILTERED |
//! ERROR)`, with `ERROR → PROCESSING` on retry.  `SENT` and `FILTERED` are
//! terminal.  The store is reached over events (a status write, a retry
//! increment); the model here proves that no event sequence ever lowers a
//! record's retry count.

use vstd::prelude::*;

use crate::bytesutil::str_eq;
use vstd::string::StringExecFns;

verus! {

#[derive(Debug, Clone, Copy, PartialEq, Eq, Structural)]
pub enum MessageStatus {
    PENDING,
    PROCESSING,
    SENT,
    FILTERED,
    ERROR,
}

/// The status a text denotes; unknown texts are read as `ERROR`.
pub open spec fn status_of_text(s: Seq<char>) -> MessageStatus {
    if s == "PENDING"@ {
        MessageStatus::PENDING
    } else if s == "PROCESSING"@ {
        MessageStatus::PROCESSING
    } else if s == "SENT"@ {
        MessageStatus::SENT
    } else if s == "FILTERED"@ {
        MessageStatus::FILTERED
    } else {
        MessageStatus::ERROR
    }
}

/// The text a status is persisted under.
pub open spec fn text_of_status(st: MessageStatus) -> Seq<char> {
    match st {
        MessageStatus::PENDING => "PENDING"@,
        MessageStatus::PROCESSING => "PROCESSING"@,
        MessageStatus::SENT => "SENT"@,
        MessageStatus::FILTERED => "FILTERED"@,
        MessageStatus::ERROR => "ERROR"@,
    }
}

impl MessageStatus {
    /// A terminal status is never left: a sent or filtered message is done.
    pub open spec fn is_terminal(self) -> bool {
        self is SENT || self is FILTERED
    }

    /// The persisted text of this status.
    pub fn to_string(&self) -> (r: String)
        ensures
            r@ == text_of_status(*self),
    {
        match self {
            MessageStatus::PENDING => String::from_str("PENDING"),
            MessageStatus::PROCESSING => String::from_str("PROCESSING"),
            MessageStatus::SENT => String::from_str("SENT"),
            MessageStatus::FILTERED => String::from_str("FILTERED"),
            MessageStatus::ERROR => String::from_str("ERROR"),
        }
    }
}

impl From<String> for MessageStatus {
    /// Reads a persisted status text; anything unknown is `ERROR`.
    fn from(s: String) -> (r: MessageStatus) {
        if str_eq(s.as_str(), "PENDING") {
            MessageStatus::PENDING
        } else if str_eq(s.as_str(), "PROCESSING") {
            MessageStatus::PROCESSING
        } else if str_eq(s.as_str(), "SENT") {
            MessageStatus::SENT
        } else if str_eq(s.as_str(), "FILTERED") {
            MessageStatus::FILTERED
        } else {
            MessageStatus::ERROR
        }
    }
}

impl vstd::std_specs::convert::FromSpecImpl<String> for MessageStatus {
    open spec fn obeys_from_spec() -> bool {
        true
    }

    open spec fn from_spec(s: String) -> MessageStatus {
        status_of_text(s@)
    }
}

/// One persisted message, as the store keeps it.  Ids are the 128-bit
/// values; timestamps are UTC milliseconds.
#[derive(Debug, Clone)]
pub struct MessageRecord {
    pub id: u128,
    pub channel_id: u128,
    pub content: String,
    pub status: MessageStatus,
    pub error_message: Option<String>,
    pub retry_count: i32,
    pub created_at_ms: i64,
    pub updated_at_ms: i64,
}

/// One write the engine makes against a message record.
pub enum StoreEvent {
    SetStatus(MessageStatus, Option<String>),
    IncrementRetry,
}

/// A status write keeps identity, content and retry count; a retry
/// increment raises the count by one (saturating at the integer bound) and
/// touches nothing else.
pub open spec fn apply_event(r: MessageRecord, e: StoreEvent, now_ms: i64) -> MessageRecord {
    match e {
        StoreEvent::SetStatus(st, err) => MessageRecord {
            status: st,
            error_message: if err is Some {
                err
            } else {
                r.error_message
            },
            updated_at_ms: now_ms,
            ..r
        },
        StoreEvent::IncrementRetry => MessageRecord {
            retry_count: if r.retry_count < i32::MAX {
                (r.retry_count + 1) as i32
            } else {
                r.retry_count
            },
            ..r
        },
    }
}

/// A record after a whole sequence of writes, applied in order.
pub open spec fn apply_events(r: MessageRecord, es: Seq<(StoreEvent, i64)>) -> MessageRecord
    decreases es.len(),
{
    if es.len() == 0 {
        r
    } else {
        apply_events(apply_event(r, es[0].0, es[0].1), es.drop_first())
    }
}

/// No single write lowers the retry count.
pub proof fn lemma_event_retry_monotonic(r: MessageRecord, e: StoreEvent, now_ms: i64)
    ensures
        apply_event(r, e, now_ms).retry_count >= r.retry_count,
{
}

/// For any message record, the retry count is monotonically non-decreasing
/// under every sequence of store writes the engine can make.
pub proof fn lemma_retry_monotonic(r: MessageRecord, es: Seq<(StoreEvent, i64)>)
    ensures
        apply_events(r, es).retry_count >= r.retry_count,
    decreases es.len(),
{
    if es.len() == 0 {
    } else {
        lemma_event_retry_monotonic(r, es[0].0, es[0].1);
        lemma_retry_monotonic(apply_event(r, es[0].0, es[0].1), es.drop_first());
    }
}

/// A write never changes which message a record is about.
pub proof fn lemma_event_keeps_identity(r: MessageRecord, e: StoreEvent, now_ms: i64)
    ensures
        apply_event(r, e, now_ms).id == r.id,
        apply_event(r, e, now_ms).channel_id == r.channel_id,
        apply_event(r, e, now_ms).content == r.content,
{
}

} // verus!
