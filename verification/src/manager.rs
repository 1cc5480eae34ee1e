//! The channel manager's decisions: whether an injection finds its channel,
//! what a retry does to the store and the queue, which recovered messages
//! go back to their channels, and when a failed message is due again.  The
//! registries, the dedup table and the pipeline plans carry the rest; the
//! spawning, aborting and store calls happen outside this crate.

use vstd::prelude::*;

use crate::clock::now_millis;
use crate::message::Message;
use crate::registry::ChannelRegistry;
use crate::status::{MessageRecord, MessageStatus, StoreEvent};
use vstd::arithmetic::power2::{
    lemma2_to64,
    lemma2_to64_rest,
    lemma_pow2_strictly_increases,
    lemma_pow2_unfold,
    pow2,
};
use vstd::string::{StrSliceExecFns, StringExecFns};

verus! {

/// The exponent a retry count backs off with, clamped to keep the delay
/// finite and the arithmetic sound: never below zero, never above forty
/// (two to the fortieth minutes is past any horizon).
pub open spec fn backoff_exp(retry_count: i32) -> nat {
    if retry_count < 0 {
        0
    } else if retry_count > 40 {
        40
    } else {
        retry_count as nat
    }
}

/// Powers of two stay below two to the forty within the clamp.
proof fn lemma_pow2_bound(e: nat)
    requires
        e <= 40,
    ensures
        pow2(e) <= 0x10000000000,
{
    lemma2_to64();
    lemma2_to64_rest();
    if e < 40 {
        lemma_pow2_strictly_increases(e, 40);
    }
}

/// Two to the clamped exponent, executably.
fn pow2_u64(e: u32) -> (r: u64)
    requires
        e <= 40,
    ensures
        r == pow2(e as nat),
{
    proof {
        lemma2_to64();
    }
    let mut r: u64 = 1;
    let mut i: u32 = 0;
    while i < e
        invariant
            i <= e <= 40,
            r == pow2(i as nat),
            r <= 0x10000000000,
        decreases e - i,
    {
        proof {
            lemma_pow2_unfold((i + 1) as nat);
            lemma_pow2_bound((i + 1) as nat);
        }
        r = r * 2;
        i += 1;
    }
    r
}

/// Whether a failed message is due for another attempt: its last update
/// plus two-to-the-retry-count minutes (clamped) has passed.
pub fn retry_due(retry_count: i32, updated_at_ms: i64, now_ms: i64) -> (r: bool)
    ensures
        r == (now_ms as int >= updated_at_ms as int + pow2(backoff_exp(retry_count)) * 60000),
{
    let e: u32 = if retry_count < 0 {
        0
    } else if retry_count > 40 {
        40
    } else {
        retry_count as u32
    };
    let backoff_ms: i128 = (pow2_u64(e) as i128) * 60000;
    proof {
        lemma_pow2_bound(e as nat);
    }
    let next: i128 = (updated_at_ms as i128) + backoff_ms;
    (now_ms as i128) >= next
}

/// What a retry request decides.
pub enum RetryDecision {
    NotFound,
    Planned { events: Vec<StoreEvent>, enqueue: Option<Message> },
}

/// The text of the `RECOVERY` origin.
pub fn recovery_origin() -> (r: String)
    ensures
        r@ == "RECOVERY"@,
{
    String::from_str("RECOVERY")
}

/// Plans a manual retry: a missing record is not found; otherwise the
/// retry count rises and the status returns to `PENDING`, and when the
/// channel runs, the message goes back on its queue under the `RETRY_API`
/// origin with its id kept.
pub fn retry_plan<S>(reg: &ChannelRegistry<S>, record: Option<MessageRecord>) -> (r:
    RetryDecision)
    requires
        reg.wf(),
    ensures
        match r {
            RetryDecision::NotFound => record is None,
            RetryDecision::Planned { events, enqueue } => {
                &&& record matches Some(rec)
                &&& events@.len() == 2
                &&& events@[0] is IncrementRetry
                &&& events@[1] matches StoreEvent::SetStatus(st, e) && st
                    == MessageStatus::PENDING && e is None
                &&& match enqueue {
                    Some(m) => reg.spec_contains(rec.channel_id) && m.id == rec.id
                        && m.channel_id == rec.channel_id && m.content == rec.content && (
                    m.origin matches Some(o) && o@ == "RETRY_API"@),
                    None => !reg.spec_contains(rec.channel_id),
                }
            },
        },
{
    let rec = match record {
        Some(rec) => rec,
        None => {
            return RetryDecision::NotFound;
        },
    };
    let mut events: Vec<StoreEvent> = Vec::new();
    events.push(StoreEvent::IncrementRetry);
    events.push(StoreEvent::SetStatus(MessageStatus::PENDING, None));
    let enqueue = if reg.contains(rec.channel_id) {
        Some(
            Message {
                id: rec.id,
                channel_id: rec.channel_id,
                content: rec.content,
                origin: Some(String::from_str("RETRY_API")),
                timestamp_ms: now_millis(),
            },
        )
    } else {
        None
    };
    RetryDecision::Planned { events, enqueue }
}

/// What recovery does with one pending record.
pub enum RecoveryAction {
    Enqueue(Message),
    Leave(u128),
}

/// Plans boot recovery: each pending or processing record whose channel
/// runs goes back on that channel's queue under the `RECOVERY` origin with
/// its id kept; the rest stay as they are.
pub fn recovery_plan<S>(reg: &ChannelRegistry<S>, records: Vec<MessageRecord>) -> (r: Vec<
    RecoveryAction,
>)
    requires
        reg.wf(),
    ensures
        r@.len() == records@.len(),
        forall|i: int|
            0 <= i < records@.len() ==> match #[trigger] r@[i] {
                RecoveryAction::Enqueue(m) => reg.spec_contains(records@[i].channel_id) && m.id
                    == records@[i].id && m.channel_id == records@[i].channel_id && m.content
                    == records@[i].content && (m.origin matches Some(o) && o@ == "RECOVERY"@),
                RecoveryAction::Leave(id) => !reg.spec_contains(records@[i].channel_id) && id
                    == records@[i].id,
            },
{
    let ghost recs = records@;
    let n = records.len();
    let mut rest = records;
    let mut r: Vec<RecoveryAction> = Vec::new();
    let mut i: usize = 0;
    while i < n
        invariant
            n == recs.len(),
            i <= n,
            rest@ == recs.skip(i as int),
            reg.wf(),
            r@.len() == i,
            forall|j: int|
                0 <= j < i ==> match #[trigger] r@[j] {
                    RecoveryAction::Enqueue(m) => reg.spec_contains(recs[j].channel_id) && m.id
                        == recs[j].id && m.channel_id == recs[j].channel_id && m.content
                        == recs[j].content && (m.origin matches Some(o) && o@ == "RECOVERY"@),
                    RecoveryAction::Leave(id) => !reg.spec_contains(recs[j].channel_id) && id
                        == recs[j].id,
                },
        decreases n - i,
    {
        proof {
            assert(recs.skip(i as int)[0] == recs[i as int]);
            assert(recs.skip(i as int).drop_first() =~= recs.skip(i + 1));
        }
        let rec = rest.remove(0);
        proof {
            assert(rest@ =~= recs.skip(i + 1));
        }
        if reg.contains(rec.channel_id) {
            let m = Message {
                id: rec.id,
                channel_id: rec.channel_id,
                content: rec.content,
                origin: Some(recovery_origin()),
                timestamp_ms: now_millis(),
            };
            r.push(RecoveryAction::Enqueue(m));
        } else {
            r.push(RecoveryAction::Leave(rec.id));
        }
        i += 1;
    }
    r
}

/// Whether an injection can go ahead: exactly when the channel is
/// registered; the error text is what a caller is told otherwise.
pub fn inject_decision<S>(reg: &ChannelRegistry<S>, channel_id: u128) -> (r: Result<(), String>)
    requires
        reg.wf(),
    ensures
        r is Ok <==> reg.spec_contains(channel_id),
        r matches Err(e) ==> e@ == "Channel not found or not running"@,
{
    if reg.contains(channel_id) {
        Ok(())
    } else {
        Err(String::from_str("Channel not found or not running"))
    }
}

} // verus!
