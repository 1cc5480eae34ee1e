//! The in-memory log: a bounded ring of the last hundred entries, a
//! per-channel rate limit that drops a repeated message within a second,
//! and the sanitizer that keeps control characters out of logged text.

use vstd::prelude::*;

use crate::bytesutil::{push_char, str_chars, str_eq};
use crate::file_dest::{keep_chars, lemma_keep_chars_pred};
use crate::registry::ChannelRegistry;
use vstd::string::{StrSliceExecFns, StringExecFns};

verus! {

/// How many entries the ring keeps.
pub const LOG_RING_CAPACITY: usize = 100;

/// The longest message the sanitizer lets through, in characters.
pub const MAX_LOG_MESSAGE_LENGTH: usize = 2048;

/// One log line.
#[derive(Debug)]
pub struct LogEntry {
    pub timestamp_ms: i64,
    pub level: String,
    pub message: String,
    pub channel_id: Option<u128>,
}

/// A character the sanitizer keeps: anything but a control, and the tab.
pub open spec fn ok_log_char(c: char) -> bool {
    c == '\t' || !((c as u32) < 0x20 || (0x7f <= (c as u32) && (c as u32) <= 0x9f))
}

/// What sanitization makes of a message: controls out (tab stays), length
/// capped.  With every line break already removed, nothing is left for the
/// escaping the sink would otherwise need.
pub open spec fn spec_sanitize_log(s: Seq<char>) -> Seq<char> {
    let kept = keep_chars(s, |c: char| ok_log_char(c));
    if kept.len() > MAX_LOG_MESSAGE_LENGTH {
        kept.take(MAX_LOG_MESSAGE_LENGTH as int)
    } else {
        kept
    }
}

/// Strips control characters (but the tab) and caps the length, against log
/// forging.
pub fn sanitize_log_message(msg: &str) -> (r: String)
    ensures
        r@ == spec_sanitize_log(msg@),
        forall|i: int| 0 <= i < r@.len() ==> ok_log_char(#[trigger] r@[i]),
        r@.len() <= MAX_LOG_MESSAGE_LENGTH,
{
    let ghost pred = |c: char| ok_log_char(c);
    let cs = str_chars(msg);
    let n = cs.len();
    let mut out = String::new();
    let mut count: usize = 0;
    let mut i: usize = 0;
    proof {
        assert(cs@.take(0) =~= Seq::<char>::empty());
        assert(out@ =~= log_prefix(msg@, 0));
    }
    while i < n
        invariant
            n == cs@.len(),
            cs@ == msg@,
            i <= n,
            count == out@.len(),
            out@ == log_prefix(msg@, i as int),
            pred == (|c: char| ok_log_char(c)),
        decreases n - i,
    {
        let c = cs[i];
        let keep = c == '\t' || !((c as u32) < 0x20 || (0x7f <= (c as u32) && (c as u32) <= 0x9f));
        proof {
            assert(msg@.take(i + 1).drop_last() =~= msg@.take(i as int));
            assert(msg@.take(i + 1).last() == msg@[i as int]);
            assert(keep == ok_log_char(msg@[i as int]));
            lemma_keep_chars_pred(msg@.take(i as int), pred);
        }
        if keep && count < MAX_LOG_MESSAGE_LENGTH {
            push_char(&mut out, c);
            count += 1;
            proof {
                let k0 = keep_chars(msg@.take(i as int), pred);
                let k1 = keep_chars(msg@.take(i + 1), pred);
                assert(k1 =~= k0.push(msg@[i as int]));
                assert(log_prefix(msg@, i + 1) =~= log_prefix(msg@, i as int).push(
                    msg@[i as int],
                ));
            }
        } else {
            proof {
                let k0 = keep_chars(msg@.take(i as int), pred);
                let k1 = keep_chars(msg@.take(i + 1), pred);
                if keep {
                    assert(k1 =~= k0.push(msg@[i as int]));
                    assert(log_prefix(msg@, i + 1) =~= log_prefix(msg@, i as int));
                } else {
                    assert(k1 =~= k0);
                    assert(log_prefix(msg@, i + 1) =~= log_prefix(msg@, i as int));
                }
            }
        }
        i += 1;
    }
    proof {
        assert(msg@.take(n as int) =~= msg@);
        lemma_keep_chars_pred(msg@, pred);
        assert(out@ =~= spec_sanitize_log(msg@));
        assert forall|j: int| 0 <= j < out@.len() implies ok_log_char(#[trigger] out@[j]) by {
            assert(out@[j] == spec_sanitize_log(msg@)[j]);
            assert(spec_sanitize_log(msg@)[j] == keep_chars(msg@, pred)[j]);
        }
    }
    out
}

/// The sanitized prefix of the first `i` characters.
pub open spec fn log_prefix(s: Seq<char>, i: int) -> Seq<char> {
    let kept = keep_chars(s.take(i), |c: char| ok_log_char(c));
    if kept.len() > MAX_LOG_MESSAGE_LENGTH {
        kept.take(MAX_LOG_MESSAGE_LENGTH as int)
    } else {
        kept
    }
}

/// A copy of one entry.
fn clone_entry(e: &LogEntry) -> (r: LogEntry)
    ensures
        r == *e,
{
    LogEntry {
        timestamp_ms: e.timestamp_ms,
        level: e.level.clone(),
        message: e.message.clone(),
        channel_id: e.channel_id,
    }
}

/// The bounded ring: at most a hundred entries, oldest evicted first.
pub struct LogRing {
    entries: Vec<LogEntry>,
}

impl LogRing {
    /// The kept entries, oldest first.
    pub closed spec fn view(&self) -> Seq<LogEntry> {
        self.entries@
    }

    /// Never more than the capacity.
    pub open spec fn wf(&self) -> bool {
        self.view().len() <= LOG_RING_CAPACITY
    }

    pub fn new() -> (r: Self)
        ensures
            r.wf(),
            r.view() == Seq::<LogEntry>::empty(),
    {
        let r = LogRing { entries: Vec::new() };
        assert(r.view() =~= Seq::<LogEntry>::empty());
        r
    }

    /// Appends an entry, evicting the oldest when the ring is full.
    pub fn push(&mut self, e: LogEntry)
        requires
            old(self).wf(),
        ensures
            final(self).wf(),
            final(self).view() == if old(self).view().len() < LOG_RING_CAPACITY {
                old(self).view().push(e)
            } else {
                old(self).view().drop_first().push(e)
            },
    {
        if self.entries.len() >= LOG_RING_CAPACITY {
            self.entries.remove(0);
            proof {
                assert(self.entries@ =~= old(self).view().drop_first());
            }
        }
        self.entries.push(e);
    }

    pub fn len(&self) -> (r: usize)
        ensures
            r == self.view().len(),
    {
        self.entries.len()
    }

    /// A copy of the ring's entries, oldest first.
    pub fn snapshot(&self) -> (r: Vec<LogEntry>)
        ensures
            r@ == self.view(),
    {
        let n = self.entries.len();
        let mut r: Vec<LogEntry> = Vec::new();
        let mut i: usize = 0;
        while i < n
            invariant
                n == self.view().len(),
                i <= n,
                r@ == self.view().take(i as int),
            decreases n - i,
        {
            r.push(clone_entry(&self.entries[i]));
            assert(r@ =~= self.view().take(i + 1));
            i += 1;
        }
        assert(self.view().take(n as int) =~= self.view());
        r
    }
}

/// A kept line suppresses a repeat: same text, taken less than a second
/// before now.
pub open spec fn suppresses(last: (String, u64), msg: Seq<char>, now_ms: u64) -> bool {
    last.0@ == msg && last.1 <= now_ms < last.1 + 1000
}

/// The per-channel rate limit: one registry entry per channel (and one slot
/// for channel-less lines) holding the last message and its time.
pub struct LogRateLimiter {
    per_channel: ChannelRegistry<(String, u64)>,
    system: Option<(String, u64)>,
}

impl LogRateLimiter {
    /// The channel-keyed entries.
    pub closed spec fn channel_entries(&self) -> Seq<(u128, (String, u64))> {
        self.per_channel.view()
    }

    /// The entry for channel-less lines.
    pub closed spec fn system_entry(&self) -> Option<(String, u64)> {
        self.system
    }

    pub closed spec fn wf(&self) -> bool {
        self.per_channel.wf()
    }

    pub fn new() -> (r: Self)
        ensures
            r.wf(),
            r.system_entry() is None,
            r.channel_entries() == Seq::<(u128, (String, u64))>::empty(),
    {
        LogRateLimiter { per_channel: ChannelRegistry::new(), system: None }
    }

    /// Whether a line may be logged now: a repeat of the last message for
    /// the same channel within a second is suppressed; anything logged
    /// becomes the channel's new last message, stamped now.
    pub fn allow(&mut self, channel_id: Option<u128>, msg: &str, now_ms: u64) -> (r: bool)
        requires
            old(self).wf(),
        ensures
            final(self).wf(),
            channel_id is None ==> r == !(old(self).system_entry() matches Some(last)
                && suppresses(last, msg@, now_ms)),
            channel_id is None ==> final(self).channel_entries() == old(self).channel_entries(),
            channel_id is None && r ==> (final(self).system_entry() matches Some((m, t)) && m@
                == msg@ && t == now_ms),
            channel_id is None && !r ==> final(self).system_entry() == old(self).system_entry(),
            channel_id matches Some(id) ==> r == !(exists|i: int|
                0 <= i < old(self).channel_entries().len() && (
                #[trigger] old(self).channel_entries()[i]).0 == id && suppresses(
                    old(self).channel_entries()[i].1,
                    msg@,
                    now_ms,
                )),
            channel_id is Some ==> final(self).system_entry() == old(self).system_entry(),
            channel_id is Some && !r ==> final(self).channel_entries() == old(
                self,
            ).channel_entries(),
    {
        match channel_id {
            None => {
                let suppress = match &self.system {
                    Some((last, t)) => str_eq(last.as_str(), msg) && *t <= now_ms && now_ms - *t
                        < 1000,
                    None => false,
                };
                proof {
                    assert(suppress == (old(self).system_entry() matches Some(last) && suppresses(
                        last,
                        msg@,
                        now_ms,
                    )));
                }
                if suppress {
                    false
                } else {
                    self.system = Some((String::from_str(msg), now_ms));
                    true
                }
            },
            Some(id) => {
                let found = self.per_channel.lookup(id);
                let suppress = match found {
                    Some((last, t)) => str_eq(last.as_str(), msg) && *t <= now_ms && now_ms - *t
                        < 1000,
                    None => false,
                };
                proof {
                    let v = self.per_channel.view();
                    match found {
                        Some(h) => {
                            let i0 = choose|i: int| 0 <= i < v.len() && v[i] == (id, *h);
                            assert forall|i: int|
                                0 <= i < v.len() && (#[trigger] v[i]).0 == id implies v[i] == (
                                id,
                                *h,
                            ) by {
                                if i != i0 {
                                    assert(v[i0].0 == id);
                                }
                            }
                            if suppress {
                                assert(suppresses(v[i0].1, msg@, now_ms));
                            }
                        },
                        None => {
                            crate::registry::lemma_occ_zero(v, id);
                        },
                    }
                }
                proof {
                    let ghost ve = old(self).channel_entries();
                    assert(self.per_channel.view() == ve);
                    if suppress {
                        assert(exists|i: int|
                            0 <= i < ve.len() && (#[trigger] ve[i]).0 == id && suppresses(
                                ve[i].1,
                                msg@,
                                now_ms,
                            ));
                    } else {
                        assert(!(exists|i: int|
                            0 <= i < ve.len() && (#[trigger] ve[i]).0 == id && suppresses(
                                ve[i].1,
                                msg@,
                                now_ms,
                            )));
                    }
                }
                if suppress {
                    false
                } else {
                    let _ = self.per_channel.insert(id, (String::from_str(msg), now_ms));
                    true
                }
            },
        }
    }
}

} // verus!
