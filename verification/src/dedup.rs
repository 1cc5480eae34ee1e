//! Message deduplication: a table of `(channel, content hash, expiry)` rows
//! with at most one row per `(channel, hash)` pair.  The content hash is
//! FNV-1a over the content bytes, written in lowercase hexadecimal.  Rows
//! expire after the time-to-live; a duplicate is a live row with the same
//! channel and hash.

use vstd::prelude::*;

use vstd::string::StringExecFns;
use vstd::string::StringSliceAdditionalSpecFns;

verus! {

/// FNV-1a 64-bit offset basis.
pub const FNV_OFFSET: u64 = 0xcbf29ce484222325;

/// FNV-1a 64-bit prime.
pub const FNV_PRIME: u64 = 0x100000001b3;

/// One FNV-1a step: fold a byte in, multiply modulo 2^64.
pub open spec fn fnv_step(h: u64, b: u8) -> u64 {
    (h ^ (b as u64)).wrapping_mul(FNV_PRIME)
}

/// FNV-1a folded over a byte sequence from a running value.
pub open spec fn fnv_fold(h: u64, bytes: Seq<u8>) -> u64
    decreases bytes.len(),
{
    if bytes.len() == 0 {
        h
    } else {
        fnv_fold(fnv_step(h, bytes[0]), bytes.drop_first())
    }
}

/// The FNV-1a hash of a byte sequence.
pub open spec fn fnv1a(bytes: Seq<u8>) -> u64 {
    fnv_fold(FNV_OFFSET, bytes)
}

/// The FNV-1a hash, executably.
pub fn fnv1a_hash(bytes: &[u8]) -> (r: u64)
    ensures
        r == fnv1a(bytes@),
{
    let n = bytes.len();
    let mut h: u64 = FNV_OFFSET;
    let mut i: usize = 0;
    assert(bytes@.skip(0) =~= bytes@);
    while i < n
        invariant
            n == bytes@.len(),
            i <= n,
            fnv1a(bytes@) == fnv_fold(h, bytes@.skip(i as int)),
        decreases n - i,
    {
        proof {
            assert(bytes@.skip(i as int)[0] == bytes@[i as int]);
            assert(bytes@.skip(i as int).drop_first() =~= bytes@.skip(i + 1));
        }
        let x = h ^ (bytes[i] as u64);
        h = x.wrapping_mul(FNV_PRIME);
        i += 1;
    }
    assert(bytes@.skip(n as int) =~= Seq::<u8>::empty());
    h
}

/// The lowercase hexadecimal digit for a value below sixteen.
pub open spec fn hex_digit_char(n: u64) -> char {
    if n == 0 {
        '0'
    } else if n == 1 {
        '1'
    } else if n == 2 {
        '2'
    } else if n == 3 {
        '3'
    } else if n == 4 {
        '4'
    } else if n == 5 {
        '5'
    } else if n == 6 {
        '6'
    } else if n == 7 {
        '7'
    } else if n == 8 {
        '8'
    } else if n == 9 {
        '9'
    } else if n == 10 {
        'a'
    } else if n == 11 {
        'b'
    } else if n == 12 {
        'c'
    } else if n == 13 {
        'd'
    } else if n == 14 {
        'e'
    } else {
        'f'
    }
}

/// A value in lowercase hexadecimal, most significant digit first, no
/// leading zeros (a single zero digit for zero).
pub open spec fn hex_text(v: u64) -> Seq<char>
    decreases v,
{
    if v < 16 {
        seq![hex_digit_char(v)]
    } else {
        hex_text(v / 16).push(hex_digit_char(v % 16))
    }
}

/// Appends one hexadecimal digit.
fn push_hex_digit(d: u64, out: &mut String)
    requires
        d < 16,
    ensures
        final(out)@ == old(out)@ + seq![hex_digit_char(d)],
{
    proof {
        reveal_strlit("0");
        reveal_strlit("1");
        reveal_strlit("2");
        reveal_strlit("3");
        reveal_strlit("4");
        reveal_strlit("5");
        reveal_strlit("6");
        reveal_strlit("7");
        reveal_strlit("8");
        reveal_strlit("9");
        reveal_strlit("a");
        reveal_strlit("b");
        reveal_strlit("c");
        reveal_strlit("d");
        reveal_strlit("e");
        reveal_strlit("f");
    }
    if d == 0 {
        out.append("0");
    } else if d == 1 {
        out.append("1");
    } else if d == 2 {
        out.append("2");
    } else if d == 3 {
        out.append("3");
    } else if d == 4 {
        out.append("4");
    } else if d == 5 {
        out.append("5");
    } else if d == 6 {
        out.append("6");
    } else if d == 7 {
        out.append("7");
    } else if d == 8 {
        out.append("8");
    } else if d == 9 {
        out.append("9");
    } else if d == 10 {
        out.append("a");
    } else if d == 11 {
        out.append("b");
    } else if d == 12 {
        out.append("c");
    } else if d == 13 {
        out.append("d");
    } else if d == 14 {
        out.append("e");
    } else {
        out.append("f");
    }
}

/// Appends a value's hexadecimal digits.
fn push_hex(v: u64, out: &mut String)
    ensures
        final(out)@ == old(out)@ + hex_text(v),
    decreases v,
{
    if v < 16 {
        push_hex_digit(v, out);
    } else {
        push_hex(v / 16, out);
        push_hex_digit(v % 16, out);
        assert((old(out)@ + hex_text(v / 16)) + seq![hex_digit_char(v % 16)] =~= old(out)@
            + hex_text(v));
    }
}

/// The content hash as the table writes it: FNV-1a in lowercase hex.
pub fn hash_content(content: &str) -> (r: String)
    ensures
        r@ == hex_text(fnv1a(content.spec_bytes())),
{
    let h = fnv1a_hash(content.as_bytes());
    let mut out = String::new();
    push_hex(h, &mut out);
    assert(Seq::<char>::empty() + hex_text(h) =~= hex_text(h));
    out
}

/// One row of the deduplication table.
#[derive(Debug, Clone, Copy)]
pub struct DedupEntry {
    pub channel_id: u128,
    pub content_hash: u64,
    pub expires_at_ms: i64,
}

/// No two rows share a `(channel, hash)` pair.
pub open spec fn unique_pairs(entries: Seq<DedupEntry>) -> bool {
    forall|i: int, j: int|
        0 <= i < j < entries.len() ==> !(entries[i].channel_id == entries[j].channel_id
            && entries[i].content_hash == entries[j].content_hash)
}

/// The rows that a predicate keeps, order kept.
pub open spec fn kept_rows(entries: Seq<DedupEntry>, pred: spec_fn(DedupEntry) -> bool) -> Seq<
    DedupEntry,
>
    decreases entries.len(),
{
    if entries.len() == 0 {
        Seq::empty()
    } else if pred(entries[0]) {
        seq![entries[0]] + kept_rows(entries.drop_first(), pred)
    } else {
        kept_rows(entries.drop_first(), pred)
    }
}

/// Every kept row passes the predicate.
pub proof fn lemma_kept_rows_pred(entries: Seq<DedupEntry>, pred: spec_fn(DedupEntry) -> bool)
    ensures
        forall|i: int| 0 <= i < kept_rows(entries, pred).len() ==> pred(
            #[trigger] kept_rows(entries, pred)[i],
        ),
        kept_rows(entries, pred).len() <= entries.len(),
    decreases entries.len(),
{
    if entries.len() == 0 {
    } else {
        let rest = entries.drop_first();
        lemma_kept_rows_pred(rest, pred);
        if pred(entries[0]) {
            let r = seq![entries[0]] + kept_rows(rest, pred);
            assert(forall|i: int| 1 <= i < r.len() ==> r[i] == #[trigger] kept_rows(rest, pred)[i
                - 1]);
            assert(r[0] == entries[0]);
        }
    }
}

/// If no row of a table carries a pair, none kept by a predicate does.
proof fn lemma_kept_rows_pair_free(
    entries: Seq<DedupEntry>,
    pred: spec_fn(DedupEntry) -> bool,
    channel_id: u128,
    hash: u64,
)
    requires
        forall|i: int|
            0 <= i < entries.len() ==> !(entries[i].channel_id == channel_id
                && entries[i].content_hash == hash),
    ensures
        forall|i: int|
            0 <= i < kept_rows(entries, pred).len() ==> !((#[trigger] kept_rows(entries, pred)[i]).channel_id == channel_id
                && kept_rows(entries, pred)[i].content_hash == hash),
    decreases entries.len(),
{
    if entries.len() == 0 {
    } else {
        let rest = entries.drop_first();
        assert(forall|i: int| 0 <= i < rest.len() ==> rest[i] == entries[i + 1]);
        lemma_kept_rows_pair_free(rest, pred, channel_id, hash);
        if pred(entries[0]) {
            let r = seq![entries[0]] + kept_rows(rest, pred);
            assert(forall|i: int| 1 <= i < r.len() ==> r[i] == #[trigger] kept_rows(rest, pred)[i
                - 1]);
            assert(r[0] == entries[0]);
        }
    }
}

/// Keeping a subset of rows keeps their pairwise uniqueness.
pub proof fn lemma_kept_rows_unique(entries: Seq<DedupEntry>, pred: spec_fn(DedupEntry) -> bool)
    requires
        unique_pairs(entries),
    ensures
        unique_pairs(kept_rows(entries, pred)),
    decreases entries.len(),
{
    if entries.len() == 0 {
    } else {
        let rest = entries.drop_first();
        assert(forall|i: int| 0 <= i < rest.len() ==> rest[i] == entries[i + 1]);
        assert(unique_pairs(rest));
        lemma_kept_rows_unique(rest, pred);
        if pred(entries[0]) {
            let r = seq![entries[0]] + kept_rows(rest, pred);
            lemma_kept_rows_pair_free(rest, pred, entries[0].channel_id, entries[0].content_hash);
            assert forall|i: int, j: int|
                0 <= i < j < r.len() implies !(r[i].channel_id == r[j].channel_id
                && r[i].content_hash == r[j].content_hash) by {
                assert(r[j] == kept_rows(rest, pred)[j - 1]);
                if i > 0 {
                    assert(r[i] == kept_rows(rest, pred)[i - 1]);
                } else {
                    assert(r[0] == entries[0]);
                }
            }
        }
    }
}

/// A row answering for `(channel, hash)` that has not expired at `now`.
pub open spec fn live_pair_at(
    entries: Seq<DedupEntry>,
    i: int,
    channel_id: u128,
    hash: u64,
    now_ms: i64,
) -> bool {
    &&& 0 <= i < entries.len()
    &&& entries[i].channel_id == channel_id
    &&& entries[i].content_hash == hash
    &&& entries[i].expires_at_ms > now_ms
}

/// The in-memory deduplication table: content hashes per channel, each with
/// an expiry, and never two rows for one `(channel, hash)` pair.
pub struct DeduplicationStore {
    entries: Vec<DedupEntry>,
    ttl_hours: i64,
}

impl DeduplicationStore {
    /// The rows of the table.
    pub closed spec fn view(&self) -> Seq<DedupEntry> {
        self.entries@
    }

    pub closed spec fn spec_ttl_hours(&self) -> i64 {
        self.ttl_hours
    }

    /// The table's invariant: one row per pair, and a sane time-to-live.
    pub open spec fn wf(&self) -> bool {
        unique_pairs(self.view()) && 0 <= self.spec_ttl_hours() <= 8760
    }

    /// A fresh table with the default time-to-live of a day.
    pub fn new() -> (r: Self)
        ensures
            r.wf(),
            r.view() == Seq::<DedupEntry>::empty(),
            r.spec_ttl_hours() == 24,
    {
        let r = DeduplicationStore { entries: Vec::new(), ttl_hours: 24 };
        assert(r.view() =~= Seq::<DedupEntry>::empty());
        r
    }

    /// A fresh table with a chosen time-to-live, capped at a year; an
    /// out-of-range request falls back to the default day.
    pub fn with_ttl(ttl_hours: i64) -> (r: Self)
        ensures
            r.wf(),
            r.view() == Seq::<DedupEntry>::empty(),
            r.spec_ttl_hours() == if 0 <= ttl_hours <= 8760 {
                ttl_hours
            } else {
                24
            },
    {
        let ttl = if 0 <= ttl_hours && ttl_hours <= 8760 {
            ttl_hours
        } else {
            24
        };
        let r = DeduplicationStore { entries: Vec::new(), ttl_hours: ttl };
        assert(r.view() =~= Seq::<DedupEntry>::empty());
        r
    }

    /// Whether a content is a live duplicate for a channel at `now`.
    pub fn is_duplicate(&self, channel_id: u128, content: &str, now_ms: i64) -> (r: bool)
        ensures
            r == exists|i: int|
                live_pair_at(self.view(), i, channel_id, fnv1a(content.spec_bytes()), now_ms),
    {
        let hash = fnv1a_hash(content.as_bytes());
        let n = self.entries.len();
        let mut i: usize = 0;
        while i < n
            invariant
                n == self.view().len(),
                i <= n,
                hash == fnv1a(content.spec_bytes()),
                forall|j: int|
                    0 <= j < i ==> !live_pair_at(self.view(), j, channel_id, hash, now_ms),
            decreases n - i,
    {
            let e = self.entries[i];
            if e.channel_id == channel_id && e.content_hash == hash && e.expires_at_ms > now_ms {
                assert(live_pair_at(self.view(), i as int, channel_id, hash, now_ms));
                return true;
            }
            i += 1;
        }
        proof {
            assert forall|j: int| !live_pair_at(
                self.view(),
                j,
                channel_id,
                hash,
                now_ms,
            ) by {}
        }
        false
    }

    /// Records a content for a channel with the table's time-to-live.  A row
    /// for the pair already in the table — live or expired — is left as it
    /// is; otherwise one row is added.  One row per pair remains.
    pub fn mark_processed(&mut self, channel_id: u128, content: &str, now_ms: i64)
        requires
            old(self).wf(),
            -8520336000000 <= now_ms <= 8520336000000,
        ensures
            final(self).wf(),
            final(self).spec_ttl_hours() == old(self).spec_ttl_hours(),
            ({
                let hash = fnv1a(content.spec_bytes());
                let pair_present = exists|i: int|
                    0 <= i < old(self).view().len() && (#[trigger] old(self).view()[i]).channel_id
                        == channel_id && old(self).view()[i].content_hash == hash;
                if pair_present {
                    final(self).view() == old(self).view()
                } else {
                    final(self).view() == old(self).view().push(
                        DedupEntry {
                            channel_id,
                            content_hash: hash,
                            expires_at_ms: (now_ms + old(self).spec_ttl_hours() * 3600000) as i64,
                        },
                    )
                }
            }),
    {
        let hash = fnv1a_hash(content.as_bytes());
        let n = self.entries.len();
        let mut i: usize = 0;
        while i < n
            invariant
                n == self.view().len(),
                *self == *old(self),
                old(self).wf(),
                i <= n,
                hash == fnv1a(content.spec_bytes()),
                forall|j: int|
                    0 <= j < i ==> !((#[trigger] self.view()[j]).channel_id == channel_id
                        && self.view()[j].content_hash == hash),
            decreases n - i,
    {
            let e = self.entries[i];
            if e.channel_id == channel_id && e.content_hash == hash {
                assert(self.view()[i as int].channel_id == channel_id);
                assert(self.view()[i as int].content_hash == hash);
                return ;
            }
            i += 1;
        }
        assert(!(exists|j: int|
            0 <= j < self.view().len() && (#[trigger] self.view()[j]).channel_id == channel_id
                && self.view()[j].content_hash == hash));
        let expires_at_ms = now_ms + self.ttl_hours * 3600000;
        let entry = DedupEntry { channel_id, content_hash: hash, expires_at_ms };
        self.entries.push(entry);
        proof {
            let v = self.view();
            assert forall|a: int, b: int|
                0 <= a < b < v.len() implies !(v[a].channel_id == v[b].channel_id
                && v[a].content_hash == v[b].content_hash) by {
                if b == v.len() - 1 {
                    assert(v[a] == old(self).view()[a]);
                } else {
                    assert(v[a] == old(self).view()[a]);
                    assert(v[b] == old(self).view()[b]);
                }
            }
        }
    }

    /// Puts one persisted row back — the boot path that reloads the table
    /// from durable storage.  A row for the pair already present is left as
    /// it is.
    pub fn restore_row(&mut self, channel_id: u128, content_hash: u64, expires_at_ms: i64)
        requires
            old(self).wf(),
        ensures
            final(self).wf(),
            final(self).spec_ttl_hours() == old(self).spec_ttl_hours(),
            ({
                let pair_present = exists|i: int|
                    0 <= i < old(self).view().len() && (#[trigger] old(self).view()[i]).channel_id
                        == channel_id && old(self).view()[i].content_hash == content_hash;
                if pair_present {
                    final(self).view() == old(self).view()
                } else {
                    final(self).view() == old(self).view().push(
                        DedupEntry { channel_id, content_hash, expires_at_ms },
                    )
                }
            }),
    {
        let n = self.entries.len();
        let mut i: usize = 0;
        while i < n
            invariant
                n == self.view().len(),
                *self == *old(self),
                old(self).wf(),
                i <= n,
                forall|j: int|
                    0 <= j < i ==> !((#[trigger] self.view()[j]).channel_id == channel_id
                        && self.view()[j].content_hash == content_hash),
            decreases n - i,
        {
            let e = self.entries[i];
            if e.channel_id == channel_id && e.content_hash == content_hash {
                assert(self.view()[i as int].channel_id == channel_id);
                assert(self.view()[i as int].content_hash == content_hash);
                return ;
            }
            i += 1;
        }
        assert(!(exists|j: int|
            0 <= j < self.view().len() && (#[trigger] self.view()[j]).channel_id == channel_id
                && self.view()[j].content_hash == content_hash));
        let entry = DedupEntry { channel_id, content_hash, expires_at_ms };
        self.entries.push(entry);
        proof {
            let v = self.view();
            assert forall|a: int, b: int|
                0 <= a < b < v.len() implies !(v[a].channel_id == v[b].channel_id
                && v[a].content_hash == v[b].content_hash) by {
                if b == v.len() - 1 {
                    assert(v[a] == old(self).view()[a]);
                } else {
                    assert(v[a] == old(self).view()[a]);
                    assert(v[b] == old(self).view()[b]);
                }
            }
        }
    }

    /// Forgets every row of one channel — the redeploy path, so that test
    /// replays after a deploy are not suppressed.
    pub fn clear_channel(&mut self, channel_id: u128)
        requires
            old(self).wf(),
        ensures
            final(self).wf(),
            final(self).spec_ttl_hours() == old(self).spec_ttl_hours(),
            final(self).view() == kept_rows(
                old(self).view(),
                |e: DedupEntry| e.channel_id != channel_id,
            ),
            forall|i: int|
                0 <= i < final(self).view().len() ==> (#[trigger] final(self).view()[i]).channel_id != channel_id,
    {
        let kept = self.keep_rows_by_channel(channel_id);
        self.entries = kept;
        proof {
            let pred = |e: DedupEntry| e.channel_id != channel_id;
            lemma_kept_rows_unique(old(self).view(), pred);
            lemma_kept_rows_pred(old(self).view(), pred);
        }
    }

    /// The rows that do not belong to a channel, in order.
    fn keep_rows_by_channel(&self, channel_id: u128) -> (kept: Vec<DedupEntry>)
        ensures
            kept@ == kept_rows(self.view(), |e: DedupEntry| e.channel_id != channel_id),
    {
        let ghost pred = |e: DedupEntry| e.channel_id != channel_id;
        let n = self.entries.len();
        let mut kept: Vec<DedupEntry> = Vec::new();
        let mut i: usize = 0;
        proof {
            assert(self.view().skip(0) =~= self.view());
            assert(kept@ + kept_rows(self.view().skip(0), pred) =~= kept_rows(self.view(), pred));
        }
        while i < n
            invariant
                n == self.view().len(),
                i <= n,
                kept_rows(self.view(), pred) =~= kept@ + kept_rows(
                    self.view().skip(i as int),
                    pred,
                ),
                pred == |e: DedupEntry| e.channel_id != channel_id,
            decreases n - i,
        {
            let e = self.entries[i];
            proof {
                assert(self.view().skip(i as int)[0] == self.view()[i as int]);
                assert(self.view().skip(i as int).drop_first() =~= self.view().skip(i + 1));
            }
            let ghost k0 = kept@;
            if e.channel_id != channel_id {
                kept.push(e);
                proof {
                    assert(kept@ =~= k0 + seq![e]);
                    assert(k0 + (seq![e] + kept_rows(self.view().skip(i + 1), pred)) =~= kept@
                        + kept_rows(self.view().skip(i + 1), pred));
                }
            }
            i += 1;
        }
        proof {
            assert(self.view().skip(n as int) =~= Seq::<DedupEntry>::empty());
            assert(kept@ + kept_rows(self.view().skip(n as int), pred) =~= kept@);
        }
        kept
    }

    /// Deletes every expired row and says how many went — the hourly
    /// cleanup.
    pub fn cleanup_expired(&mut self, now_ms: i64) -> (count: u64)
        requires
            old(self).wf(),
        ensures
            final(self).wf(),
            final(self).spec_ttl_hours() == old(self).spec_ttl_hours(),
            final(self).view() == kept_rows(
                old(self).view(),
                |e: DedupEntry| e.expires_at_ms >= now_ms,
            ),
            count == old(self).view().len() - final(self).view().len(),
    {
        let ghost pred = |e: DedupEntry| e.expires_at_ms >= now_ms;
        let n = self.entries.len();
        let mut kept: Vec<DedupEntry> = Vec::new();
        let mut i: usize = 0;
        proof {
            assert(self.view().skip(0) =~= self.view());
            assert(kept@ + kept_rows(self.view().skip(0), pred) =~= kept_rows(self.view(), pred));
        }
        while i < n
            invariant
                n == self.view().len(),
                *self == *old(self),
                i <= n,
                kept@.len() <= i,
                kept_rows(self.view(), pred) =~= kept@ + kept_rows(
                    self.view().skip(i as int),
                    pred,
                ),
                pred == |e: DedupEntry| e.expires_at_ms >= now_ms,
            decreases n - i,
        {
            let e = self.entries[i];
            proof {
                assert(self.view().skip(i as int)[0] == self.view()[i as int]);
                assert(self.view().skip(i as int).drop_first() =~= self.view().skip(i + 1));
            }
            let ghost k0 = kept@;
            if e.expires_at_ms >= now_ms {
                kept.push(e);
                proof {
                    assert(kept@ =~= k0 + seq![e]);
                    assert(k0 + (seq![e] + kept_rows(self.view().skip(i + 1), pred)) =~= kept@
                        + kept_rows(self.view().skip(i + 1), pred));
                }
            }
            i += 1;
        }
        proof {
            assert(self.view().skip(n as int) =~= Seq::<DedupEntry>::empty());
            assert(kept@ + kept_rows(self.view().skip(n as int), pred) =~= kept@);
        }
        let count = (n - kept.len()) as u64;
        self.entries = kept;
        proof {
            lemma_kept_rows_unique(old(self).view(), pred);
        }
        count
    }
}

/// Deduplication uniqueness: in a well-formed table, when one row answers
/// live for a `(channel, hash)` pair, no second row exists for that pair at
/// all — live or expired.
pub proof fn lemma_dedup_unique(
    s: &DeduplicationStore,
    channel_id: u128,
    hash: u64,
    now_ms: i64,
    i: int,
    j: int,
)
    requires
        s.wf(),
        live_pair_at(s.view(), i, channel_id, hash, now_ms),
        0 <= j < s.view().len(),
        j != i,
    ensures
        !(s.view()[j].channel_id == channel_id && s.view()[j].content_hash == hash),
{
}

} // verus!
