//! The MLLP byte-stream framer: a stateful accumulator that turns an
//! arbitrary byte stream into complete HL7 frames.  Frames are delimited by
//! a start byte, an end byte and a trailing carriage return; bytes outside a
//! frame are dropped.
//!
//! The machine is specified twice: an abstract step/run function on a
//! mathematical model, and the executable accumulator proved to follow it.
//! The lemmas at the end give the framing laws: feeding a stream in two
//! parts equals feeding it whole (split points do not matter), and a
//! well-formed frame decodes to exactly its content, which re-encodes to
//! the original frame.

use vstd::prelude::*;

use crate::bytesutil::{lossy_text_of, string_from_utf8_lossy};
use crate::clock::now_millis;
use vstd::string::StringExecFns;


verus! {

/// Start-of-block byte.
pub const SB: u8 = 0x0B;

/// End-of-block byte.
pub const EB: u8 = 0x1C;

/// Carriage return, the frame trailer.
pub const CR: u8 = 0x0D;

#[derive(Debug, Clone, PartialEq)]
pub enum MllpState {
    WaitingStart,
    Accumulating,
    Complete,
    Error(String),
}

/// The abstract phase of the accumulator; `Error`'s reason string does not
/// affect any transition, so the model keeps only the phase.
pub enum MllpPhase {
    Waiting,
    Accum,
    Done,
    Failed,
}

/// The mathematical state of the accumulator: its phase and the frame
/// content gathered so far.
pub struct MllpModel {
    pub phase: MllpPhase,
    pub buf: Seq<u8>,
}

/// The model of a freshly created (or reset) accumulator.
pub open spec fn initial_model() -> MllpModel {
    MllpModel { phase: MllpPhase::Waiting, buf: Seq::empty() }
}

/// One byte of input: the next model and the frames (none or one) emitted.
pub open spec fn mllp_step(m: MllpModel, b: u8) -> (MllpModel, Seq<Seq<u8>>) {
    match m.phase {
        MllpPhase::Waiting => if b == SB {
            (MllpModel { phase: MllpPhase::Accum, buf: Seq::empty() }, Seq::empty())
        } else {
            (m, Seq::empty())
        },
        MllpPhase::Accum => if b == SB {
            (MllpModel { phase: MllpPhase::Accum, buf: Seq::empty() }, Seq::empty())
        } else if b == EB {
            (MllpModel { phase: MllpPhase::Done, buf: m.buf }, Seq::empty())
        } else {
            (MllpModel { phase: MllpPhase::Accum, buf: m.buf.push(b) }, Seq::empty())
        },
        MllpPhase::Done => if b == CR {
            (MllpModel { phase: MllpPhase::Waiting, buf: Seq::empty() }, seq![m.buf])
        } else if b == SB {
            (MllpModel { phase: MllpPhase::Accum, buf: Seq::empty() }, Seq::empty())
        } else {
            (MllpModel { phase: MllpPhase::Waiting, buf: Seq::empty() }, Seq::empty())
        },
        MllpPhase::Failed => if b == SB {
            (MllpModel { phase: MllpPhase::Accum, buf: Seq::empty() }, Seq::empty())
        } else {
            (m, Seq::empty())
        },
    }
}

/// Running the machine over a whole byte sequence.
pub open spec fn mllp_run(m: MllpModel, bs: Seq<u8>) -> (MllpModel, Seq<Seq<u8>>)
    decreases bs.len(),
{
    if bs.len() == 0 {
        (m, Seq::empty())
    } else {
        let first = mllp_step(m, bs[0]);
        let rest = mllp_run(first.0, bs.drop_first());
        (rest.0, first.1 + rest.1)
    }
}

/// Wrapping a content in a frame: start byte, content, end byte, return.
pub open spec fn mllp_encode(content: Seq<u8>) -> Seq<u8> {
    seq![SB] + content + seq![EB, CR]
}

/// A content that can be framed: free of the two delimiter bytes.
pub open spec fn frameable(content: Seq<u8>) -> bool {
    forall|i: int| 0 <= i < content.len() ==> content[i] != SB && content[i] != EB
}

/// The frames of a run, read as text: lossy UTF-8, so a malformed frame is
/// still emitted, with replacement characters where its bytes go wrong.
pub open spec fn decoded_frames(frames: Seq<Seq<u8>>) -> Seq<Seq<char>>
    decreases frames.len(),
{
    if frames.len() == 0 {
        Seq::empty()
    } else {
        decoded_frames(frames.drop_last()).push(lossy_text_of(frames.last()))
    }
}

/// Frame texts keep the count.
pub proof fn lemma_decoded_frames_len(frames: Seq<Seq<u8>>)
    ensures
        decoded_frames(frames).len() == frames.len(),
    decreases frames.len(),
{
    if frames.len() > 0 {
        lemma_decoded_frames_len(frames.drop_last());
    }
}

/// Each frame of valid UTF-8 is read exactly; only malformed frames go
/// through the lossy reading.
pub open spec fn frames_read_exactly(frames: Seq<Seq<u8>>, texts: Seq<Seq<char>>) -> bool {
    forall|i: int|
        0 <= i < frames.len() && i < texts.len() && vstd::utf8::valid_utf8(#[trigger] frames[i])
            ==> texts[i] == vstd::utf8::decode_utf8(frames[i])
}

/// What the accumulator does with one byte; computed first, applied after,
/// so that the state is not borrowed while it is written.
enum FeedAction {
    Ignore,
    StartFrame,
    Append,
    EndContent,
    EmitFrame,
    DropFrame,
}

pub struct MllpFrameAccumulator {
    pub state: MllpState,
    pub buffer: Vec<u8>,
    pub last_activity_ms: u64,
    pub timeout_ms: u64,
}

impl MllpFrameAccumulator {
    /// The abstract phase this accumulator is in.
    pub open spec fn phase(&self) -> MllpPhase {
        match self.state {
            MllpState::WaitingStart => MllpPhase::Waiting,
            MllpState::Accumulating => MllpPhase::Accum,
            MllpState::Complete => MllpPhase::Done,
            MllpState::Error(_) => MllpPhase::Failed,
        }
    }

    /// The mathematical model of this accumulator.
    pub open spec fn model(&self) -> MllpModel {
        MllpModel { phase: self.phase(), buf: self.buffer@ }
    }

    pub fn new(timeout_ms: u64) -> (r: Self)
        ensures
            r.model() == initial_model(),
            r.timeout_ms == timeout_ms,
            r.state == MllpState::WaitingStart,
    {
        let r = Self {
            state: MllpState::WaitingStart,
            buffer: Vec::new(),
            last_activity_ms: now_millis(),
            timeout_ms,
        };
        assert(r.buffer@ =~= Seq::<u8>::empty());
        r
    }

    /// Returns the accumulator to its initial state, keeping the timeout.
    pub fn reset(&mut self)
        ensures
            final(self).model() == initial_model(),
            final(self).state == MllpState::WaitingStart,
            final(self).timeout_ms == old(self).timeout_ms,
    {
        self.state = MllpState::WaitingStart;
        self.buffer.clear();
        self.last_activity_ms = now_millis();
        assert(self.buffer@ =~= Seq::<u8>::empty());
    }

    /// Feeds bytes at a given clock reading.  The accumulator moves to the
    /// model state that the abstract machine reaches on these bytes, and the
    /// returned strings are the machine's frames, read as text (lossy UTF-8
    /// tolerated).
    #[verifier::rlimit(50)]
    pub fn feed_at(&mut self, data: &[u8], now_ms: u64) -> (msgs: Vec<String>)
        ensures
            final(self).model() == mllp_run(old(self).model(), data@).0,
            msgs.deep_view() == decoded_frames(mllp_run(old(self).model(), data@).1),
            frames_read_exactly(mllp_run(old(self).model(), data@).1, msgs.deep_view()),
            final(self).timeout_ms == old(self).timeout_ms,
            final(self).last_activity_ms == now_ms,
    {
        self.last_activity_ms = now_ms;
        let ghost m0 = self.model();
        let ghost t0 = self.timeout_ms;
        let mut msgs: Vec<String> = Vec::new();
        let ghost emitted: Seq<Seq<u8>> = Seq::empty();
        let mut emitted = Ghost(emitted);
        let n = data.len();
        let mut i: usize = 0;
        assert(mllp_run(m0, data@.take(0)) == (m0, Seq::<Seq<u8>>::empty()));
        assert(data@.take(0) =~= Seq::<u8>::empty());
        while i < n
            invariant
                n == data@.len(),
                i <= n,
                self.timeout_ms == t0,
                self.last_activity_ms == now_ms,
                mllp_run(m0, data@.take(i as int)) == (self.model(), emitted@),
                msgs.deep_view() == decoded_frames(emitted@),
                frames_read_exactly(emitted@, msgs.deep_view()),
            decreases n - i,
        {
            let b = data[i];
            let ghost pre = self.model();
            let act = match &self.state {
                MllpState::WaitingStart => if b == SB {
                    FeedAction::StartFrame
                } else {
                    FeedAction::Ignore
                },
                MllpState::Accumulating => if b == SB {
                    FeedAction::StartFrame
                } else if b == EB {
                    FeedAction::EndContent
                } else {
                    FeedAction::Append
                },
                MllpState::Complete => if b == CR {
                    FeedAction::EmitFrame
                } else if b == SB {
                    FeedAction::StartFrame
                } else {
                    FeedAction::DropFrame
                },
                MllpState::Error(_) => if b == SB {
                    FeedAction::StartFrame
                } else {
                    FeedAction::Ignore
                },
            };
            match act {
                FeedAction::Ignore => {},
                FeedAction::StartFrame => {
                    self.state = MllpState::Accumulating;
                    self.buffer.clear();
                    assert(self.buffer@ =~= Seq::<u8>::empty());
                },
                FeedAction::Append => {
                    self.buffer.push(b);
                },
                FeedAction::EndContent => {
                    self.state = MllpState::Complete;
                },
                FeedAction::EmitFrame => {
                    let ghost frame = self.buffer@;
                    let text = string_from_utf8_lossy(self.buffer.as_slice());
                    self.state = MllpState::WaitingStart;
                    self.buffer.clear();
                    assert(self.buffer@ =~= Seq::<u8>::empty());
                    let ghost dv0 = msgs.deep_view();
                    let ghost text_chars = text@;
                    msgs.push(text);
                    assert(msgs.deep_view() =~~= dv0 + seq![lossy_text_of(frame)]);
                    proof {
                        let e0 = emitted@;
                        lemma_decoded_frames_len(e0);
                        emitted@ = emitted@.push(frame);
                        assert(emitted@.drop_last() =~= e0);
                        assert(emitted@.last() == frame);
                        assert(emitted@ =~~= e0 + seq![frame]);
                        assert(msgs.deep_view() == decoded_frames(emitted@));
                        assert forall|j: int|
                            0 <= j < emitted@.len() && j < msgs.deep_view().len()
                                && vstd::utf8::valid_utf8(
                                emitted@[j],
                            ) implies msgs.deep_view()[j] == vstd::utf8::decode_utf8(
                            emitted@[j],
                        ) by {
                            if j < e0.len() {
                                assert(emitted@[j] == e0[j]);
                                assert(msgs.deep_view()[j] == dv0[j]);
                            } else {
                                assert(emitted@[j] == frame);
                                assert(msgs.deep_view()[j] == lossy_text_of(frame));
                                if vstd::utf8::valid_utf8(frame) {
                                    assert(text_chars == vstd::utf8::decode_utf8(frame));
                                    assert(lossy_text_of(frame) == text_chars);
                                }
                            }
                        }
                    }
                },
                FeedAction::DropFrame => {
                    self.state = MllpState::WaitingStart;
                    self.buffer.clear();
                    assert(self.buffer@ =~= Seq::<u8>::empty());
                },
            }
            proof {
                let stepped = mllp_step(pre, b);
                assert(self.model() == stepped.0);
                lemma_run_snoc(m0, data@.take(i as int), b);
                assert(data@.take(i as int).push(b) =~= data@.take(i + 1));
                let prior = mllp_run(m0, data@.take(i as int)).1;
                if stepped.1.len() == 0 {
                    assert(prior + stepped.1 =~~= prior);
                    assert(emitted@ == prior + stepped.1);
                } else {
                    assert(stepped.1 =~~= seq![pre.buf]);
                    assert(emitted@ =~~= prior + stepped.1);
                }
                assert(mllp_run(m0, data@.take(i + 1)) == (self.model(), emitted@));
            }
            i += 1;
        }
        assert(data@.take(n as int) =~= data@);
        msgs
    }

    /// Feeds bytes, stamping the wall clock as the last activity.
    pub fn feed(&mut self, data: &[u8]) -> (msgs: Vec<String>)
        ensures
            final(self).model() == mllp_run(old(self).model(), data@).0,
            msgs.deep_view() == decoded_frames(mllp_run(old(self).model(), data@).1),
            frames_read_exactly(mllp_run(old(self).model(), data@).1, msgs.deep_view()),
            final(self).timeout_ms == old(self).timeout_ms,
    {
        let now = now_millis();
        self.feed_at(data, now)
    }

    /// Checks inactivity against a given clock reading: inside a frame, a
    /// silence longer than the timeout moves the accumulator to the error
    /// state and reports it.
    pub fn check_timeout_at(&mut self, now_ms: u64) -> (r: bool)
        ensures
            r == (!(old(self).phase() is Waiting) && now_ms - old(self).last_activity_ms
                > old(self).timeout_ms),
            r ==> (final(self).state matches MllpState::Error(m) && m@ == "Timeout"@),
            r ==> final(self).buffer@.len() == 0,
            !r ==> *final(self) == *old(self),
            final(self).timeout_ms == old(self).timeout_ms,
            final(self).last_activity_ms == old(self).last_activity_ms,
    {
        let idle = match &self.state {
            MllpState::WaitingStart => false,
            _ => true,
        };
        let elapsed = if now_ms >= self.last_activity_ms {
            now_ms - self.last_activity_ms
        } else {
            0
        };
        if idle && elapsed > self.timeout_ms {
            self.state = MllpState::Error(String::from_str("Timeout"));
            self.buffer.clear();
            true
        } else {
            false
        }
    }

    /// Checks inactivity against the wall clock.
    pub fn check_timeout(&mut self) -> (r: bool)
        ensures
            r ==> (final(self).state matches MllpState::Error(m) && m@ == "Timeout"@),
            r ==> final(self).buffer@.len() == 0,
            r ==> !(old(self).phase() is Waiting),
            !r ==> *final(self) == *old(self),
            final(self).timeout_ms == old(self).timeout_ms,
    {
        let now = now_millis();
        self.check_timeout_at(now)
    }
}

/// Wraps a payload in an MLLP frame.
pub fn mllp_wrap(content: &[u8]) -> (r: Vec<u8>)
    ensures
        r@ == mllp_encode(content@),
{
    let mut r: Vec<u8> = Vec::new();
    r.push(SB);
    crate::bytesutil::extend_bytes(&mut r, content);
    r.push(EB);
    r.push(CR);
    assert(r@ =~= mllp_encode(content@));
    r
}

/// A run over no bytes changes nothing and emits nothing.
proof fn lemma_run_empty(m: MllpModel)
    ensures
        mllp_run(m, Seq::empty()) == (m, Seq::<Seq<u8>>::empty()),
{
}

/// Running a sequence extended by one byte: the run over the prefix,
/// followed by one step.
proof fn lemma_run_snoc(m: MllpModel, bs: Seq<u8>, b: u8)
    ensures
        ({
            let r1 = mllp_run(m, bs);
            let st = mllp_step(r1.0, b);
            mllp_run(m, bs.push(b)) == (st.0, r1.1 + st.1)
        }),
    decreases bs.len(),
{
    let r1 = mllp_run(m, bs);
    let st = mllp_step(r1.0, b);
    if bs.len() == 0 {
        assert(bs.push(b)[0] == b);
        assert(bs.push(b).drop_first() =~= Seq::<u8>::empty());
        lemma_run_empty(st.0);
        assert(mllp_run(m, bs.push(b)).1 =~~= st.1);
        assert(r1.1 + st.1 =~~= st.1);
        assert(mllp_run(m, bs.push(b)).0 == st.0);
        assert(mllp_run(m, bs.push(b)).1 == r1.1 + st.1);
    } else {
        let first = mllp_step(m, bs[0]);
        lemma_run_snoc(first.0, bs.drop_first(), b);
        assert(bs.push(b)[0] == bs[0]);
        assert(bs.push(b).drop_first() =~= bs.drop_first().push(b));
        let rr = mllp_run(first.0, bs.drop_first());
        // the step after the shorter run is the same step `st`
        assert(mllp_step(rr.0, b) == st);
        assert(mllp_run(m, bs.push(b)).0 == st.0);
        assert(mllp_run(m, bs.push(b)).1 == first.1 + (rr.1 + st.1));
        assert(first.1 + (rr.1 + st.1) =~~= (first.1 + rr.1) + st.1);
        assert(mllp_run(m, bs.push(b)).1 == r1.1 + st.1);
    }
}

/// Split independence: feeding a stream in two parts reaches the same state
/// and emits the same frames as feeding it whole, wherever the split falls.
pub proof fn lemma_run_append(m: MllpModel, a: Seq<u8>, b: Seq<u8>)
    ensures
        mllp_run(m, a + b).0 == mllp_run(mllp_run(m, a).0, b).0,
        mllp_run(m, a + b).1 == mllp_run(m, a).1 + mllp_run(mllp_run(m, a).0, b).1,
    decreases a.len(),
{
    if a.len() == 0 {
        assert(a + b =~= b);
        assert(mllp_run(m, a) == (m, Seq::<Seq<u8>>::empty()));
        assert(Seq::<Seq<u8>>::empty() + mllp_run(m, b).1 =~~= mllp_run(m, b).1);
    } else {
        let first = mllp_step(m, a[0]);
        assert((a + b)[0] == a[0]);
        assert((a + b).drop_first() =~= a.drop_first() + b);
        lemma_run_append(first.0, a.drop_first(), b);
        let ra = mllp_run(first.0, a.drop_first());
        let rb = mllp_run(ra.0, b);
        assert(first.1 + (ra.1 + rb.1) =~~= (first.1 + ra.1) + rb.1);
    }
}

/// While accumulating, delimiter-free content is gathered byte for byte and
/// nothing is emitted.
proof fn lemma_run_content(buf: Seq<u8>, c: Seq<u8>)
    requires
        frameable(c),
    ensures
        mllp_run(MllpModel { phase: MllpPhase::Accum, buf }, c) == (
            MllpModel { phase: MllpPhase::Accum, buf: buf + c },
            Seq::<Seq<u8>>::empty(),
        ),
    decreases c.len(),
{
    let m = MllpModel { phase: MllpPhase::Accum, buf };
    if c.len() == 0 {
        assert(buf + c =~= buf);
        assert(MllpModel { phase: MllpPhase::Accum, buf: buf + c } == m);
    } else {
        assert(c[0] != SB && c[0] != EB);
        let first = mllp_step(m, c[0]);
        assert(first.0 == MllpModel { phase: MllpPhase::Accum, buf: buf.push(c[0]) });
        assert(frameable(c.drop_first())) by {
            assert(forall|i: int|
                0 <= i < c.drop_first().len() ==> c.drop_first()[i] == c[i + 1]);
        }
        lemma_run_content(buf.push(c[0]), c.drop_first());
        assert(buf.push(c[0]) + c.drop_first() =~= buf + c);
        assert(first.1 + Seq::<Seq<u8>>::empty() =~~= Seq::<Seq<u8>>::empty());
    }
}

/// Decoding one well-formed frame from the initial state yields exactly its
/// content and returns to the initial state.
pub proof fn lemma_decode_encode(content: Seq<u8>)
    requires
        frameable(content),
    ensures
        mllp_run(initial_model(), mllp_encode(content)) == (initial_model(), seq![content]),
{
    let f = mllp_encode(content);
    let after_sb = MllpModel { phase: MllpPhase::Accum, buf: Seq::empty() };
    let two = seq![EB, CR];
    let tail = content + two;

    // the two trailer bytes, from the state that holds the whole content
    let after_content = MllpModel { phase: MllpPhase::Accum, buf: content };
    assert(two[0] == EB);
    let after_eb = mllp_step(after_content, EB).0;
    assert(after_eb == MllpModel { phase: MllpPhase::Done, buf: content });
    assert(two.drop_first() =~= seq![CR]);
    let one = seq![CR];
    assert(one[0] == CR);
    assert(one.drop_first() =~= Seq::<u8>::empty());
    lemma_run_empty(initial_model());
    assert(mllp_run(after_eb, one).0 == initial_model());
    assert(mllp_run(after_eb, one).1 =~~= seq![content]);
    assert(mllp_run(after_content, two).0 == initial_model());
    assert(mllp_run(after_content, two).1 =~~= seq![content]);

    // the content, from the state just after the start byte
    lemma_run_content(Seq::empty(), content);
    assert(Seq::<u8>::empty() + content =~= content);
    assert(mllp_run(after_sb, content).0 == after_content);
    assert(mllp_run(after_sb, content).1 =~~= Seq::<Seq<u8>>::empty());

    // stitch content and trailer together
    lemma_run_append(after_sb, content, two);
    assert(mllp_run(after_sb, tail).0 == initial_model());
    assert(mllp_run(after_sb, tail).1 =~~= seq![content]);

    // and lead in with the start byte
    assert(f[0] == SB);
    assert(mllp_step(initial_model(), SB).0 == after_sb);
    assert(f.drop_first() =~= tail);
    assert(mllp_run(initial_model(), f).0 == initial_model());
    assert(mllp_run(initial_model(), f).1 =~~= seq![content]);
}

/// Round trip: a well-formed frame decodes to one content whose re-encoding
/// is the original frame, byte for byte.
pub proof fn lemma_encode_decode_roundtrip(f: Seq<u8>)
    requires
        exists|c: Seq<u8>| frameable(c) && f == mllp_encode(c),
    ensures
        mllp_run(initial_model(), f).1.len() == 1,
        mllp_encode(mllp_run(initial_model(), f).1[0]) == f,
        mllp_run(initial_model(), f).0 == initial_model(),
{
    let c = choose|c: Seq<u8>| frameable(c) && f == mllp_encode(c);
    lemma_decode_encode(c);
}

/// Two frames back to back decode to their two contents, in order — and by
/// `lemma_run_append` the same holds however the stream is split into reads.
pub proof fn lemma_decode_two_frames(c1: Seq<u8>, c2: Seq<u8>)
    requires
        frameable(c1),
        frameable(c2),
    ensures
        mllp_run(initial_model(), mllp_encode(c1) + mllp_encode(c2)) == (
            initial_model(),
            seq![c1, c2],
        ),
{
    lemma_run_append(initial_model(), mllp_encode(c1), mllp_encode(c2));
    lemma_decode_encode(c1);
    lemma_decode_encode(c2);
    assert(seq![c1] + seq![c2] =~~= seq![c1, c2]);
}

} // verus!
