//! HL7 acknowledgment building.  Given a received frame, the MSH segment is
//! read, sending and receiving application and facility are swapped, and an
//! `MSA|AA|<control id>` answer is framed.  A missing or truncated MSH gets
//! a minimal fallback acknowledgment.

use vstd::prelude::*;

use crate::bytesutil::{extend_bytes, lemma_split_bytes_len, split_bytes, split_bytes_exec};
use crate::clock::now_compact_timestamp;
use crate::ids::new_id_string;
use crate::mllp::{CR, EB, SB};
use vstd::string::{StrSliceExecFns, StringSliceAdditionalSpecFns};

verus! {

/// The field separator of an HL7 segment.
pub const PIPE: u8 = 0x7C;

/// The bytes of `"MSH|^~\&|"`.
pub open spec fn lit_msh_header() -> Seq<u8> {
    seq![77u8, 83u8, 72u8, 124u8, 94u8, 126u8, 92u8, 38u8, 124u8]
}

/// The bytes of `"||ACK|"`.
pub open spec fn lit_ack_mid() -> Seq<u8> {
    seq![124u8, 124u8, 65u8, 67u8, 75u8, 124u8]
}

/// The bytes of `"|P|2.3"`.
pub open spec fn lit_version() -> Seq<u8> {
    seq![124u8, 80u8, 124u8, 50u8, 46u8, 51u8]
}

/// The bytes of `"MSA|AA|"`.
pub open spec fn lit_msa_aa() -> Seq<u8> {
    seq![77u8, 83u8, 65u8, 124u8, 65u8, 65u8, 124u8]
}

/// The bytes of `"MSA|AA|Unknown|"`.
pub open spec fn lit_msa_unknown() -> Seq<u8> {
    seq![
        77u8,
        83u8,
        65u8,
        124u8,
        65u8,
        65u8,
        124u8,
        85u8,
        110u8,
        107u8,
        110u8,
        111u8,
        119u8,
        110u8,
        124u8,
    ]
}

/// The acknowledgment frame for a received message, with the timestamp and
/// the fresh control id given as arguments.  The first CR-separated segment
/// is read as MSH; with fewer than ten fields the fallback frame is built,
/// otherwise applications and facilities are swapped and the original
/// control id (MSH-10) is acknowledged.
pub open spec fn ack_bytes(msg: Seq<u8>, ts: Seq<u8>, ctrl: Seq<u8>) -> Seq<u8> {
    let segments = split_bytes(msg, CR);
    let msh = split_bytes(segments[0], PIPE);
    if msh.len() < 10 {
        seq![SB] + lit_msa_unknown() + ts + seq![EB, CR]
    } else {
        seq![SB] + lit_msh_header() + msh[4] + seq![PIPE] + msh[5] + seq![PIPE] + msh[2] + seq![
            PIPE,
        ] + msh[3] + seq![PIPE] + ts + lit_ack_mid() + ctrl + lit_version() + seq![CR]
            + lit_msa_aa() + msh[9] + seq![EB, CR]
    }
}

/// Pushes the bytes of `"MSH|^~\&|"`.
fn push_msh_header(dst: &mut Vec<u8>)
    ensures
        final(dst)@ == old(dst)@ + lit_msh_header(),
{
    dst.push(77);
    dst.push(83);
    dst.push(72);
    dst.push(124);
    dst.push(94);
    dst.push(126);
    dst.push(92);
    dst.push(38);
    dst.push(124);
    assert(dst@ =~= old(dst)@ + lit_msh_header());
}

/// Pushes the bytes of `"||ACK|"`.
fn push_ack_mid(dst: &mut Vec<u8>)
    ensures
        final(dst)@ == old(dst)@ + lit_ack_mid(),
{
    dst.push(124);
    dst.push(124);
    dst.push(65);
    dst.push(67);
    dst.push(75);
    dst.push(124);
    assert(dst@ =~= old(dst)@ + lit_ack_mid());
}

/// Pushes the bytes of `"|P|2.3"`.
fn push_version(dst: &mut Vec<u8>)
    ensures
        final(dst)@ == old(dst)@ + lit_version(),
{
    dst.push(124);
    dst.push(80);
    dst.push(124);
    dst.push(50);
    dst.push(46);
    dst.push(51);
    assert(dst@ =~= old(dst)@ + lit_version());
}

/// Pushes the bytes of `"MSA|AA|"`.
fn push_msa_aa(dst: &mut Vec<u8>)
    ensures
        final(dst)@ == old(dst)@ + lit_msa_aa(),
{
    dst.push(77);
    dst.push(83);
    dst.push(65);
    dst.push(124);
    dst.push(65);
    dst.push(65);
    dst.push(124);
    assert(dst@ =~= old(dst)@ + lit_msa_aa());
}

/// Pushes the bytes of `"MSA|AA|Unknown|"`.
fn push_msa_unknown(dst: &mut Vec<u8>)
    ensures
        final(dst)@ == old(dst)@ + lit_msa_unknown(),
{
    dst.push(77);
    dst.push(83);
    dst.push(65);
    dst.push(124);
    dst.push(65);
    dst.push(65);
    dst.push(124);
    dst.push(85);
    dst.push(110);
    dst.push(107);
    dst.push(110);
    dst.push(111);
    dst.push(119);
    dst.push(110);
    dst.push(124);
    assert(dst@ =~= old(dst)@ + lit_msa_unknown());
}

/// Builds the acknowledgment frame for a received message from the given
/// timestamp and control id, byte for byte as `ack_bytes` states.
pub fn build_ack(msg: &[u8], ts: &[u8], ctrl: &[u8]) -> (r: Vec<u8>)
    ensures
        r@ == ack_bytes(msg@, ts@, ctrl@),
{
    proof {
        lemma_split_bytes_len(msg@, CR);
    }
    let segments = split_bytes_exec(msg, CR);
    let ghost seg_spec = split_bytes(msg@, CR);
    assert(segments.deep_view() =~~= seg_spec);
    assert(segments@.len() == seg_spec.len());
    assert(segments@[0]@ == seg_spec[0]);
    let msh = split_bytes_exec(segments[0].as_slice(), PIPE);
    let ghost msh_spec = split_bytes(seg_spec[0], PIPE);
    assert(msh.deep_view() =~~= msh_spec);
    assert(msh@.len() == msh_spec.len());
    let mut r: Vec<u8> = Vec::new();
    r.push(SB);
    if msh.len() < 10 {
        push_msa_unknown(&mut r);
        extend_bytes(&mut r, ts);
        r.push(EB);
        r.push(CR);
        assert(r@ =~= ack_bytes(msg@, ts@, ctrl@));
    } else {
        assert(forall|k: int| 0 <= k < msh_spec.len() ==> msh@[k]@ == msh_spec[k]);
        push_msh_header(&mut r);
        extend_bytes(&mut r, msh[4].as_slice());
        r.push(PIPE);
        extend_bytes(&mut r, msh[5].as_slice());
        r.push(PIPE);
        extend_bytes(&mut r, msh[2].as_slice());
        r.push(PIPE);
        extend_bytes(&mut r, msh[3].as_slice());
        r.push(PIPE);
        extend_bytes(&mut r, ts);
        push_ack_mid(&mut r);
        extend_bytes(&mut r, ctrl);
        push_version(&mut r);
        r.push(CR);
        push_msa_aa(&mut r);
        extend_bytes(&mut r, msh[9].as_slice());
        r.push(EB);
        r.push(CR);
        assert(r@ =~= ack_bytes(msg@, ts@, ctrl@));
    }
    r
}

/// Timestamp bytes as the acknowledgment uses them: ASCII digits.
pub open spec fn all_digit_bytes(ts: Seq<u8>) -> bool {
    forall|i: int| 0 <= i < ts.len() ==> 48 <= #[trigger] ts[i] <= 57
}

/// Control-id bytes as the acknowledgment uses them: ASCII throughout.
pub open spec fn all_ascii_bytes(s: Seq<u8>) -> bool {
    forall|i: int| 0 <= i < s.len() ==> #[trigger] s[i] < 128
}

/// Generates the acknowledgment for a received HL7 frame, stamped with the
/// current UTC time and a fresh control id: for some digit timestamp and
/// 36-character ASCII control id, the result is exactly the `ack_bytes`
/// frame, read as text.
pub fn generate_ack(hl7_msg: &str) -> (r: String)
    ensures
        exists|ts: Seq<u8>, ctrl: Seq<u8>|
            #![trigger ack_bytes(hl7_msg.spec_bytes(), ts, ctrl)]
            {
                &&& all_digit_bytes(ts)
                &&& ts.len() >= 14
                &&& all_ascii_bytes(ctrl)
                &&& ctrl.len() == 36
                &&& r@ == crate::bytesutil::lossy_text_of(
                    ack_bytes(hl7_msg.spec_bytes(), ts, ctrl),
                )
                &&& (vstd::utf8::valid_utf8(ack_bytes(hl7_msg.spec_bytes(), ts, ctrl)) ==> r@
                    == vstd::utf8::decode_utf8(ack_bytes(hl7_msg.spec_bytes(), ts, ctrl)))
            },
{
    let ts = now_compact_timestamp();
    let ctrl = new_id_string();
    let ack = build_ack(hl7_msg.as_bytes(), ts.as_str().as_bytes(), ctrl.as_str().as_bytes());
    let ghost ts_bytes = vstd::utf8::encode_utf8(ts@);
    let ghost ctrl_bytes = vstd::utf8::encode_utf8(ctrl@);
    proof {
        assert(vstd::utf8::is_ascii_chars(ts@)) by {
            assert(forall|i: int| 0 <= i < ts@.len() ==> (#[trigger] ts@[i]) < 128);
        }
        assert(vstd::utf8::is_ascii_chars(ctrl@));
        vstd::utf8::is_ascii_chars_encode_utf8(ts@);
        vstd::utf8::is_ascii_chars_encode_utf8(ctrl@);
        assert(all_digit_bytes(ts_bytes));
        assert(ts_bytes.len() >= 14);
        assert(all_ascii_bytes(ctrl_bytes));
        assert(ctrl_bytes.len() == 36);
    }
    crate::bytesutil::string_from_utf8_lossy(ack.as_slice())
}

} // verus!
