//! The HL7 flattener: splits a message into segments on carriage returns
//! (line feeds where a message has none), each segment into fields on the
//! pipe, and builds a JSON object keyed by segment name with the field list
//! as value.  A repeated segment name overwrites the earlier one — a known
//! limitation of this processor.  At most a thousand segments and a hundred
//! fields each are read; a segment of nothing but ASCII whitespace is
//! skipped.

use vstd::prelude::*;

use crate::bytesutil::{find_first, find_first_byte, split_bytes, split_bytes_exec, string_from_utf8};
use crate::json::{
    json_text_of,
    json_to_string,
    jview,
    jview_members,
    jviews,
    lemma_jview_members_index,
    lemma_jview_members_len,
    JModel,
    JVal,
};
use crate::mapper::{lemma_upsert_at, lemma_upsert_absent, lemma_jview_members_update, spec_upsert};
use crate::mllp::CR;
use vstd::string::{StrSliceExecFns, StringSliceAdditionalSpecFns};
use vstd::utf8::{decode_utf8, valid_utf8};

verus! {

/// The line feed, the fallback segment separator.
pub const LF: u8 = 0x0A;

/// The field separator.
pub const PIPE: u8 = 0x7C;

/// The most segments the flattener reads.
pub const MAX_HL7_SEGMENTS: usize = 1000;

/// The most fields it reads per segment.
pub const MAX_HL7_FIELDS: usize = 100;

/// Carriage return where one occurs, else line feed.
pub open spec fn hl7_sep(content: Seq<u8>) -> u8 {
    if find_first(content, CR) >= 0 {
        CR
    } else {
        LF
    }
}

/// The segments read: the split, capped.
pub open spec fn capped_segments(content: Seq<u8>) -> Seq<Seq<u8>> {
    let segs = split_bytes(content, hl7_sep(content));
    if segs.len() > MAX_HL7_SEGMENTS {
        segs.take(MAX_HL7_SEGMENTS as int)
    } else {
        segs
    }
}

/// The fields read from one segment: the split, capped.
pub open spec fn capped_fields(seg: Seq<u8>) -> Seq<Seq<u8>> {
    let fs = split_bytes(seg, PIPE);
    if fs.len() > MAX_HL7_FIELDS {
        fs.take(MAX_HL7_FIELDS as int)
    } else {
        fs
    }
}

/// An ASCII whitespace byte.
pub open spec fn is_ascii_ws(b: u8) -> bool {
    b == 32 || (9 <= b <= 13)
}

/// Nothing but whitespace (or nothing at all).
pub open spec fn seg_blank(seg: Seq<u8>) -> bool {
    forall|i: int| 0 <= i < seg.len() ==> is_ascii_ws(#[trigger] seg[i])
}

/// Every read field decodes as text.
pub open spec fn seg_fields_valid(seg: Seq<u8>) -> bool {
    forall|i: int| 0 <= i < capped_fields(seg).len() ==> valid_utf8(#[trigger] capped_fields(seg)[i])
}

/// The fields of a segment as JSON strings.
pub open spec fn fields_models(fs: Seq<Seq<u8>>) -> Seq<JModel>
    decreases fs.len(),
{
    if fs.len() == 0 {
        Seq::empty()
    } else {
        fields_models(fs.drop_last()).push(JModel::Str(decode_utf8(fs.last())))
    }
}

/// Segments folded into object members, later segments overwriting earlier
/// ones of the same name.
pub open spec fn hl7_fold(ms: Seq<(Seq<char>, JModel)>, segs: Seq<Seq<u8>>) -> Seq<
    (Seq<char>, JModel),
>
    decreases segs.len(),
{
    if segs.len() == 0 {
        ms
    } else {
        let seg = segs[0];
        if seg_blank(seg) || !seg_fields_valid(seg) {
            hl7_fold(ms, segs.drop_first())
        } else {
            let fields = capped_fields(seg);
            let name = decode_utf8(fields[0]);
            let value = JModel::Arr(fields_models(fields));
            hl7_fold(spec_upsert(ms, name, value), segs.drop_first())
        }
    }
}

/// The object a message flattens to.
pub open spec fn hl7_model(content: Seq<u8>) -> JModel {
    JModel::Obj(hl7_fold(Seq::empty(), capped_segments(content)))
}

/// Whether a segment is nothing but ASCII whitespace.
fn seg_blank_exec(seg: &[u8]) -> (r: bool)
    ensures
        r == seg_blank(seg@),
{
    let n = seg.len();
    let mut i: usize = 0;
    while i < n
        invariant
            n == seg@.len(),
            i <= n,
            forall|j: int| 0 <= j < i ==> is_ascii_ws(#[trigger] seg@[j]),
        decreases n - i,
    {
        let b = seg[i];
        if !(b == 32 || (9 <= b && b <= 13)) {
            return false;
        }
        i += 1;
    }
    true
}

/// Flattens HL7 text to its JSON object, serialized.
pub fn hl7_flatten(content: &str) -> (r: String)
    ensures
        r@ == json_text_of(hl7_model(content.spec_bytes())),
{
    let bytes = content.as_bytes();
    let sep = match find_first_byte(bytes, CR) {
        Some(_) => CR,
        None => LF,
    };
    assert(sep == hl7_sep(content.spec_bytes()));
    let mut segments = split_bytes_exec(bytes, sep);
    let ghost pre_segs = segments.deep_view();
    proof {
        assert(pre_segs.len() == segments@.len());
    }
    if segments.len() > MAX_HL7_SEGMENTS {
        segments.truncate(MAX_HL7_SEGMENTS);
        proof {
            assert(segments.deep_view().len() == segments@.len());
            assert forall|j: int| 0 <= j < MAX_HL7_SEGMENTS implies segments.deep_view()[j]
                == pre_segs[j] by {
                assert(segments@[j]@ == pre_segs[j]);
            }
            assert(segments.deep_view() =~~= capped_segments(content.spec_bytes()));
        }
    }
    proof {
        assert(segments.deep_view() =~~= capped_segments(content.spec_bytes()));
    }
    let ghost segs_spec = capped_segments(content.spec_bytes());
    let mut members: Vec<(String, JVal)> = Vec::new();
    let n = segments.len();
    let mut i: usize = 0;
    proof {
        assert(segs_spec.skip(0) =~= segs_spec);
        assert(jview_members(members@) =~= Seq::<(Seq<char>, JModel)>::empty());
    }
    while i < n
        invariant
            n == segments@.len(),
            n == segs_spec.len(),
            segments.deep_view() == segs_spec,
            i <= n,
            hl7_fold(Seq::empty(), segs_spec) == hl7_fold(
                jview_members(members@),
                segs_spec.skip(i as int),
            ),
        decreases n - i,
    {
        proof {
            assert(segments.deep_view()[i as int] == segments@[i as int]@);
            assert(segs_spec.skip(i as int)[0] == segs_spec[i as int]);
            assert(segs_spec.skip(i as int).drop_first() =~= segs_spec.skip(i + 1));
        }
        let seg = &segments[i];
        if !seg_blank_exec(seg.as_slice()) {
            let mut fields = split_bytes_exec(seg.as_slice(), PIPE);
            let ghost pre_fields = fields.deep_view();
            proof {
                assert(pre_fields.len() == fields@.len());
            }
            if fields.len() > MAX_HL7_FIELDS {
                fields.truncate(MAX_HL7_FIELDS);
                proof {
                    assert(fields.deep_view().len() == fields@.len());
                    assert forall|k: int| 0 <= k < MAX_HL7_FIELDS implies fields.deep_view()[k]
                        == pre_fields[k] by {
                        assert(fields@[k]@ == pre_fields[k]);
                    }
                    assert(fields.deep_view() =~~= capped_fields(segs_spec[i as int]));
                }
            }
            proof {
                assert(fields.deep_view() =~~= capped_fields(segs_spec[i as int]));
                crate::bytesutil::lemma_split_bytes_len(segs_spec[i as int], PIPE);
            }
            let ghost fspec = capped_fields(segs_spec[i as int]);
            let m = fields.len();
            let mut texts: Vec<JVal> = Vec::new();
            let mut k: usize = 0;
            let mut all_valid = true;
            proof {
                assert(jviews(texts@) =~= fields_models(fspec.take(0)));
            }
            while k < m
                invariant
                    m == fields@.len(),
                    m == fspec.len(),
                    fields.deep_view() == fspec,
                    k <= m,
                    all_valid ==> forall|j: int| 0 <= j < k ==> valid_utf8(#[trigger] fspec[j]),
                    all_valid ==> texts@.len() == k,
                    all_valid ==> jviews(texts@) == fields_models(fspec.take(k as int)),
                    !all_valid ==> exists|j: int| 0 <= j < k && !valid_utf8(#[trigger] fspec[j]),
                decreases m - k,
            {
                proof {
                    assert(fields.deep_view()[k as int] == fields@[k as int]@);
                }
                if all_valid {
                    match string_from_utf8(crate::bytesutil::copy_bytes(fields[k].as_slice())) {
                        Some(s) => {
                            let ghost t0 = texts@;
                            proof {
                                assert(s@ == decode_utf8(fspec[k as int]));
                            }
                            texts.push(JVal::Str(s));
                            proof {
                                assert(texts@.drop_last() =~= t0);
                                assert(texts@.last() == JVal::Str(s));
                                assert(jview(JVal::Str(s)) == JModel::Str(s@));
                                assert(jviews(texts@) == jviews(t0).push(JModel::Str(s@)));
                                assert(fspec.take(k + 1).drop_last() =~= fspec.take(k as int));
                                assert(fspec.take(k + 1).last() == fspec[k as int]);
                                assert(fields_models(fspec.take(k + 1)) == fields_models(
                                    fspec.take(k as int),
                                ).push(JModel::Str(decode_utf8(fspec[k as int]))));
                            }
                        },
                        None => {
                            all_valid = false;
                        },
                    }
                }
                k += 1;
            }
            if all_valid {
                proof {
                    assert(fspec.take(m as int) =~= fspec);
                    assert(seg_fields_valid(segs_spec[i as int]));
                    assert(fspec.len() >= 1);
                    assert(fields.deep_view()[0] == fields@[0]@);
                    assert(valid_utf8(fspec[0]));
                }
                let name = match string_from_utf8(
                    crate::bytesutil::copy_bytes(fields[0].as_slice()),
                ) {
                    Some(s) => s,
                    None => {
                        proof {
                            assert(valid_utf8(fspec[0]));
                            assert(false);
                        }
                        return json_to_string(JVal::Obj(members));
                    },
                };
                let ghost mviews = jview_members(members@);
                let ghost ms_orig = members@;
                proof {
                    lemma_jview_members_len(members@);
                    assert forall|j: int|
                        0 <= j < members@.len() implies #[trigger] jview_members(members@)[j] == (
                        members@[j].0@,
                        jview(members@[j].1),
                    ) by {
                        lemma_jview_members_index(members@, j);
                    }
                }
                let value = JVal::Arr(texts);
                assert(jview(value) == JModel::Arr(fields_models(fspec)));
                let found = crate::mapper::member_index(&members, name.as_str().as_bytes());
                match found {
                    Some(fi) => {
                        proof {
                            vstd::utf8::encode_utf8_decode_utf8(mviews[fi as int].0);
                            vstd::utf8::encode_utf8_decode_utf8(name@);
                            assert(mviews[fi as int].0 == name@);
                            assert forall|j: int| 0 <= j < fi implies mviews[j].0 != name@ by {
                                assert(mviews[j].0 == members@[j].0@);
                            }
                            lemma_upsert_at(mviews, name@, jview(value), fi as int);
                        }
                        members.remove(fi);
                        members.insert(fi, (name, value));
                        proof {
                            assert(members@ =~= ms_orig.update(fi as int, (name, value)));
                            lemma_jview_members_update(ms_orig, fi as int, (name, value));
                        }
                    },
                    None => {
                        proof {
                            assert forall|j: int|
                                0 <= j < mviews.len() implies mviews[j].0 != name@ by {
                                assert(mviews[j].0 == members@[j].0@);
                                if mviews[j].0 == name@ {
                                    assert(vstd::utf8::encode_utf8(members@[j].0@)
                                        == vstd::utf8::encode_utf8(name@));
                                }
                            }
                            lemma_upsert_absent(mviews, name@, jview(value));
                        }
                        members.push((name, value));
                        proof {
                            assert(members@.drop_last() =~= ms_orig);
                        }
                    },
                }
            }
        }
        i += 1;
    }
    proof {
        assert(segs_spec.skip(n as int) =~= Seq::<Seq<u8>>::empty());
    }
    json_to_string(JVal::Obj(members))
}

} // verus!
