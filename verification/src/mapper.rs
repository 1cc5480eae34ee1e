//! The mapper processor: reads the message content as JSON, and for each
//! configured `{source, target}` pair copies the value at the dotted source
//! path to the target path, creating objects along the way.  A missing
//! source is skipped; content that is not JSON is an error.
//!
//! A path is split on dots; a part `key[3]` reads the member `key` and then
//! the fourth array element (reading only — target paths treat the whole
//! part as a member key, as the engine always has).

use vstd::prelude::*;

use crate::bytesutil::{
    copy_bytes,
    dec_value,
    find_first,
    find_first_byte,
    lemma_split_bytes_len,
    parse_usize_bytes,
    slice_eq,
    split_bytes,
    split_bytes_exec,
    str_eq,
    string_from_utf8,
    sub_bytes,
};
use crate::json::{
    json_parse_of,
    json_text_of,
    json_to_string,
    jview,
    jview_members,
    lemma_jview_members_index,
    lemma_jview_members_len,
    lemma_jviews_index,
    lemma_jviews_len,
    parse_json,
    JModel,
    JVal,
};
use crate::message::Message;
use crate::models::Mapping;
use vstd::string::{StrSliceExecFns, StringExecFns};
use vstd::utf8::{decode_utf8, encode_utf8, valid_utf8};

verus! {

/// The dot that separates path parts.
pub const DOT: u8 = 0x2E;

/// An opening bracket.
pub const LB: u8 = 0x5B;

/// A closing bracket.
pub const RB: u8 = 0x5D;

/// A part of the form `key[digits]`.
pub open spec fn has_bracket(part: Seq<u8>) -> bool {
    find_first(part, LB) >= 0 && part.len() > 0 && part.last() == RB
}

/// The key before the bracket, or the whole part.
pub open spec fn part_key(part: Seq<u8>) -> Seq<u8> {
    if has_bracket(part) {
        part.take(find_first(part, LB))
    } else {
        part
    }
}

/// The number between the brackets, if its digits denote one.
pub open spec fn part_index(part: Seq<u8>) -> Option<nat> {
    dec_value(part.subrange(find_first(part, LB) + 1, part.len() - 1))
}

/// The first member under a key, the key compared by its UTF-8 bytes.
pub open spec fn member_value(ms: Seq<(Seq<char>, JModel)>, key: Seq<u8>) -> Option<JModel>
    decreases ms.len(),
{
    if ms.len() == 0 {
        None
    } else if encode_utf8(ms[0].0) == key {
        Some(ms[0].1)
    } else {
        member_value(ms.drop_first(), key)
    }
}

/// Reading a member: objects only.
pub open spec fn step_key(m: JModel, key: Seq<u8>) -> Option<JModel> {
    match m {
        JModel::Obj(ms) => member_value(ms, key),
        _ => None,
    }
}

/// Reading an element: arrays only.
pub open spec fn step_index(m: JModel, ix: int) -> Option<JModel> {
    match m {
        JModel::Arr(xs) => if 0 <= ix < xs.len() {
            Some(xs[ix])
        } else {
            None
        },
        _ => None,
    }
}

/// The value a part sequence leads to.
pub open spec fn get_at_parts(m: JModel, parts: Seq<Seq<u8>>) -> Option<JModel>
    decreases parts.len(),
{
    if parts.len() == 0 {
        Some(m)
    } else {
        let part = parts[0];
        if has_bracket(part) {
            let key = part_key(part);
            let m1 = if key.len() == 0 {
                Some(m)
            } else {
                step_key(m, key)
            };
            match m1 {
                None => None,
                Some(m1v) => match part_index(part) {
                    None => None,
                    Some(ix) => if ix > usize::MAX {
                        None
                    } else {
                        match step_index(m1v, ix as int) {
                            None => None,
                            Some(m2) => get_at_parts(m2, parts.drop_first()),
                        }
                    },
                },
            }
        } else {
            match step_key(m, part) {
                None => None,
                Some(m1) => get_at_parts(m1, parts.drop_first()),
            }
        }
    }
}

/// The value a dotted path reads; the bare dot and the empty path read the
/// whole value.
pub open spec fn spec_get(m: JModel, path: Seq<char>) -> Option<JModel> {
    if path == "."@ || path.len() == 0 {
        Some(m)
    } else {
        get_at_parts(m, split_bytes(encode_utf8(path), DOT))
    }
}

/// Members with the one under `key` replaced, or the new member appended.
pub open spec fn spec_upsert(ms: Seq<(Seq<char>, JModel)>, key: Seq<char>, v: JModel) -> Seq<
    (Seq<char>, JModel),
>
    decreases ms.len(),
{
    if ms.len() == 0 {
        seq![(key, v)]
    } else if ms[0].0 == key {
        seq![(key, v)] + ms.drop_first()
    } else {
        seq![ms[0]] + spec_upsert(ms.drop_first(), key, v)
    }
}

/// Writing along a part sequence: each part a member key, objects created
/// where a key is missing, anything but an object in the way an error.
pub open spec fn set_at_parts(m: JModel, parts: Seq<Seq<u8>>, v: JModel) -> Option<JModel>
    decreases parts.len(),
{
    if parts.len() == 0 {
        Some(v)
    } else {
        let part = parts[0];
        if !valid_utf8(part) {
            None
        } else {
            let key = decode_utf8(part);
            match m {
                JModel::Obj(ms) => if parts.len() == 1 {
                    Some(JModel::Obj(spec_upsert(ms, key, v)))
                } else {
                    let child = match member_value(ms, part) {
                        Some(c) => c,
                        None => JModel::Obj(Seq::empty()),
                    };
                    match set_at_parts(child, parts.drop_first(), v) {
                        None => None,
                        Some(c2) => Some(JModel::Obj(spec_upsert(ms, key, c2))),
                    }
                },
                _ => None,
            }
        }
    }
}

/// The value a dotted path writes; the bare dot and the empty path replace
/// the whole value.
pub open spec fn spec_set(m: JModel, path: Seq<char>, v: JModel) -> Option<JModel> {
    if path == "."@ || path.len() == 0 {
        Some(v)
    } else {
        set_at_parts(m, split_bytes(encode_utf8(path), DOT), v)
    }
}

/// All mappings applied in order: a missing source skips its mapping, a
/// failing write fails the whole.
pub open spec fn apply_mappings(m: JModel, maps: Seq<Mapping>) -> Option<JModel>
    decreases maps.len(),
{
    if maps.len() == 0 {
        Some(m)
    } else {
        match spec_get(m, maps[0].source@) {
            None => apply_mappings(m, maps.drop_first()),
            Some(v) => match spec_set(m, maps[0].target@, v) {
                None => None,
                Some(m2) => apply_mappings(m2, maps.drop_first()),
            },
        }
    }
}

/// A first key hit pins the member lookup.
proof fn lemma_member_at(ms: Seq<(Seq<char>, JModel)>, key: Seq<u8>, k: int)
    requires
        0 <= k < ms.len(),
        encode_utf8(ms[k].0) == key,
        forall|j: int| 0 <= j < k ==> encode_utf8(ms[j].0) != key,
    ensures
        member_value(ms, key) == Some(ms[k].1),
    decreases ms.len(),
{
    if k == 0 {
    } else {
        let rest = ms.drop_first();
        assert(forall|j: int| 0 <= j < rest.len() ==> rest[j] == ms[j + 1]);
        lemma_member_at(rest, key, k - 1);
    }
}

/// No key hit leaves the member lookup empty.
proof fn lemma_member_absent(ms: Seq<(Seq<char>, JModel)>, key: Seq<u8>)
    requires
        forall|j: int| 0 <= j < ms.len() ==> encode_utf8(ms[j].0) != key,
    ensures
        member_value(ms, key) is None,
    decreases ms.len(),
{
    if ms.len() == 0 {
    } else {
        let rest = ms.drop_first();
        assert(forall|j: int| 0 <= j < rest.len() ==> rest[j] == ms[j + 1]);
        lemma_member_absent(rest, key);
    }
}

/// Replacing a first hit is a pointwise update.
pub proof fn lemma_upsert_at(ms: Seq<(Seq<char>, JModel)>, key: Seq<char>, v: JModel, k: int)
    requires
        0 <= k < ms.len(),
        ms[k].0 == key,
        forall|j: int| 0 <= j < k ==> ms[j].0 != key,
        forall|j: int| 0 <= j < k ==> encode_utf8(ms[j].0) != encode_utf8(key),
    ensures
        spec_upsert(ms, key, v) == ms.update(k, (key, v)),
    decreases ms.len(),
{
    if k == 0 {
        assert(seq![(key, v)] + ms.drop_first() =~= ms.update(0, (key, v)));
    } else {
        let rest = ms.drop_first();
        assert(forall|j: int| 0 <= j < rest.len() ==> rest[j] == ms[j + 1]);
        lemma_upsert_at(rest, key, v, k - 1);
        assert(seq![ms[0]] + rest.update(k - 1, (key, v)) =~= ms.update(k, (key, v)));
    }
}

/// Inserting an absent key is a push.
pub proof fn lemma_upsert_absent(ms: Seq<(Seq<char>, JModel)>, key: Seq<char>, v: JModel)
    requires
        forall|j: int| 0 <= j < ms.len() ==> ms[j].0 != key,
    ensures
        spec_upsert(ms, key, v) == ms.push((key, v)),
    decreases ms.len(),
{
    if ms.len() == 0 {
        assert(seq![(key, v)] =~= ms.push((key, v)));
    } else {
        let rest = ms.drop_first();
        assert(forall|j: int| 0 <= j < rest.len() ==> rest[j] == ms[j + 1]);
        lemma_upsert_absent(rest, key, v);
        assert(seq![ms[0]] + rest.push((key, v)) =~= ms.push((key, v)));
    }
}

/// The view of updated members is the update of the views.
pub proof fn lemma_jview_members_update(ms: Seq<(String, JVal)>, k: int, p: (String, JVal))
    requires
        0 <= k < ms.len(),
    ensures
        jview_members(ms.update(k, p)) == jview_members(ms).update(k, (p.0@, jview(p.1))),
{
    lemma_jview_members_len(ms);
    lemma_jview_members_len(ms.update(k, p));
    assert forall|i: int| 0 <= i < ms.len() implies jview_members(ms.update(k, p))[i]
        == jview_members(ms).update(k, (p.0@, jview(p.1)))[i] by {
        lemma_jview_members_index(ms.update(k, p), i);
        lemma_jview_members_index(ms, i);
    }
    assert(jview_members(ms.update(k, p)) =~~= jview_members(ms).update(k, (p.0@, jview(p.1))));
}

/// The position of the first member whose key has these bytes.
pub fn member_index(ms: &Vec<(String, JVal)>, key: &[u8]) -> (r: Option<usize>)
    ensures
        match r {
            Some(f) => f < ms@.len() && encode_utf8(ms@[f as int].0@) == key@ && forall|j: int|
                0 <= j < f ==> encode_utf8(#[trigger] ms@[j].0@) != key@,
            None => forall|j: int| 0 <= j < ms@.len() ==> encode_utf8(#[trigger] ms@[j].0@) != key@,
        },
{
    let n = ms.len();
    let mut k: usize = 0;
    while k < n
        invariant
            n == ms@.len(),
            k <= n,
            forall|j: int| 0 <= j < k ==> encode_utf8(#[trigger] ms@[j].0@) != key@,
        decreases n - k,
    {
        if slice_eq(ms[k].0.as_str().as_bytes(), key) {
            return Some(k);
        }
        k += 1;
    }
    None
}

/// The member under a key, by reference.
fn obj_member<'a>(v: &'a JVal, key: &[u8]) -> (r: Option<&'a JVal>)
    ensures
        match r {
            Some(m) => step_key(jview(*v), key@) == Some(jview(*m)),
            None => step_key(jview(*v), key@) is None,
        },
{
    match v {
        JVal::Obj(ms) => {
            proof {
                lemma_jview_members_len(ms@);
            }
            match member_index(ms, key) {
                Some(f) => {
                    proof {
                        assert forall|j: int| 0 <= j <= f implies #[trigger] jview_members(ms@)[j]
                            == (ms@[j].0@, jview(ms@[j].1)) by {
                            lemma_jview_members_index(ms@, j);
                        }
                        lemma_member_at(jview_members(ms@), key@, f as int);
                    }
                    Some(&ms[f].1)
                },
                None => {
                    proof {
                        assert forall|j: int|
                            0 <= j < ms@.len() implies #[trigger] jview_members(ms@)[j] == (
                            ms@[j].0@,
                            jview(ms@[j].1),
                        ) by {
                            lemma_jview_members_index(ms@, j);
                        }
                        lemma_member_absent(jview_members(ms@), key@);
                    }
                    None
                },
            }
        },
        _ => None,
    }
}

/// The array element at an index, by reference.
fn arr_element<'a>(v: &'a JVal, ix: usize) -> (r: Option<&'a JVal>)
    ensures
        match r {
            Some(m) => step_index(jview(*v), ix as int) == Some(jview(*m)),
            None => step_index(jview(*v), ix as int) is None,
        },
{
    match v {
        JVal::Arr(xs) => {
            proof {
                lemma_jviews_len(xs@);
            }
            if ix < xs.len() {
                proof {
                    lemma_jviews_index(xs@, ix as int);
                }
                Some(&xs[ix])
            } else {
                None
            }
        },
        _ => None,
    }
}

pub struct MapperProcessor {
    pub mappings: Vec<Mapping>,
}

impl MapperProcessor {
    pub fn new(mappings: Vec<Mapping>) -> (r: Self)
        ensures
            r.mappings == mappings,
    {
        MapperProcessor { mappings }
    }

    /// Reads the value at a dotted path, as `spec_get` states.
    pub fn get_value_by_path(&self, json: &JVal, path: &str) -> (r: Option<JVal>)
        ensures
            match r {
                Some(v) => spec_get(jview(*json), path@) == Some(jview(v)),
                None => spec_get(jview(*json), path@) is None,
            },
    {
        if str_eq(path, ".") || path.unicode_len() == 0 {
            return Some(json.duplicate());
        }
        let parts = split_bytes_exec(path.as_bytes(), DOT);
        let ghost parts_spec = split_bytes(encode_utf8(path@), DOT);
        proof {
            lemma_split_bytes_len(encode_utf8(path@), DOT);
            assert(parts.deep_view().len() == parts@.len());
        }
        let n = parts.len();
        let mut cur: &JVal = json;
        let mut i: usize = 0;
        proof {
            assert(parts_spec.skip(0) =~= parts_spec);
        }
        while i < n
            invariant
                n == parts@.len(),
                n == parts_spec.len(),
                parts.deep_view() == parts_spec,
                i <= n,
                spec_get(jview(*json), path@) == get_at_parts(jview(*json), parts_spec),
                get_at_parts(jview(*json), parts_spec) == get_at_parts(
                    jview(*cur),
                    parts_spec.skip(i as int),
                ),
            decreases n - i,
        {
            let part = &parts[i];
            proof {
                assert(parts.deep_view()[i as int] == parts@[i as int]@);
                assert(parts_spec.skip(i as int)[0] == parts_spec[i as int]);
                assert(parts_spec.skip(i as int).drop_first() =~= parts_spec.skip(i + 1));
            }
            let bracket_at: Option<usize> = match find_first_byte(part.as_slice(), LB) {
                Some(b) => if part.len() > 0 && part[part.len() - 1] == RB {
                    Some(b)
                } else {
                    None
                },
                None => None,
            };
            match bracket_at {
                Some(b) => {
                    assert(has_bracket(parts_spec[i as int]));
                    let key = sub_bytes(part.as_slice(), 0, b);
                    let after_key: &JVal = if key.len() == 0 {
                        cur
                    } else {
                        match obj_member(cur, key.as_slice()) {
                            Some(m) => m,
                            None => {
                                return None;
                            },
                        }
                    };
                    proof {
                        assert(part@[b as int] == LB);
                        assert(part@[part@.len() - 1] == RB);
                        assert(b as int != part@.len() - 1);
                    }
                    let idx_bytes = sub_bytes(part.as_slice(), b + 1, part.len() - 1);
                    match parse_usize_bytes(idx_bytes.as_slice()) {
                        None => {
                            return None;
                        },
                        Some(ix) => {
                            match arr_element(after_key, ix) {
                                Some(m) => {
                                    cur = m;
                                },
                                None => {
                                    return None;
                                },
                            }
                        },
                    }
                },
                None => {
                    assert(!has_bracket(parts_spec[i as int]));
                    match obj_member(cur, part.as_slice()) {
                        Some(m) => {
                            cur = m;
                        },
                        None => {
                            return None;
                        },
                    }
                },
            }
            i += 1;
        }
        proof {
            assert(parts_spec.skip(n as int) =~= Seq::<Seq<u8>>::empty());
        }
        Some(cur.duplicate())
    }

    /// Writes a value at a dotted path, as `spec_set` states; the value that
    /// results is handed back.
    pub fn set_value_by_path(&self, json: JVal, path: &str, value: JVal) -> (r: Result<
        JVal,
        String,
    >)
        ensures
            match r {
                Ok(j2) => spec_set(jview(json), path@, jview(value)) == Some(jview(j2)),
                Err(_) => spec_set(jview(json), path@, jview(value)) is None,
            },
    {
        if str_eq(path, ".") || path.unicode_len() == 0 {
            return Ok(value);
        }
        let parts = split_bytes_exec(path.as_bytes(), DOT);
        proof {
            lemma_split_bytes_len(encode_utf8(path@), DOT);
            assert(parts.deep_view().len() == parts@.len());
            assert(parts.deep_view().skip(0) =~= parts.deep_view());
        }
        set_rec(json, &parts, 0, value)
    }

    /// Applies every mapping to the message content, read as JSON.
    pub fn process(&self, msg: Message) -> (r: Result<Message, String>)
        ensures
            match json_parse_of(msg.content@) {
                None => r is Err,
                Some(m) => match apply_mappings(m, self.mappings@) {
                    None => r is Err,
                    Some(m2) => r matches Ok(out) && out.content@ == json_text_of(m2) && out.id
                        == msg.id && out.channel_id == msg.channel_id && out.origin == msg.origin,
                },
            },
    {
        apply_mapper(&self.mappings, msg)
    }
}

/// Applies every mapping of the list to the message content, read as JSON —
/// the work behind `MapperProcessor::process`.
pub fn apply_mapper(mappings: &Vec<Mapping>, msg: Message) -> (r: Result<Message, String>)
    ensures
        match json_parse_of(msg.content@) {
            None => r is Err,
            Some(m) => match apply_mappings(m, mappings@) {
                None => r is Err,
                Some(m2) => r matches Ok(out) && out.content@ == json_text_of(m2) && out.id
                    == msg.id && out.channel_id == msg.channel_id && out.origin == msg.origin,
            },
        },
{
    let parsed = match parse_json(msg.content.as_str()) {
        Some(v) => v,
        None => {
            return Err(String::from_str("Mapper requires JSON input"));
        },
    };
    let ghost m0 = jview(parsed);
    let helper = MapperProcessor { mappings: Vec::new() };
    let n = mappings.len();
    let mut cur = parsed;
    let mut i: usize = 0;
    proof {
        assert(mappings@.skip(0) =~= mappings@);
    }
    while i < n
        invariant
            n == mappings@.len(),
            i <= n,
            json_parse_of(msg.content@) == Some(m0),
            apply_mappings(m0, mappings@) == apply_mappings(
                jview(cur),
                mappings@.skip(i as int),
            ),
        decreases n - i,
    {
        proof {
            assert(mappings@.skip(i as int)[0] == mappings@[i as int]);
            assert(mappings@.skip(i as int).drop_first() =~= mappings@.skip(i + 1));
        }
        let mapping = &mappings[i];
        match helper.get_value_by_path(&cur, mapping.source.as_str()) {
            Some(v) => {
                match helper.set_value_by_path(cur, mapping.target.as_str(), v) {
                    Ok(j2) => {
                        cur = j2;
                    },
                    Err(e) => {
                        return Err(e);
                    },
                }
            },
            None => {},
        }
        i += 1;
    }
    proof {
        assert(mappings@.skip(n as int) =~= Seq::<Mapping>::empty());
    }
    let text = json_to_string(cur);
    Ok(msg.with_content(text))
}

/// Writes `value` along `parts[pos..]` into `v`.
fn set_rec(v: JVal, parts: &Vec<Vec<u8>>, pos: usize, value: JVal) -> (r: Result<JVal, String>)
    requires
        pos < parts@.len(),
        parts.deep_view().len() == parts@.len(),
    ensures
        match r {
            Ok(j2) => set_at_parts(jview(v), parts.deep_view().skip(pos as int), jview(value))
                == Some(jview(j2)),
            Err(_) => set_at_parts(jview(v), parts.deep_view().skip(pos as int), jview(value))
                is None,
        },
    decreases parts@.len() - pos,
{
    let ghost spec_parts = parts.deep_view().skip(pos as int);
    proof {
        assert(spec_parts[0] == parts.deep_view()[pos as int]);
        assert(parts.deep_view()[pos as int] == parts@[pos as int]@);
        assert(spec_parts.drop_first() =~= parts.deep_view().skip(pos + 1));
    }
    let part = &parts[pos];
    let key = match string_from_utf8(copy_bytes(part.as_slice())) {
        Some(k) => k,
        None => {
            return Err(String::from_str("Path part is not valid text"));
        },
    };
    assert(valid_utf8(spec_parts[0]));
    assert(key@ == decode_utf8(spec_parts[0]));
    match v {
        JVal::Obj(ms) => {
            let mut ms = ms;
            let ghost ms_orig = ms@;
            let ghost mviews = jview_members(ms@);
            proof {
                lemma_jview_members_len(ms@);
                assert forall|j: int| 0 <= j < ms@.len() implies #[trigger] jview_members(ms@)[j]
                    == (ms@[j].0@, jview(ms@[j].1)) by {
                    lemma_jview_members_index(ms@, j);
                }
            }
            let found = member_index(&ms, part.as_slice());
            proof {
                vstd::utf8::decode_utf8_encode_utf8(spec_parts[0]);
                assert(encode_utf8(key@) == spec_parts[0]);
                match found {
                    Some(f) => {
                        lemma_member_at(mviews, spec_parts[0], f as int);
                        vstd::utf8::encode_utf8_decode_utf8(mviews[f as int].0);
                        assert(mviews[f as int].0 == key@);
                        assert forall|j: int| 0 <= j < f implies mviews[j].0 != key@ by {
                            assert(encode_utf8(mviews[j].0) != spec_parts[0]);
                        }
                    },
                    None => {
                        lemma_member_absent(mviews, spec_parts[0]);
                        assert forall|j: int| 0 <= j < mviews.len() implies mviews[j].0
                            != key@ by {
                            assert(encode_utf8(mviews[j].0) != spec_parts[0]);
                        }
                    },
                }
            }
            let is_last = pos == parts.len() - 1;
            if is_last {
                assert(spec_parts.len() == 1);
                match found {
                    Some(f) => {
                        proof {
                            lemma_upsert_at(mviews, key@, jview(value), f as int);
                        }
                        ms.remove(f);
                        ms.insert(f, (key, value));
                        proof {
                            assert(ms@ =~= ms_orig.update(f as int, (key, value)));
                            lemma_jview_members_update(ms_orig, f as int, (key, value));
                        }
                        Ok(JVal::Obj(ms))
                    },
                    None => {
                        proof {
                            lemma_upsert_absent(mviews, key@, jview(value));
                        }
                        ms.push((key, value));
                        proof {
                            assert(ms@.drop_last() =~= ms_orig);
                        }
                        Ok(JVal::Obj(ms))
                    },
                }
            } else {
                let (child, at): (JVal, Option<usize>) = match found {
                    Some(f) => {
                        let pair = ms.remove(f);
                        (pair.1, Some(f))
                    },
                    None => (JVal::Obj(Vec::new()), None),
                };
                proof {
                    match at {
                        Some(f) => {
                            assert(jview(child) == mviews[f as int].1);
                            assert(member_value(mviews, spec_parts[0]) == Some(jview(child)));
                        },
                        None => {
                            assert(jview_members(Seq::<(String, JVal)>::empty())
                                =~= Seq::<(Seq<char>, JModel)>::empty());
                            assert(jview(child) == JModel::Obj(Seq::empty()));
                        },
                    }
                }
                let child2 = match set_rec(child, parts, pos + 1, value) {
                    Ok(c) => c,
                    Err(e) => {
                        return Err(e);
                    },
                };
                match at {
                    Some(f) => {
                        proof {
                            lemma_upsert_at(mviews, key@, jview(child2), f as int);
                        }
                        let ghost ms_removed = ms@;
                        ms.insert(f, (key, child2));
                        proof {
                            assert(ms_removed =~= ms_orig.remove(f as int));
                            assert(ms@ =~= ms_orig.update(f as int, (key, child2)));
                            lemma_jview_members_update(ms_orig, f as int, (key, child2));
                        }
                        Ok(JVal::Obj(ms))
                    },
                    None => {
                        proof {
                            lemma_upsert_absent(mviews, key@, jview(child2));
                        }
                        ms.push((key, child2));
                        proof {
                            assert(ms@.drop_last() =~= ms_orig);
                        }
                        Ok(JVal::Obj(ms))
                    },
                }
            }
        },
        _ => Err(String::from_str("Cannot navigate path: parent is not an object")),
    }
}

} // verus!
