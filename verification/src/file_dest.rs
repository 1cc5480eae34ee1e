//! The file destination's decisions: filename sanitization, path
//! normalization, filename patterns and content encoding.  The write itself
//! is I/O and lives outside this crate; everything that decides what is
//! written where is here, and no sanitized filename ever carries a path
//! separator, a NUL or a control character, nor does a normalized path keep
//! a `..` anywhere.

use vstd::prelude::*;

use crate::bytesutil::{
    chars_to_string,
    contains_seq,
    contains_sub,
    extend_chars,
    lower_byte,
    push_char,
    slice_eq,
    split_chars,
    split_chars_exec,
    str_chars,
    to_lower_bytes,
};
use crate::clock::{now_date_for_filename, now_stamp_for_filename};
use crate::ids::{id_text, id_to_string};
use crate::message::Message;
use vstd::string::{StrSliceExecFns, StringExecFns, StringSliceAdditionalSpecFns};
use vstd::utf8::encode_utf8;

verus! {

/// The longest filename the destination writes.
pub const MAX_FILENAME_LENGTH: usize = 255;

/// The longest path it accepts.
pub const MAX_PATH_LENGTH: usize = 4096;

/// A character a filename may keep: no separators, no NUL, no controls.
pub open spec fn ok_filename_char(c: char) -> bool {
    c != '/' && c != '\\' && !((c as u32) < 0x20 || (0x7f <= (c as u32) && (c as u32) <= 0x9f))
}

/// The characters a predicate keeps, in order.
pub open spec fn keep_chars(s: Seq<char>, pred: spec_fn(char) -> bool) -> Seq<char>
    decreases s.len(),
{
    if s.len() == 0 {
        Seq::empty()
    } else {
        keep_chars(s.drop_last(), pred) + if pred(s.last()) {
            seq![s.last()]
        } else {
            Seq::empty()
        }
    }
}

/// Every kept character passes the predicate.
pub proof fn lemma_keep_chars_pred(s: Seq<char>, pred: spec_fn(char) -> bool)
    ensures
        forall|i: int| 0 <= i < keep_chars(s, pred).len() ==> pred(#[trigger] keep_chars(s, pred)[i]),
        keep_chars(s, pred).len() <= s.len(),
    decreases s.len(),
{
    if s.len() > 0 {
        lemma_keep_chars_pred(s.drop_last(), pred);
    }
}

/// What sanitization makes of a filename.
pub open spec fn spec_sanitize(s: Seq<char>) -> Seq<char> {
    let kept = keep_chars(s, |c: char| ok_filename_char(c));
    if kept.len() > MAX_FILENAME_LENGTH {
        kept.take(MAX_FILENAME_LENGTH as int)
    } else {
        kept
    }
}

/// Strips path separators, NUL and control characters from a filename and
/// caps its length — no result ever holds `/`, `\`, NUL or any control.
pub fn sanitize_filename(filename: &str) -> (r: String)
    ensures
        r@ == spec_sanitize(filename@),
        forall|i: int| 0 <= i < r@.len() ==> ok_filename_char(#[trigger] r@[i]),
        r@.len() <= MAX_FILENAME_LENGTH,
{
    let ghost pred = |c: char| ok_filename_char(c);
    let cs = str_chars(filename);
    let n = cs.len();
    let mut out = String::new();
    let mut count: usize = 0;
    let mut i: usize = 0;
    proof {
        assert(cs@.take(0) =~= Seq::<char>::empty());
        assert(out@ =~= spec_sanitize_prefix(filename@, 0));
    }
    while i < n
        invariant
            n == cs@.len(),
            cs@ == filename@,
            i <= n,
            count == out@.len(),
            out@ == spec_sanitize_prefix(filename@, i as int),
            pred == (|c: char| ok_filename_char(c)),
        decreases n - i,
    {
        let c = cs[i];
        let keep = c != '/' && c != '\\' && !((c as u32) < 0x20 || (0x7f <= (c as u32) && (c
            as u32) <= 0x9f));
        proof {
            assert(filename@.take(i + 1).drop_last() =~= filename@.take(i as int));
            assert(filename@.take(i + 1).last() == filename@[i as int]);
            assert(keep == ok_filename_char(filename@[i as int]));
            lemma_keep_chars_pred(filename@.take(i as int), pred);
        }
        if keep && count < MAX_FILENAME_LENGTH {
            push_char(&mut out, c);
            count += 1;
            proof {
                let k0 = keep_chars(filename@.take(i as int), pred);
                let k1 = keep_chars(filename@.take(i + 1), pred);
                assert(k1 =~= k0.push(filename@[i as int]));
                assert(spec_sanitize_prefix(filename@, i + 1) =~= spec_sanitize_prefix(
                    filename@,
                    i as int,
                ).push(filename@[i as int]));
            }
        } else {
            proof {
                let k0 = keep_chars(filename@.take(i as int), pred);
                let k1 = keep_chars(filename@.take(i + 1), pred);
                if keep {
                    assert(k1 =~= k0.push(filename@[i as int]));
                    assert(k0.len() >= MAX_FILENAME_LENGTH);
                    assert(spec_sanitize_prefix(filename@, i + 1) =~= spec_sanitize_prefix(
                        filename@,
                        i as int,
                    ));
                } else {
                    assert(k1 =~= k0);
                    assert(spec_sanitize_prefix(filename@, i + 1) =~= spec_sanitize_prefix(
                        filename@,
                        i as int,
                    ));
                }
            }
        }
        i += 1;
    }
    proof {
        assert(filename@.take(n as int) =~= filename@);
        lemma_keep_chars_pred(filename@, pred);
        assert(out@ =~= spec_sanitize(filename@));
        assert forall|j: int| 0 <= j < out@.len() implies ok_filename_char(
            #[trigger] out@[j],
        ) by {
            assert(out@[j] == spec_sanitize(filename@)[j]);
            assert(spec_sanitize(filename@)[j] == keep_chars(filename@, pred)[j]);
        }
    }
    out
}

/// The sanitized prefix: kept characters of the first `i`, capped.
pub open spec fn spec_sanitize_prefix(s: Seq<char>, i: int) -> Seq<char> {
    let kept = keep_chars(s.take(i), |c: char| ok_filename_char(c));
    if kept.len() > MAX_FILENAME_LENGTH {
        kept.take(MAX_FILENAME_LENGTH as int)
    } else {
        kept
    }
}

/// A path component that survives normalization: not empty, not `.`, not
/// `..`.
pub open spec fn real_component(c: Seq<char>) -> bool {
    c.len() > 0 && c != seq!['.'] && c != seq!['.', '.']
}

/// The kept components joined, each preceded by one slash.
pub open spec fn joined_components(parts: Seq<Seq<char>>) -> Seq<char>
    decreases parts.len(),
{
    if parts.len() == 0 {
        Seq::empty()
    } else {
        joined_components(parts.drop_last()) + if real_component(parts.last()) {
            seq!['/'] + parts.last()
        } else {
            Seq::empty()
        }
    }
}

/// The normalized path: the base's components and the sanitized filename,
/// with `.` and `..` components dropped throughout, absolute when the base
/// was.
pub open spec fn spec_normalized_path(base: Seq<char>, filename: Seq<char>) -> Seq<char> {
    let joined = joined_components(split_chars(base, '/').push(spec_sanitize(filename)));
    if base.len() > 0 && base[0] == '/' {
        joined
    } else if joined.len() > 0 {
        joined.drop_first()
    } else {
        joined
    }
}

/// Whether a path passes: within the length cap and, once normalized, free
/// of `..` anywhere.
pub open spec fn path_acceptable(base: Seq<char>, filename: Seq<char>) -> bool {
    &&& encode_utf8(base).len() + encode_utf8(filename).len() <= MAX_PATH_LENGTH
    &&& !contains_seq(encode_utf8(spec_normalized_path(base, filename)), seq![46u8, 46u8])
}

/// Validates and normalizes the target path: the length is capped, the
/// filename is sanitized, `.` and `..` components are dropped from the
/// whole resolved path, and any `..` still left anywhere rejects it —
/// every acceptable path is normalized and returned, nothing else is.
pub fn validate_path(base_dir: &str, filename: &str) -> (r: Result<String, String>)
    ensures
        r is Ok <==> path_acceptable(base_dir@, filename@),
        r matches Ok(p) ==> {
            &&& p@ == spec_normalized_path(base_dir@, filename@)
            &&& !contains_seq(encode_utf8(p@), seq![46u8, 46u8])
        },
{
    let base_bytes = base_dir.as_bytes();
    let file_bytes = filename.as_bytes();
    if base_bytes.len() > MAX_PATH_LENGTH || file_bytes.len() > MAX_PATH_LENGTH
        - base_bytes.len() {
        return Err(String::from_str("Path exceeds the maximum length"));
    }
    let sanitized = sanitize_filename(filename);
    let base_chars = str_chars(base_dir);
    let mut parts = split_chars_exec(base_chars.as_slice(), '/');
    let san_chars = str_chars(sanitized.as_str());
    let ghost pre_parts = parts.deep_view();
    parts.push(san_chars);
    let ghost parts_spec = split_chars(base_dir@, '/').push(spec_sanitize(filename@));
    proof {
        assert(parts.deep_view().len() == parts@.len());
        assert(pre_parts.len() == parts@.len() - 1);
        assert forall|j: int| 0 <= j < parts@.len() implies parts.deep_view()[j]
            == parts_spec[j] by {
            if j < parts@.len() - 1 {
                assert(parts.deep_view()[j] == parts@[j]@);
                assert(parts_spec[j] == pre_parts[j]);
            } else {
                assert(parts.deep_view()[j] == parts@[j]@);
            }
        }
        assert(parts.deep_view() =~~= parts_spec);
    }
    let mut joined: Vec<char> = Vec::new();
    let n = parts.len();
    let mut i: usize = 0;
    proof {
        assert(parts_spec.take(0) =~= Seq::<Seq<char>>::empty());
        assert(joined@ =~= joined_components(parts_spec.take(0)));
    }
    while i < n
        invariant
            n == parts@.len(),
            n == parts_spec.len(),
            parts.deep_view() == parts_spec,
            i <= n,
            joined@ == joined_components(parts_spec.take(i as int)),
        decreases n - i,
    {
        let part = &parts[i];
        proof {
            assert(parts.deep_view()[i as int] == parts@[i as int]@);
            assert(parts_spec.take(i + 1).drop_last() =~= parts_spec.take(i as int));
            assert(parts_spec.take(i + 1).last() == parts_spec[i as int]);
        }
        let is_dot = part.len() == 1 && part[0] == '.';
        let is_dotdot = part.len() == 2 && part[0] == '.' && part[1] == '.';
        proof {
            if is_dot {
                assert(part@ =~= seq!['.']);
            }
            if is_dotdot {
                assert(part@ =~= seq!['.', '.']);
            }
            if part@.len() == 1 && !is_dot {
                assert(part@ != seq!['.']) by {
                    assert(part@[0] != seq!['.'][0]);
                }
            }
            if part@.len() == 2 && !is_dotdot {
                assert(part@ != seq!['.', '.']) by {
                    if part@[0] == '.' && part@[1] == '.' {
                        assert(false);
                    }
                }
            }
        }
        if part.len() > 0 && !is_dot && !is_dotdot {
            let ghost j0 = joined@;
            joined.push('/');
            extend_chars(&mut joined, part.as_slice());
            proof {
                assert(joined@ =~= j0 + (seq!['/'] + parts_spec[i as int]));
                assert(real_component(parts_spec[i as int]));
            }
        } else {
            proof {
                assert(!real_component(parts_spec[i as int]));
                assert(joined@ + Seq::<char>::empty() =~= joined@);
            }
        }
        i += 1;
    }
    proof {
        assert(parts_spec.take(n as int) =~= parts_spec);
    }
    let absolute = base_chars.len() > 0 && base_chars[0] == '/';
    let full: Vec<char> = if absolute {
        joined
    } else {
        if joined.len() > 0 {
            let mut rest: Vec<char> = Vec::new();
            let mut k: usize = 1;
            let m = joined.len();
            while k < m
                invariant
                    m == joined@.len(),
                    1 <= k <= m,
                    rest@ == joined@.subrange(1, k as int),
                decreases m - k,
            {
                rest.push(joined[k]);
                assert(rest@ =~= joined@.subrange(1, k + 1));
                k += 1;
            }
            proof {
                assert(rest@ =~= joined@.drop_first());
            }
            rest
        } else {
            joined
        }
    };
    assert(full@ == spec_normalized_path(base_dir@, filename@));
    let p = crate::bytesutil::chars_to_string(full.as_slice());
    proof {
        reveal_strlit("..");
        vstd::utf8::is_ascii_chars_encode_utf8(".."@);
        assert(encode_utf8(".."@) =~= seq![46u8, 46u8]);
    }
    if contains_sub(p.as_str().as_bytes(), "..".as_bytes()) {
        return Err(String::from_str("Path contains invalid sequences"));
    }
    Ok(p)
}

/// Replacing every occurrence of a pattern, left to right, no overlap.
pub open spec fn replace_chars(s: Seq<char>, pat: Seq<char>, rep: Seq<char>) -> Seq<char>
    decreases s.len(),
{
    if pat.len() == 0 || s.len() < pat.len() {
        s
    } else if s.take(pat.len() as int) == pat {
        rep + replace_chars(s.skip(pat.len() as int), pat, rep)
    } else {
        seq![s[0]] + replace_chars(s.drop_first(), pat, rep)
    }
}

/// Replaces every occurrence of `pat` in `s` by `rep`.
pub fn replace_str(s: &str, pat: &str, rep: &str) -> (r: String)
    ensures
        r@ == replace_chars(s@, pat@, rep@),
{
    let cs = str_chars(s);
    let ps = str_chars(pat);
    let rs = str_chars(rep);
    let n = cs.len();
    let plen = ps.len();
    let mut out = String::new();
    if plen == 0 {
        let whole = crate::bytesutil::chars_to_string(cs.as_slice());
        assert(whole@ == s@);
        return whole;
    }
    let mut i: usize = 0;
    proof {
        assert(cs@.skip(0) =~= cs@);
        assert(out@ + replace_chars(cs@.skip(0), pat@, rep@) =~= replace_chars(s@, pat@, rep@));
    }
    while i < n
        invariant
            n == cs@.len(),
            cs@ == s@,
            ps@ == pat@,
            rs@ == rep@,
            plen == pat@.len(),
            plen >= 1,
            i <= n,
            replace_chars(s@, pat@, rep@) == out@ + replace_chars(cs@.skip(i as int), pat@, rep@),
        decreases n - i,
    {
        let suffix_len = n - i;
        let matched = if suffix_len >= plen {
            let mut j: usize = 0;
            let mut m = true;
            while j < plen
                invariant
                    plen == ps@.len(),
                    i + plen <= n,
                    n == cs@.len(),
                    j <= plen,
                    m == (forall|k: int| 0 <= k < j ==> cs@[i + k] == ps@[k]),
                decreases plen - j,
            {
                if cs[i + j] != ps[j] {
                    m = false;
                    proof {
                        assert(cs@[i + j as int] != ps@[j as int]);
                    }
                    j = plen;
                } else {
                    proof {
                        assert(cs@[i + j as int] == ps@[j as int]);
                    }
                    j += 1;
                }
            }
            m
        } else {
            false
        };
        proof {
            assert(cs@.skip(i as int).len() == n - i);
            if matched {
                assert(cs@.skip(i as int).take(plen as int) =~= ps@);
            } else if n - i >= plen {
                assert(cs@.skip(i as int).take(plen as int) != ps@) by {
                    let bad = choose|k: int| 0 <= k < plen && cs@[i + k] != ps@[k];
                    assert(cs@.skip(i as int).take(plen as int)[bad] == cs@[i + bad]);
                }
            }
        }
        if matched {
            let ghost o0 = out@;
            let mut j: usize = 0;
            while j < rs.len()
                invariant
                    j <= rs@.len(),
                    out@ == o0 + rs@.take(j as int),
                decreases rs@.len() - j,
            {
                push_char(&mut out, rs[j]);
                assert(out@ =~= o0 + rs@.take(j + 1));
                j += 1;
            }
            proof {
                assert(rs@.take(rs@.len() as int) =~= rs@);
                assert(cs@.skip(i as int).skip(plen as int) =~= cs@.skip(i + plen));
                assert(replace_chars(cs@.skip(i as int), pat@, rep@) == rep@ + replace_chars(
                    cs@.skip(i + plen),
                    pat@,
                    rep@,
                ));
                assert((o0 + rep@) + replace_chars(cs@.skip(i + plen), pat@, rep@) =~= o0 + (rep@
                    + replace_chars(cs@.skip(i + plen), pat@, rep@)));
            }
            i += plen;
        } else {
            let ghost o0 = out@;
            push_char(&mut out, cs[i]);
            proof {
                assert(cs@.skip(i as int)[0] == cs@[i as int]);
                assert(cs@.skip(i as int).drop_first() =~= cs@.skip(i + 1));
                if cs@.skip(i as int).len() < plen {
                    assert(replace_chars(cs@.skip(i as int), pat@, rep@) == cs@.skip(i as int));
                    assert(cs@.skip(i as int) =~= seq![cs@[i as int]] + cs@.skip(i + 1));
                    assert(replace_chars(cs@.skip(i + 1), pat@, rep@) == cs@.skip(i + 1));
                }
                assert(out@ =~= o0 + seq![cs@[i as int]]);
                assert((o0 + seq![cs@[i as int]]) + replace_chars(cs@.skip(i + 1), pat@, rep@)
                    =~= o0 + (seq![cs@[i as int]] + replace_chars(cs@.skip(i + 1), pat@, rep@)));
            }
            i += 1;
        }
    }
    proof {
        assert(cs@.skip(n as int) =~= Seq::<char>::empty());
        assert(replace_chars(Seq::<char>::empty(), pat@, rep@) =~= Seq::<char>::empty());
        assert(out@ + Seq::<char>::empty() =~= out@);
    }
    out
}

/// The file destination's configuration.
pub struct FileWriter {
    pub path: String,
    pub filename_pattern: Option<String>,
    pub append: bool,
    pub encoding: String,
    pub channel_name: String,
}

/// A timestamp or date string as the clock hands them out: digits and
/// dashes.
pub open spec fn stampish(s: Seq<char>) -> bool {
    forall|i: int| 0 <= i < s.len() ==> ('0' <= #[trigger] s[i] <= '9' || s[i] == '-')
}

impl FileWriter {
    /// Appending and UTF-8 text are the defaults.
    pub fn new(
        path: String,
        filename_pattern: Option<String>,
        append: Option<bool>,
        encoding: Option<String>,
        channel_name: String,
    ) -> (r: Self)
        ensures
            r.path == path,
            r.filename_pattern == filename_pattern,
            r.append == (match append {
                Some(a) => a,
                None => true,
            }),
            encoding matches Some(e) ==> r.encoding == e,
            encoding is None ==> r.encoding@ == "utf8"@,
            r.channel_name == channel_name,
    {
        let append = match append {
            Some(a) => a,
            None => true,
        };
        let encoding = match encoding {
            Some(e) => e,
            None => String::from_str("utf8"),
        };
        FileWriter { path, filename_pattern, append, encoding, channel_name }
    }

    /// Strips path separators, NUL and control characters from a filename
    /// and caps its length.
    pub fn sanitize_filename(filename: &str) -> (r: String)
        ensures
            r@ == spec_sanitize(filename@),
            forall|i: int| 0 <= i < r@.len() ==> ok_filename_char(#[trigger] r@[i]),
            r@.len() <= MAX_FILENAME_LENGTH,
    {
        sanitize_filename(filename)
    }

    /// Validates and normalizes the target path, as the free function does.
    pub fn validate_path(base_dir: &str, filename: &str) -> (r: Result<String, String>)
        ensures
            r is Ok <==> path_acceptable(base_dir@, filename@),
            r matches Ok(p) ==> {
                &&& p@ == spec_normalized_path(base_dir@, filename@)
                &&& !contains_seq(encode_utf8(p@), seq![46u8, 46u8])
            },
    {
        validate_path(base_dir, filename)
    }

    /// The filename for a message: the pattern with `${timestamp}`, `${id}`,
    /// `${date}` and `${channel}` filled in — or `message_<id>.txt` — and
    /// then sanitized, so that no result ever carries a separator, a NUL or
    /// a control character, however the pattern reads.
    pub fn build_filename(&self, msg: &Message) -> (r: String)
        ensures
            match self.filename_pattern {
                Some(pattern) => exists|ts: Seq<char>, date: Seq<char>|
                    #![trigger stamp_pair(ts, date)]
                    {
                        &&& stampish(ts)
                        &&& ts.len() >= 15
                        &&& stampish(date)
                        &&& date.len() >= 10
                        &&& r@ == spec_sanitize(
                            replace_chars(
                                replace_chars(
                                    replace_chars(
                                        replace_chars(pattern@, "${timestamp}"@, ts),
                                        "${id}"@,
                                        id_text(msg.id),
                                    ),
                                    "${date}"@,
                                    date,
                                ),
                                "${channel}"@,
                                self.channel_name@,
                            ),
                        )
                    },
                None => r@ == spec_sanitize("message_"@ + id_text(msg.id) + ".txt"@),
            },
            forall|i: int| 0 <= i < r@.len() ==> ok_filename_char(#[trigger] r@[i]),
            r@.len() <= MAX_FILENAME_LENGTH,
    {
        match &self.filename_pattern {
            Some(pattern) => {
                let ts = now_stamp_for_filename();
                let date = now_date_for_filename();
                let ghost stamps = stamp_pair(ts@, date@);
                let id_str = id_to_string(msg.id);
                let step1 = replace_str(pattern.as_str(), "${timestamp}", ts.as_str());
                let step2 = replace_str(step1.as_str(), "${id}", id_str.as_str());
                let step3 = replace_str(step2.as_str(), "${date}", date.as_str());
                let step4 = replace_str(step3.as_str(), "${channel}", self.channel_name.as_str());
                sanitize_filename(step4.as_str())
            },
            None => {
                let mut r = String::from_str("message_");
                let id_str = id_to_string(msg.id);
                r.append(id_str.as_str());
                r.append(".txt");
                assert(r@ =~= "message_"@ + id_text(msg.id) + ".txt"@);
                sanitize_filename(r.as_str())
            },
        }
    }

    /// The bytes to write and whether a newline follows: base64 content is
    /// decoded and written raw; anything else is written as text with a
    /// trailing newline.
    pub fn prepare_payload(&self, content: &str) -> (r: Result<(Vec<u8>, bool), String>)
        ensures
            is_base64_encoding(self.encoding@) ==> match base64_decode_of(content@) {
                Some(bytes) => r matches Ok((v, nl)) && v@ == bytes && !nl,
                None => r is Err,
            },
            !is_base64_encoding(self.encoding@) ==> (r matches Ok((v, nl)) && v@ == encode_utf8(
                content@,
            ) && nl),
    {
        let enc_lower = to_lower_bytes(self.encoding.as_str().as_bytes());
        proof {
            assert(enc_lower@ =~= encode_utf8(self.encoding@).map_values(
                |b: u8| lower_byte(b),
            ));
        }
        let is_b64 = slice_eq(enc_lower.as_slice(), "base64".as_bytes());
        assert(is_b64 == is_base64_encoding(self.encoding@));
        if is_b64 {
            match base64_decode(content) {
                Some(v) => Ok((v, false)),
                None => Err(String::from_str("Failed to decode Base64 content")),
            }
        } else {
            let v = content.as_bytes_vec();
            Ok((v, true))
        }
    }
}

/// A ghost pairing of the two clock strings, to carry the witness.
pub open spec fn stamp_pair(ts: Seq<char>, date: Seq<char>) -> (Seq<char>, Seq<char>) {
    (ts, date)
}

/// The encoding names the base64 mode, compared without ASCII case.
pub open spec fn is_base64_encoding(enc: Seq<char>) -> bool {
    encode_utf8(enc).map_values(|b: u8| lower_byte(b)) == encode_utf8("base64"@)
}

/// What base64 decoding makes of a text: named, the base64 crate's standard
/// alphabet reading, `None` on anything malformed.
pub uninterp spec fn base64_decode_of(s: Seq<char>) -> Option<Seq<u8>>;

/// Relies on the base64 crate's standard-alphabet `decode`.
#[verifier::external_body]
fn base64_decode(s: &str) -> (r: Option<Vec<u8>>)
    ensures
        match r {
            Some(v) => base64_decode_of(s@) == Some(v@),
            None => base64_decode_of(s@) is None,
        },
{
    match base64::Engine::decode(&base64::engine::general_purpose::STANDARD, s) {
        Ok(v) => Some(v),
        Err(_) => None,
    }
}

} // verus!
