//! Small executable helpers on byte slices and their exact specifications,
//! shared by the framer, the parsers and the sanitizers.

use vstd::prelude::*;

verus! {

/// `sub` occurs in `s` starting at index `i`.
pub open spec fn is_sub_at(s: Seq<u8>, sub: Seq<u8>, i: int) -> bool {
    0 <= i && i + sub.len() <= s.len() && s.subrange(i, i + sub.len()) == sub
}

/// `sub` occurs somewhere in `s`.
pub open spec fn contains_seq(s: Seq<u8>, sub: Seq<u8>) -> bool {
    exists|i: int| is_sub_at(s, sub, i)
}

/// Byte-for-byte equality of two slices.
pub fn slice_eq(a: &[u8], b: &[u8]) -> (r: bool)
    ensures
        r == (a@ == b@),
{
    if a.len() != b.len() {
        assert(a@ != b@) by {
            assert(a@.len() != b@.len());
        }
        return false;
    }
    let n = a.len();
    let mut i: usize = 0;
    while i < n
        invariant
            n == a@.len() == b@.len(),
            i <= n,
            forall|j: int| 0 <= j < i ==> a@[j] == b@[j],
        decreases n - i,
    {
        if a[i] != b[i] {
            return false;
        }
        i += 1;
    }
    assert(a@ =~= b@);
    true
}

/// Whether `sub` occurs in `s` starting at `i` (with `i + sub.len()` in range).
fn matches_at(s: &[u8], sub: &[u8], i: usize) -> (r: bool)
    requires
        i + sub@.len() <= s@.len(),
    ensures
        r == is_sub_at(s@, sub@, i as int),
{
    let n = s.len();
    let m = sub.len();
    let mut j: usize = 0;
    while j < m
        invariant
            n == s@.len(),
            m == sub@.len(),
            i + m <= n,
            j <= m,
            forall|k: int| 0 <= k < j ==> s@[i + k] == sub@[k],
        decreases m - j,
    {
        if s[i + j] != sub[j] {
            assert(!is_sub_at(s@, sub@, i as int)) by {
                assert(s@.subrange(i as int, i + sub@.len())[j as int] == s@[i + j]);
            }
            return false;
        }
        j += 1;
    }
    assert(s@.subrange(i as int, i + sub@.len()) =~= sub@);
    true
}

/// Whether `sub` occurs anywhere in `s`.
pub fn contains_sub(s: &[u8], sub: &[u8]) -> (r: bool)
    ensures
        r == contains_seq(s@, sub@),
{
    let n = s.len();
    let m = sub.len();
    if m > n {
        assert(!contains_seq(s@, sub@)) by {
            assert(forall|i: int| !is_sub_at(s@, sub@, i));
        }
        return false;
    }
    if m == 0 {
        assert(is_sub_at(s@, sub@, 0)) by {
            assert(s@.subrange(0, 0) =~= sub@);
        }
        return true;
    }
    let mut i: usize = 0;
    while i <= n - m
        invariant
            n == s@.len(),
            m == sub@.len(),
            1 <= m <= n,
            i <= n - m + 1,
            forall|k: int| 0 <= k < i ==> !is_sub_at(s@, sub@, k),
        decreases n - m + 1 - i,
    {
        if matches_at(s, sub, i) {
            return true;
        }
        i += 1;
    }
    assert(forall|k: int| is_sub_at(s@, sub@, k) ==> 0 <= k <= n - m);
    false
}

/// Whether `s` ends with `sub`.
pub fn ends_with_bytes(s: &[u8], sub: &[u8]) -> (r: bool)
    ensures
        r == (s@.len() >= sub@.len() && s@.subrange(
            s@.len() - sub@.len(),
            s@.len() as int,
        ) == sub@),
{
    let n = s.len();
    let m = sub.len();
    if m > n {
        return false;
    }
    let mut j: usize = 0;
    while j < m
        invariant
            n == s@.len(),
            m == sub@.len(),
            m <= n,
            j <= m,
            forall|k: int| 0 <= k < j ==> s@[n - m + k] == sub@[k],
        decreases m - j,
    {
        if s[n - m + j] != sub[j] {
            assert(s@.subrange(n - m, n as int)[j as int] == s@[n - m + j]);
            return false;
        }
        j += 1;
    }
    assert(s@.subrange(n - m, n as int) =~= sub@);
    true
}

/// A fresh vector holding the same bytes as `s`.
pub fn copy_bytes(s: &[u8]) -> (r: Vec<u8>)
    ensures
        r@ == s@,
{
    let n = s.len();
    let mut r: Vec<u8> = Vec::new();
    let mut i: usize = 0;
    while i < n
        invariant
            n == s@.len(),
            i <= n,
            r@ == s@.take(i as int),
        decreases n - i,
    {
        r.push(s[i]);
        assert(r@ =~= s@.take(i + 1));
        i += 1;
    }
    assert(s@.take(n as int) =~= s@);
    r
}

/// Appends all of `s` to `dst`.
pub fn extend_bytes(dst: &mut Vec<u8>, s: &[u8])
    ensures
        final(dst)@ == old(dst)@ + s@,
{
    let n = s.len();
    let mut i: usize = 0;
    while i < n
        invariant
            n == s@.len(),
            i <= n,
            dst@ == old(dst)@ + s@.take(i as int),
        decreases n - i,
    {
        dst.push(s[i]);
        assert(dst@ =~= old(dst)@ + s@.take(i + 1));
        i += 1;
    }
    assert(old(dst)@ + s@.take(n as int) =~= old(dst)@ + s@);
}

/// Appends all of `s` to `dst`, character by character.
pub fn extend_chars(dst: &mut Vec<char>, s: &[char])
    ensures
        final(dst)@ == old(dst)@ + s@,
{
    let n = s.len();
    let mut i: usize = 0;
    while i < n
        invariant
            n == s@.len(),
            i <= n,
            dst@ == old(dst)@ + s@.take(i as int),
        decreases n - i,
    {
        dst.push(s[i]);
        assert(dst@ =~= old(dst)@ + s@.take(i + 1));
        i += 1;
    }
    assert(old(dst)@ + s@.take(n as int) =~= old(dst)@ + s@);
}

/// Splitting a byte sequence on a separator, in the manner of `str::split`:
/// always at least one part, empty parts kept.
pub open spec fn split_bytes(s: Seq<u8>, sep: u8) -> Seq<Seq<u8>>
    decreases s.len(),
{
    if s.len() == 0 {
        seq![Seq::empty()]
    } else if s[0] == sep {
        seq![Seq::<u8>::empty()] + split_bytes(s.drop_first(), sep)
    } else {
        let rest = split_bytes(s.drop_first(), sep);
        seq![seq![s[0]] + rest[0]] + rest.drop_first()
    }
}

/// A split has at least one part.
pub proof fn lemma_split_bytes_len(s: Seq<u8>, sep: u8)
    ensures
        split_bytes(s, sep).len() >= 1,
    decreases s.len(),
{
    if s.len() == 0 {
    } else if s[0] == sep {
        lemma_split_bytes_len(s.drop_first(), sep);
    } else {
        lemma_split_bytes_len(s.drop_first(), sep);
    }
}

/// The given first part stitched onto the front of a split's parts.
pub open spec fn prepend_first(c: Seq<u8>, parts: Seq<Seq<u8>>) -> Seq<Seq<u8>> {
    seq![c + parts[0]] + parts.drop_first()
}

/// Splits a byte slice on a separator byte; the parts are exactly those of
/// the specification-level split.
pub fn split_bytes_exec(s: &[u8], sep: u8) -> (parts: Vec<Vec<u8>>)
    ensures
        parts.deep_view() == split_bytes(s@, sep),
{
    let n = s.len();
    let mut parts: Vec<Vec<u8>> = Vec::new();
    let mut cur: Vec<u8> = Vec::new();
    let mut i: usize = 0;
    proof {
        lemma_split_bytes_len(s@, sep);
        assert(s@.skip(0) =~= s@);
        assert(Seq::<u8>::empty() + split_bytes(s@, sep)[0] =~= split_bytes(s@, sep)[0]);
        assert(prepend_first(cur@, split_bytes(s@.skip(0), sep)) =~~= split_bytes(s@, sep));
        assert(parts.deep_view() =~~= Seq::<Seq<u8>>::empty());
    }
    while i < n
        invariant
            n == s@.len(),
            i <= n,
            split_bytes(s@, sep) =~~= parts.deep_view() + prepend_first(
                cur@,
                split_bytes(s@.skip(i as int), sep),
            ),
        decreases n - i,
    {
        let b = s[i];
        proof {
            assert(s@.skip(i as int)[0] == s@[i as int]);
            assert(s@.skip(i as int).drop_first() =~= s@.skip(i + 1));
            lemma_split_bytes_len(s@.skip(i + 1), sep);
        }
        if b == sep {
            let ghost dv0 = parts.deep_view();
            let done = cur;
            cur = Vec::new();
            parts.push(done);
            proof {
                let rest = split_bytes(s@.skip(i + 1), sep);
                assert(parts.deep_view() =~~= dv0 + seq![done@]);
                assert(done@ + Seq::<u8>::empty() =~= done@);
                assert(Seq::<u8>::empty() + rest[0] =~= rest[0]);
                assert((seq![Seq::<u8>::empty()] + rest).drop_first() =~~= rest);
                assert(prepend_first(done@, split_bytes(s@.skip(i as int), sep)) =~~= seq![done@]
                    + prepend_first(cur@, rest));
                assert(dv0 + (seq![done@] + prepend_first(cur@, rest)) =~~= parts.deep_view()
                    + prepend_first(cur@, rest));
            }
        } else {
            let ghost c0 = cur@;
            cur.push(b);
            proof {
                let rest = split_bytes(s@.skip(i + 1), sep);
                assert(split_bytes(s@.skip(i as int), sep) == seq![seq![b] + rest[0]]
                    + rest.drop_first());
                assert(c0 + (seq![b] + rest[0]) =~= cur@ + rest[0]);
                assert(prepend_first(c0, split_bytes(s@.skip(i as int), sep)) =~~= prepend_first(
                    cur@,
                    rest,
                ));
            }
        }
        i += 1;
    }
    proof {
        assert(s@.skip(n as int) =~= Seq::<u8>::empty());
        assert(split_bytes(s@.skip(n as int), sep) =~~= seq![Seq::<u8>::empty()]);
        assert(cur@ + Seq::<u8>::empty() =~= cur@);
        assert(prepend_first(cur@, split_bytes(s@.skip(n as int), sep)) =~~= seq![cur@]);
    }
    let ghost dv0 = parts.deep_view();
    parts.push(cur);
    proof {
        assert(parts.deep_view() =~~= dv0 + seq![cur@]);
        assert(parts.deep_view() =~~= split_bytes(s@, sep));
    }
    parts
}

/// Character-for-character equality of two string slices, decided on their
/// UTF-8 bytes.
pub fn str_eq(a: &str, b: &str) -> (r: bool)
    ensures
        r == (a@ == b@),
{
    let r = slice_eq(a.as_bytes(), b.as_bytes());
    proof {
        vstd::utf8::encode_utf8_decode_utf8(a@);
        vstd::utf8::encode_utf8_decode_utf8(b@);
    }
    r
}

/// Relies on `String::from_utf8`: succeeds exactly on valid UTF-8 and then
/// returns the decoded characters.
#[verifier::external_body]
pub fn string_from_utf8(v: Vec<u8>) -> (r: Option<String>)
    ensures
        r is Some <==> vstd::utf8::valid_utf8(v@),
        r matches Some(s) ==> s@ == vstd::utf8::decode_utf8(v@),
{
    match String::from_utf8(v) {
        Ok(s) => Some(s),
        Err(_) => None,
    }
}

/// What lossy UTF-8 decoding makes of any bytes: named, std's reading with
/// replacement characters for malformed sequences.  On valid UTF-8 it is
/// the exact decoding — std documents that the bytes pass through
/// unchanged then.
pub uninterp spec fn lossy_text_of(v: Seq<u8>) -> Seq<char>;

/// Relies on `String::from_utf8_lossy`: the lossy reading of any bytes,
/// which on valid UTF-8 is the exact one.
#[verifier::external_body]
pub fn string_from_utf8_lossy(v: &[u8]) -> (r: String)
    ensures
        r@ == lossy_text_of(v@),
        vstd::utf8::valid_utf8(v@) ==> r@ == vstd::utf8::decode_utf8(v@),
{
    String::from_utf8_lossy(v).into_owned()
}

/// Relies on `String::push`: appends one character.
#[verifier::external_body]
pub fn push_char(s: &mut String, c: char)
    ensures
        final(s)@ == old(s)@.push(c),
{
    s.push(c);
}

/// The characters of a string slice, as a vector.
pub fn str_chars(s: &str) -> (r: Vec<char>)
    ensures
        r@ == s@,
{
    let n = s.unicode_len();
    let mut r: Vec<char> = Vec::new();
    let mut i: usize = 0;
    while i < n
        invariant
            n == s@.len(),
            i <= n,
            r@ == s@.take(i as int),
        decreases n - i,
    {
        r.push(s.get_char(i));
        assert(r@ =~= s@.take(i + 1));
        i += 1;
    }
    assert(s@.take(n as int) =~= s@);
    r
}

/// A string made of the given characters.
pub fn chars_to_string(cs: &[char]) -> (r: String)
    ensures
        r@ == cs@,
{
    let n = cs.len();
    let mut r = String::new();
    let mut i: usize = 0;
    while i < n
        invariant
            n == cs@.len(),
            i <= n,
            r@ == cs@.take(i as int),
        decreases n - i,
    {
        push_char(&mut r, cs[i]);
        assert(r@ =~= cs@.take(i + 1));
        i += 1;
    }
    assert(cs@.take(n as int) =~= cs@);
    r
}

/// A byte with any ASCII capital turned small.
pub open spec fn lower_byte(b: u8) -> u8 {
    if 65 <= b <= 90 {
        (b + 32) as u8
    } else {
        b
    }
}

/// A byte with any ASCII small letter turned capital.
pub open spec fn upper_byte(b: u8) -> u8 {
    if 97 <= b <= 122 {
        (b - 32) as u8
    } else {
        b
    }
}

/// The bytes with every ASCII capital turned small.
pub fn to_lower_bytes(s: &[u8]) -> (r: Vec<u8>)
    ensures
        r@.len() == s@.len(),
        forall|i: int| 0 <= i < s@.len() ==> r@[i] == lower_byte(s@[i]),
{
    let n = s.len();
    let mut r: Vec<u8> = Vec::new();
    let mut i: usize = 0;
    while i < n
        invariant
            n == s@.len(),
            i <= n,
            r@.len() == i,
            forall|j: int| 0 <= j < i ==> r@[j] == lower_byte(s@[j]),
        decreases n - i,
    {
        let b = s[i];
        if 65 <= b && b <= 90 {
            r.push(b + 32);
        } else {
            r.push(b);
        }
        i += 1;
    }
    r
}

/// The bytes with every ASCII small letter turned capital.
pub fn to_upper_bytes(s: &[u8]) -> (r: Vec<u8>)
    ensures
        r@.len() == s@.len(),
        forall|i: int| 0 <= i < s@.len() ==> r@[i] == upper_byte(s@[i]),
{
    let n = s.len();
    let mut r: Vec<u8> = Vec::new();
    let mut i: usize = 0;
    while i < n
        invariant
            n == s@.len(),
            i <= n,
            r@.len() == i,
            forall|j: int| 0 <= j < i ==> r@[j] == upper_byte(s@[j]),
        decreases n - i,
    {
        let b = s[i];
        if 97 <= b && b <= 122 {
            r.push(b - 32);
        } else {
            r.push(b);
        }
        i += 1;
    }
    r
}

/// The decimal digits of a value, most significant first.
pub open spec fn dec_text(v: u64) -> Seq<char>
    decreases v,
{
    if v < 10 {
        seq![dec_digit_char(v)]
    } else {
        dec_text(v / 10).push(dec_digit_char(v % 10))
    }
}

/// The decimal digit character for a value below ten.
pub open spec fn dec_digit_char(n: u64) -> char {
    if n == 0 {
        '0'
    } else if n == 1 {
        '1'
    } else if n == 2 {
        '2'
    } else if n == 3 {
        '3'
    } else if n == 4 {
        '4'
    } else if n == 5 {
        '5'
    } else if n == 6 {
        '6'
    } else if n == 7 {
        '7'
    } else if n == 8 {
        '8'
    } else {
        '9'
    }
}

/// Appends one decimal digit character.
fn push_dec_digit(d: u64, out: &mut String)
    requires
        d < 10,
    ensures
        final(out)@ == old(out)@ + seq![dec_digit_char(d)],
{
    let c: char = if d == 0 {
        '0'
    } else if d == 1 {
        '1'
    } else if d == 2 {
        '2'
    } else if d == 3 {
        '3'
    } else if d == 4 {
        '4'
    } else if d == 5 {
        '5'
    } else if d == 6 {
        '6'
    } else if d == 7 {
        '7'
    } else if d == 8 {
        '8'
    } else {
        '9'
    };
    push_char(out, c);
    assert(old(out)@.push(c) =~= old(out)@ + seq![dec_digit_char(d)]);
}

/// Appends a value's decimal digits.
pub fn push_decimal(v: u64, out: &mut String)
    ensures
        final(out)@ == old(out)@ + dec_text(v),
    decreases v,
{
    if v < 10 {
        push_dec_digit(v, out);
    } else {
        push_decimal(v / 10, out);
        push_dec_digit(v % 10, out);
        assert((old(out)@ + dec_text(v / 10)) + seq![dec_digit_char(v % 10)] =~= old(out)@
            + dec_text(v));
    }
}

/// The number that decimal digit bytes denote, if all bytes are digits and
/// the value fits; the empty sequence denotes nothing.
pub open spec fn dec_value(s: Seq<u8>) -> Option<nat>
    decreases s.len(),
{
    if s.len() == 0 {
        None
    } else if !(48 <= s.last() <= 57) {
        None
    } else if s.len() == 1 {
        Some((s.last() - 48) as nat)
    } else {
        match dec_value(s.drop_last()) {
            None => None,
            Some(hi) => Some(hi * 10 + (s.last() - 48) as nat),
        }
    }
}

/// Parses decimal digit bytes as a `usize`; `None` on a non-digit, on
/// emptiness, or when the value does not fit.
pub fn parse_usize_bytes(s: &[u8]) -> (r: Option<usize>)
    ensures
        match r {
            Some(v) => dec_value(s@) == Some(v as nat),
            None => dec_value(s@) is None || (dec_value(s@) matches Some(v) && v
                > usize::MAX as nat),
        },
{
    let n = s.len();
    if n == 0 {
        return None;
    }
    let mut acc: usize = 0;
    let mut i: usize = 0;
    while i < n
        invariant
            n == s@.len(),
            n >= 1,
            i <= n,
            i == 0 ==> acc == 0,
            dec_value(s@.take(i as int)) == if i == 0 {
                None::<nat>
            } else {
                Some(acc as nat)
            },
        decreases n - i,
    {
        let b = s[i];
        proof {
            assert(s@.take(i + 1).drop_last() =~= s@.take(i as int));
            assert(s@.take(i + 1).last() == s@[i as int]);
        }
        if b < 48 || b > 57 {
            proof {
                lemma_dec_value_prefix_none(s@, i + 1);
            }
            return None;
        }
        let d = (b - 48) as usize;
        proof {
            assert(s@.take(i + 1).len() == i + 1);
            assert(48 <= s@.take(i + 1).last() <= 57);
            if i == 0 {
                assert(dec_value(s@.take(1)) == Some((s@[0] - 48) as nat));
                assert(dec_value(s@.take(i + 1)) == Some(((acc as nat) * 10 + (d as nat))));
            } else {
                assert(dec_value(s@.take(i as int)) == Some(acc as nat));
                assert(dec_value(s@.take(i + 1)) == Some(
                    (dec_value(s@.take(i as int))->Some_0) * 10 + (s@.take(i + 1).last()
                        - 48) as nat,
                ));
                assert(dec_value(s@.take(i + 1)) == Some(((acc as nat) * 10 + (d as nat))));
            }
        }
        if acc > (usize::MAX - d) / 10 {
            proof {
                assert((acc as nat) * 10 + (d as nat) > usize::MAX as nat) by (nonlinear_arith)
                    requires
                        acc > (usize::MAX - d) / 10,
                        d <= 9,
                        d <= usize::MAX,
                ;
                assert(dec_value(s@.take(i + 1)) == Some((acc as nat) * 10 + (d as nat)));
                lemma_dec_value_prefix_grows(s@, i + 1);
            }
            return None;
        }
        proof {
            assert((acc as nat) * 10 + (d as nat) <= usize::MAX as nat) by (nonlinear_arith)
                requires
                    acc <= (usize::MAX - d) / 10,
                    d <= 9,
                    d <= usize::MAX,
            ;
        }
        acc = acc * 10 + d;
        i += 1;
    }
    assert(s@.take(n as int) =~= s@);
    Some(acc)
}

/// A fresh vector holding `s[from..to]`.
pub fn sub_bytes(s: &[u8], from: usize, to: usize) -> (r: Vec<u8>)
    requires
        from <= to <= s@.len(),
    ensures
        r@ == s@.subrange(from as int, to as int),
{
    let mut r: Vec<u8> = Vec::new();
    let mut i: usize = from;
    while i < to
        invariant
            from <= i <= to <= s@.len(),
            r@ == s@.subrange(from as int, i as int),
        decreases to - i,
    {
        r.push(s[i]);
        assert(r@ =~= s@.subrange(from as int, i + 1));
        i += 1;
    }
    r
}

/// The index of the first occurrence of a byte, or -1.
pub open spec fn find_first(s: Seq<u8>, b: u8) -> int
    decreases s.len(),
{
    if s.len() == 0 {
        -1
    } else if s[0] == b {
        0
    } else {
        let r = find_first(s.drop_first(), b);
        if r == -1 {
            -1
        } else {
            r + 1
        }
    }
}

/// Finds the first occurrence of a byte.
pub fn find_first_byte(s: &[u8], b: u8) -> (r: Option<usize>)
    ensures
        match r {
            Some(i) => find_first(s@, b) == i as int && i < s@.len() && s@[i as int] == b,
            None => find_first(s@, b) == -1,
        },
{
    let n = s.len();
    let mut i: usize = 0;
    while i < n
        invariant
            n == s@.len(),
            i <= n,
            forall|j: int| 0 <= j < i ==> s@[j] != b,
        decreases n - i,
    {
        if s[i] == b {
            proof {
                lemma_find_first_at(s@, b, i as int);
            }
            return Some(i);
        }
        i += 1;
    }
    proof {
        lemma_find_first_absent(s@, b);
    }
    None
}

/// A first hit pins the find.
proof fn lemma_find_first_at(s: Seq<u8>, b: u8, i: int)
    requires
        0 <= i < s.len(),
        s[i] == b,
        forall|j: int| 0 <= j < i ==> s[j] != b,
    ensures
        find_first(s, b) == i,
    decreases s.len(),
{
    if i == 0 {
    } else {
        let rest = s.drop_first();
        assert(forall|j: int| 0 <= j < rest.len() ==> rest[j] == s[j + 1]);
        lemma_find_first_at(rest, b, i - 1);
    }
}

/// No hit anywhere makes the find fail.
proof fn lemma_find_first_absent(s: Seq<u8>, b: u8)
    requires
        forall|j: int| 0 <= j < s.len() ==> s[j] != b,
    ensures
        find_first(s, b) == -1,
    decreases s.len(),
{
    if s.len() == 0 {
    } else {
        let rest = s.drop_first();
        assert(forall|j: int| 0 <= j < rest.len() ==> rest[j] == s[j + 1]);
        lemma_find_first_absent(rest, b);
    }
}

/// Digits gone wrong stay wrong: a failing prefix fails the whole.
proof fn lemma_dec_value_prefix_none(s: Seq<u8>, i: int)
    requires
        0 < i <= s.len(),
        dec_value(s.take(i)) is None,
    ensures
        dec_value(s) is None,
    decreases s.len() - i,
{
    if i == s.len() {
        assert(s.take(i) =~= s);
    } else {
        assert(s.take(i + 1).drop_last() =~= s.take(i));
        lemma_dec_value_prefix_none(s, i + 1);
    }
}

/// Splitting a character sequence on a separator, in the manner of
/// `str::split`: always at least one part, empty parts kept.
pub open spec fn split_chars(s: Seq<char>, sep: char) -> Seq<Seq<char>>
    decreases s.len(),
{
    if s.len() == 0 {
        seq![Seq::empty()]
    } else if s[0] == sep {
        seq![Seq::<char>::empty()] + split_chars(s.drop_first(), sep)
    } else {
        let rest = split_chars(s.drop_first(), sep);
        seq![seq![s[0]] + rest[0]] + rest.drop_first()
    }
}

/// A character split has at least one part.
pub proof fn lemma_split_chars_len(s: Seq<char>, sep: char)
    ensures
        split_chars(s, sep).len() >= 1,
    decreases s.len(),
{
    if s.len() == 0 {
    } else {
        lemma_split_chars_len(s.drop_first(), sep);
    }
}

/// The given first part stitched onto the front of a character split.
pub open spec fn prepend_first_chars(c: Seq<char>, parts: Seq<Seq<char>>) -> Seq<Seq<char>> {
    seq![c + parts[0]] + parts.drop_first()
}

/// Splits characters on a separator; the parts are exactly those of the
/// specification-level split.
pub fn split_chars_exec(s: &[char], sep: char) -> (parts: Vec<Vec<char>>)
    ensures
        parts.deep_view() == split_chars(s@, sep),
{
    let n = s.len();
    let mut parts: Vec<Vec<char>> = Vec::new();
    let mut cur: Vec<char> = Vec::new();
    let mut i: usize = 0;
    proof {
        lemma_split_chars_len(s@, sep);
        assert(s@.skip(0) =~= s@);
        assert(Seq::<char>::empty() + split_chars(s@, sep)[0] =~= split_chars(s@, sep)[0]);
        assert(prepend_first_chars(cur@, split_chars(s@.skip(0), sep)) =~~= split_chars(s@, sep));
        assert(parts.deep_view() =~~= Seq::<Seq<char>>::empty());
    }
    while i < n
        invariant
            n == s@.len(),
            i <= n,
            split_chars(s@, sep) =~~= parts.deep_view() + prepend_first_chars(
                cur@,
                split_chars(s@.skip(i as int), sep),
            ),
        decreases n - i,
    {
        let c = s[i];
        proof {
            assert(s@.skip(i as int)[0] == s@[i as int]);
            assert(s@.skip(i as int).drop_first() =~= s@.skip(i + 1));
            lemma_split_chars_len(s@.skip(i + 1), sep);
        }
        if c == sep {
            let ghost dv0 = parts.deep_view();
            let done = cur;
            cur = Vec::new();
            parts.push(done);
            proof {
                let rest = split_chars(s@.skip(i + 1), sep);
                assert(parts.deep_view() =~~= dv0 + seq![done@]);
                assert(done@ + Seq::<char>::empty() =~= done@);
                assert(Seq::<char>::empty() + rest[0] =~= rest[0]);
                assert((seq![Seq::<char>::empty()] + rest).drop_first() =~~= rest);
                assert(prepend_first_chars(done@, split_chars(s@.skip(i as int), sep))
                    =~~= seq![done@] + prepend_first_chars(cur@, rest));
                assert(dv0 + (seq![done@] + prepend_first_chars(cur@, rest)) =~~= parts.deep_view()
                    + prepend_first_chars(cur@, rest));
            }
        } else {
            let ghost c0 = cur@;
            cur.push(c);
            proof {
                let rest = split_chars(s@.skip(i + 1), sep);
                assert(split_chars(s@.skip(i as int), sep) == seq![seq![c] + rest[0]]
                    + rest.drop_first());
                assert(c0 + (seq![c] + rest[0]) =~= cur@ + rest[0]);
                assert(prepend_first_chars(c0, split_chars(s@.skip(i as int), sep))
                    =~~= prepend_first_chars(cur@, rest));
            }
        }
        i += 1;
    }
    proof {
        assert(s@.skip(n as int) =~= Seq::<char>::empty());
        assert(split_chars(s@.skip(n as int), sep) =~~= seq![Seq::<char>::empty()]);
        assert(cur@ + Seq::<char>::empty() =~= cur@);
        assert(prepend_first_chars(cur@, split_chars(s@.skip(n as int), sep)) =~~= seq![cur@]);
    }
    let ghost dv0 = parts.deep_view();
    parts.push(cur);
    proof {
        assert(parts.deep_view() =~~= dv0 + seq![cur@]);
        assert(parts.deep_view() =~~= split_chars(s@, sep));
    }
    parts
}

/// A longer digit run denotes at least as large a value.
proof fn lemma_dec_value_prefix_grows(s: Seq<u8>, i: int)
    requires
        0 < i <= s.len(),
        dec_value(s.take(i)) is Some,
    ensures
        dec_value(s) is None || (dec_value(s) matches Some(v) && v >= dec_value(
            s.take(i),
        )->Some_0),
    decreases s.len() - i,
{
    if i == s.len() {
        assert(s.take(i) =~= s);
    } else {
        assert(s.take(i + 1).drop_last() =~= s.take(i));
        if dec_value(s.take(i + 1)) is Some {
            lemma_dec_value_prefix_grows(s, i + 1);
        } else {
            lemma_dec_value_prefix_none(s, i + 1);
        }
    }
}

} // verus!
