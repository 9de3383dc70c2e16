//! Text primitives: byte-budget truncation, whitespace handling, substring
//! search, and decimal parsing.  Contracts are stated over character
//! sequences and their UTF-8 encodings.

use vstd::prelude::*;

use vstd::string::StrSliceExecFns;
use vstd::string::StringExecFns;
use vstd::string::StringSliceAdditionalSpecFns;
use vstd::utf8::encode_scalar;
use vstd::utf8::encode_utf8;

verus! {

/// Byte length of one character's UTF-8 encoding.
pub open spec fn clen(c: char) -> int {
    encode_scalar(c as u32).len() as int
}

/// Byte length of a character sequence under UTF-8.
pub open spec fn byte_len(s: Seq<char>) -> int
    decreases s.len(),
{
    if s.len() == 0 {
        0
    } else {
        clen(s[0]) + byte_len(s.drop_first())
    }
}

pub proof fn lemma_clen_bounds(c: char)
    ensures
        1 <= clen(c) <= 4,
{
    vstd::utf8::char_is_scalar(c);
}

/// `byte_len` agrees with the length of the UTF-8 encoding.
pub proof fn lemma_byte_len_is_encode_len(s: Seq<char>)
    ensures
        byte_len(s) == encode_utf8(s).len(),
    decreases s.len(),
{
    if s.len() == 0 {
    } else {
        lemma_byte_len_is_encode_len(s.drop_first());
    }
}

pub proof fn lemma_byte_len_concat(a: Seq<char>, b: Seq<char>)
    ensures
        byte_len(a + b) == byte_len(a) + byte_len(b),
    decreases a.len(),
{
    if a.len() == 0 {
        assert(a + b =~= b);
    } else {
        assert((a + b).drop_first() =~= a.drop_first() + b);
        lemma_byte_len_concat(a.drop_first(), b);
    }
}

pub proof fn lemma_byte_len_take_succ(s: Seq<char>, k: int)
    requires
        0 <= k < s.len(),
    ensures
        byte_len(s.take(k + 1)) == byte_len(s.take(k)) + clen(s[k]),
{
    assert(s.take(k + 1) =~= s.take(k) + seq![s[k]]);
    lemma_byte_len_concat(s.take(k), seq![s[k]]);
    assert(byte_len(seq![s[k]]) == clen(s[k])) by {
        assert(seq![s[k]].drop_first() =~= Seq::<char>::empty());
        assert(byte_len(Seq::<char>::empty()) == 0);
    }
}

pub proof fn lemma_byte_len_nonneg(s: Seq<char>)
    ensures
        byte_len(s) >= 0,
    decreases s.len(),
{
    if s.len() == 0 {
    } else {
        lemma_clen_bounds(s[0]);
        lemma_byte_len_nonneg(s.drop_first());
    }
}

pub proof fn lemma_byte_len_at_least_len(s: Seq<char>)
    ensures
        byte_len(s) >= s.len(),
    decreases s.len(),
{
    if s.len() == 0 {
    } else {
        lemma_clen_bounds(s[0]);
        lemma_byte_len_at_least_len(s.drop_first());
    }
}

/// An all-ASCII sequence encodes to one byte per character.
pub proof fn lemma_ascii_byte_len(s: Seq<char>)
    requires
        vstd::utf8::is_ascii_chars(s),
    ensures
        byte_len(s) == s.len(),
    decreases s.len(),
{
    if s.len() == 0 {
    } else {
        assert(s[0] <= '\u{7f}');
        vstd::utf8::char_is_scalar(s[0]);
        vstd::utf8::is_ascii_chars_nat_bound(s);
        assert(clen(s[0]) == 1) by {
            assert((s[0] as nat) < 128);
            assert(vstd::utf8::has_width_1_encoding(s[0] as u32));
        }
        assert(vstd::utf8::is_ascii_chars(s.drop_first()));
        lemma_ascii_byte_len(s.drop_first());
    }
}

/// Executable byte length of one character's UTF-8 encoding.
pub fn char_len(c: char) -> (r: usize)
    ensures
        r == clen(c),
{
    proof {
        vstd::utf8::char_is_scalar(c);
    }
    let u = c as u32;
    if u < 0x80 {
        1
    } else if u < 0x800 {
        2
    } else if u < 0x10000 {
        3
    } else {
        4
    }
}

/// Two strings are equal exactly when their character views are.
pub fn str_eq(a: &str, b: &str) -> (r: bool)
    ensures
        r == (a@ == b@),
{
    let ab = a.as_bytes();
    let bb = b.as_bytes();
    if ab.len() != bb.len() {
        proof {
            if a@ == b@ {
                assert(a.spec_bytes() == b.spec_bytes());
            }
        }
        return false;
    }
    let n = ab.len();
    let mut i: usize = 0;
    while i < n
        invariant
            n == ab@.len() == bb@.len(),
            i <= n,
            ab@ == a.spec_bytes(),
            bb@ == b.spec_bytes(),
            forall|j: int| 0 <= j < i ==> ab@[j] == bb@[j],
        decreases n - i,
    {
        if ab[i] != bb[i] {
            proof {
                if a@ == b@ {
                    assert(a.spec_bytes() == b.spec_bytes());
                }
            }
            return false;
        }
        i += 1;
    }
    proof {
        assert(ab@ =~= bb@);
        vstd::utf8::encode_utf8_decode_utf8(a@);
        vstd::utf8::encode_utf8_decode_utf8(b@);
    }
    true
}

/// A value-faithful copy of a string list.
pub fn clone_strings(v: &Vec<String>) -> (r: Vec<String>)
    ensures
        r@ == v@,
{
    let n = v.len();
    let mut r: Vec<String> = Vec::new();
    let mut i: usize = 0;
    while i < n
        invariant
            n == v@.len(),
            i <= n,
            r@ == v@.take(i as int),
        decreases n - i,
    {
        r.push(v[i].clone());
        proof {
            assert(r@ =~= v@.take(i as int + 1));
        }
        i += 1;
    }
    proof {
        assert(v@.take(n as int) =~= v@);
    }
    r
}

/// The character view of an optional string.
pub open spec fn opt_str_view(o: Option<String>) -> Option<Seq<char>> {
    match o {
        Some(s) => Some(s@),
        None => None,
    }
}

/// The Unicode white-space property, as `char::is_whitespace` decides it.
pub open spec fn is_ws_char(c: char) -> bool {
    ||| c == '\u{9}'
    ||| c == '\u{a}'
    ||| c == '\u{b}'
    ||| c == '\u{c}'
    ||| c == '\u{d}'
    ||| c == ' '
    ||| c == '\u{85}'
    ||| c == '\u{a0}'
    ||| c == '\u{1680}'
    ||| ('\u{2000}' <= c && c <= '\u{200a}')
    ||| c == '\u{2028}'
    ||| c == '\u{2029}'
    ||| c == '\u{202f}'
    ||| c == '\u{205f}'
    ||| c == '\u{3000}'
}

pub fn is_ws(c: char) -> (r: bool)
    ensures
        r == is_ws_char(c),
{
    c == '\u{9}' || c == '\u{a}' || c == '\u{b}' || c == '\u{c}' || c == '\u{d}' || c == ' ' || c
        == '\u{85}' || c == '\u{a0}' || c == '\u{1680}' || ('\u{2000}' <= c && c <= '\u{200a}') || c
        == '\u{2028}' || c == '\u{2029}' || c == '\u{202f}' || c == '\u{205f}' || c == '\u{3000}'
}

/// Length of the leading white-space run.
pub open spec fn ws_prefix_len(s: Seq<char>) -> int
    decreases s.len(),
{
    if s.len() > 0 && is_ws_char(s[0]) {
        1 + ws_prefix_len(s.drop_first())
    } else {
        0
    }
}

/// Length of the trailing white-space run.
pub open spec fn ws_suffix_len(s: Seq<char>) -> int
    decreases s.len(),
{
    if s.len() > 0 && is_ws_char(s.last()) {
        1 + ws_suffix_len(s.drop_last())
    } else {
        0
    }
}

/// What `str::trim` leaves: the sequence with both white-space runs removed.
pub open spec fn trim_spec(s: Seq<char>) -> Seq<char> {
    let a = ws_prefix_len(s);
    if a == s.len() {
        Seq::empty()
    } else {
        s.subrange(a, s.len() - ws_suffix_len(s))
    }
}

proof fn lemma_ws_prefix_run(s: Seq<char>, i: int)
    requires
        0 <= i <= s.len(),
        forall|j: int| 0 <= j < i ==> is_ws_char(#[trigger] s[j]),
        i < s.len() ==> !is_ws_char(s[i]),
    ensures
        ws_prefix_len(s) == i,
    decreases s.len(),
{
    if i == 0 {
    } else {
        assert(is_ws_char(s[0]));
        assert(forall|j: int|
            0 <= j < i - 1 ==> is_ws_char(#[trigger] s.drop_first()[j]) == is_ws_char(s[j + 1]));
        lemma_ws_prefix_run(s.drop_first(), i - 1);
    }
}

proof fn lemma_ws_suffix_run(s: Seq<char>, b: int)
    requires
        0 <= b <= s.len(),
        forall|j: int| s.len() - b <= j < s.len() ==> is_ws_char(#[trigger] s[j]),
        b < s.len() ==> !is_ws_char(s[s.len() - 1 - b]),
    ensures
        ws_suffix_len(s) == b,
    decreases s.len(),
{
    if b == 0 {
    } else {
        assert(is_ws_char(s.last()));
        assert(forall|j: int|
            s.len() - b <= j < s.len() - 1 ==> is_ws_char(#[trigger] s.drop_last()[j])
                == is_ws_char(s[j]));
        lemma_ws_suffix_run(s.drop_last(), b - 1);
    }
}

/// `str::trim`, with its exact effect on the character view.
pub fn trim_str(s: &str) -> (r: String)
    ensures
        r@ == trim_spec(s@),
{
    let n = s.unicode_len();
    let mut a: usize = 0;
    while a < n && is_ws(s.get_char(a))
        invariant
            n == s@.len(),
            a <= n,
            forall|j: int| 0 <= j < a ==> is_ws_char(#[trigger] s@[j]),
        decreases n - a,
    {
        a += 1;
    }
    if a == n {
        proof {
            lemma_ws_prefix_run(s@, a as int);
        }
        return String::new();
    }
    proof {
        lemma_ws_prefix_run(s@, a as int);
    }
    let mut b: usize = 0;
    while is_ws(s.get_char(n - 1 - b))
        invariant
            n == s@.len(),
            a < n,
            !is_ws_char(s@[a as int]),
            b <= n - 1 - a,
            forall|j: int| n - b <= j < n ==> is_ws_char(#[trigger] s@[j]),
        decreases n - 1 - a - b,
    {
        b += 1;
    }
    proof {
        lemma_ws_suffix_run(s@, b as int);
    }
    s.substring_char(a, n - b).to_owned()
}

/// Number of characters of `s` whose starting byte offset is at most `t`.
pub open spec fn starts_within(s: Seq<char>, t: int) -> int
    decreases s.len(),
{
    if s.len() == 0 || t < 0 {
        0
    } else {
        1 + starts_within(s.drop_first(), t - clen(s[0]))
    }
}

proof fn lemma_byte_len_take_le(s: Seq<char>, k: int)
    requires
        0 <= k <= s.len(),
    ensures
        byte_len(s.take(k)) <= byte_len(s),
        byte_len(s.take(k)) >= 0,
{
    assert(s =~= s.take(k) + s.skip(k));
    lemma_byte_len_concat(s.take(k), s.skip(k));
    lemma_byte_len_nonneg(s.take(k));
    lemma_byte_len_nonneg(s.skip(k));
}

proof fn lemma_starts_within_run(s: Seq<char>, t: int, m: int)
    requires
        0 <= m <= s.len(),
        m < s.len() ==> byte_len(s.take(m)) > t,
        forall|j: int| 0 <= j < m ==> byte_len(#[trigger] s.take(j)) <= t,
    ensures
        starts_within(s, t) == m,
    decreases s.len(),
{
    if m == 0 {
        if s.len() == 0 {
        } else {
            assert(s.take(0) =~= Seq::<char>::empty());
            assert(byte_len(s.take(0)) == 0);
            assert(t < 0);
        }
    } else {
        assert(byte_len(s.take(0)) <= t);
        assert(s.take(0) =~= Seq::<char>::empty());
        assert(t >= 0);
        assert(s.len() > 0);
        let s2 = s.drop_first();
        let t2 = t - clen(s[0]);
        assert forall|j: int| 0 <= j < m - 1 implies byte_len(#[trigger] s2.take(j)) <= t2 by {
            assert(s.take(j + 1) =~= seq![s[0]] + s2.take(j));
            lemma_byte_len_concat(seq![s[0]], s2.take(j));
            assert(seq![s[0]].drop_first() =~= Seq::<char>::empty());
            assert(byte_len(seq![s[0]]) == clen(s[0]));
            assert(byte_len(s.take(j + 1)) <= t);
        }
        if m - 1 < s2.len() {
            assert(s.take(m) =~= seq![s[0]] + s2.take(m - 1));
            lemma_byte_len_concat(seq![s[0]], s2.take(m - 1));
            assert(seq![s[0]].drop_first() =~= Seq::<char>::empty());
            assert(byte_len(s2.take(m - 1)) > t2);
        }
        lemma_starts_within_run(s2, t2, m - 1);
    }
}

/// The truncation marker appended when content is cut to the byte budget.
pub open spec fn trunc_marker() -> Seq<char> {
    "...[truncated]"@
}

/// The byte budget left for content once the marker is accounted for.
pub open spec fn trunc_threshold(max: int) -> int {
    if max >= 14 {
        max - 14
    } else {
        0
    }
}

/// The result of truncating `s` to at most `max` bytes: `s` itself when it
/// already fits, else the characters that start within the threshold —
/// except the last such one — followed by the marker.
pub open spec fn truncate_spec(s: Seq<char>, max: int) -> Seq<char> {
    if byte_len(s) <= max {
        s
    } else {
        s.take(starts_within(s, trunc_threshold(max)) - 1) + trunc_marker()
    }
}

proof fn lemma_trunc_marker_bytes()
    ensures
        trunc_marker().len() == 14,
        byte_len(trunc_marker()) == 14,
{
    reveal_strlit("...[truncated]");
    assert(vstd::utf8::is_ascii_chars(trunc_marker()));
    lemma_ascii_byte_len(trunc_marker());
}

/// Cuts a string to a byte budget, never splitting a character, and marks
/// the cut.  Content that fits is returned unchanged.
pub fn truncate_to_bytes(input: &str, max_bytes: u64) -> (r: String)
    ensures
        r@ == truncate_spec(input@, max_bytes as int),
        byte_len(input@) <= max_bytes ==> r@ == input@,
        byte_len(input@) > max_bytes && max_bytes >= 14 ==> byte_len(r@) <= max_bytes,
{
    let blen = input.as_bytes().len();
    proof {
        lemma_byte_len_is_encode_len(input@);
    }
    if blen as u64 <= max_bytes {
        return input.to_owned();
    }
    let threshold: usize = if max_bytes >= 14 {
        (max_bytes - 14) as usize
    } else {
        0
    };
    let n = input.unicode_len();
    let mut k: usize = 0;
    let mut p: usize = 0;
    proof {
        assert(input@.take(0) =~= Seq::<char>::empty());
        lemma_byte_len_at_least_len(input@);
    }
    while k < n && p <= threshold
        invariant
            n == input@.len(),
            k <= n,
            blen == byte_len(input@),
            p == byte_len(input@.take(k as int)),
            threshold < blen,
            forall|j: int| 0 <= j < k ==> byte_len(#[trigger] input@.take(j)) <= threshold,
        decreases n - k,
    {
        let c = input.get_char(k);
        proof {
            lemma_byte_len_take_succ(input@, k as int);
            lemma_byte_len_take_le(input@, k as int + 1);
            lemma_clen_bounds(c);
        }
        p = p + char_len(c);
        k = k + 1;
    }
    proof {
        if k == n {
            assert(input@.take(n as int) =~= input@);
        }
        assert(p > threshold);
        assert(k >= 1);
        lemma_starts_within_run(input@, threshold as int, k as int);
    }
    let prefix = input.substring_char(0, k - 1);
    let mut r = prefix.to_owned();
    r.append("...[truncated]");
    proof {
        assert(input@.subrange(0, k - 1 as int) =~= input@.take(k - 1 as int));
        lemma_trunc_marker_bytes();
        lemma_byte_len_concat(input@.take(k - 1 as int), trunc_marker());
        assert(byte_len(input@.take(k - 1 as int)) <= threshold);
    }
    r
}

/// `needle` occurs as a contiguous run inside `hay`.
pub open spec fn contains_seq(hay: Seq<u8>, needle: Seq<u8>) -> bool {
    exists|i: int|
        0 <= i && i + needle.len() <= hay.len() && #[trigger] hay.subrange(i, i + needle.len())
            == needle
}

fn match_at(hay: &[u8], needle: &[u8], i: usize) -> (r: bool)
    requires
        i + needle@.len() <= hay@.len(),
    ensures
        r == (hay@.subrange(i as int, i + needle@.len()) == needle@),
{
    let n = hay.len();
    let m = needle.len();
    let mut j: usize = 0;
    while j < m
        invariant
            n == hay@.len(),
            m == needle@.len(),
            i + m <= n,
            j <= m,
            forall|x: int| 0 <= x < j ==> hay@[i + x] == needle@[x],
        decreases m - j,
    {
        if hay[i + j] != needle[j] {
            proof {
                if hay@.subrange(i as int, i + needle@.len()) == needle@ {
                    assert(hay@.subrange(i as int, i + needle@.len())[j as int] == needle@[j as int]);
                }
            }
            return false;
        }
        j += 1;
    }
    proof {
        assert(hay@.subrange(i as int, i + needle@.len()) =~= needle@);
    }
    true
}

/// Substring search over bytes.
pub fn contains_subslice(hay: &[u8], needle: &[u8]) -> (r: bool)
    ensures
        r == contains_seq(hay@, needle@),
{
    let n = hay.len();
    let m = needle.len();
    if m == 0 {
        proof {
            assert(hay@.subrange(0, 0 + needle@.len() as int) =~= needle@);
            assert(contains_seq(hay@, needle@));
        }
        return true;
    }
    if m > n {
        return false;
    }
    let mut i: usize = 0;
    while i <= n - m
        invariant
            n == hay@.len(),
            m == needle@.len(),
            1 <= m <= n,
            i <= n - m + 1,
            forall|x: int|
                0 <= x < i ==> #[trigger] hay@.subrange(x, x + needle@.len()) != needle@,
        decreases n - i,
    {
        if match_at(hay, needle, i) {
            return true;
        }
        i += 1;
    }
    false
}

/// `p` is a prefix of `s`.
pub open spec fn is_prefix(s: Seq<char>, p: Seq<char>) -> bool {
    p.len() <= s.len() && s.take(p.len() as int) == p
}

/// `str::starts_with` over whole characters.
pub fn str_starts_with(s: &str, prefix: &str) -> (r: bool)
    ensures
        r == is_prefix(s@, prefix@),
{
    let n = s.unicode_len();
    let m = prefix.unicode_len();
    if m > n {
        return false;
    }
    let mut j: usize = 0;
    while j < m
        invariant
            n == s@.len(),
            m == prefix@.len(),
            m <= n,
            j <= m,
            forall|x: int| 0 <= x < j ==> s@[x] == prefix@[x],
        decreases m - j,
    {
        if s.get_char(j) != prefix.get_char(j) {
            proof {
                if is_prefix(s@, prefix@) {
                    assert(s@.take(m as int)[j as int] == prefix@[j as int]);
                }
            }
            return false;
        }
        j += 1;
    }
    proof {
        assert(s@.take(m as int) =~= prefix@);
    }
    true
}

pub open spec fn is_digit_byte(b: u8) -> bool {
    0x30 <= b <= 0x39
}

pub open spec fn all_digits(s: Seq<u8>) -> bool {
    forall|i: int| 0 <= i < s.len() ==> is_digit_byte(#[trigger] s[i])
}

/// Value of a run of decimal digit bytes.
pub open spec fn digits_val(s: Seq<u8>) -> int
    decreases s.len(),
{
    if s.len() == 0 {
        0
    } else {
        digits_val(s.drop_last()) * 10 + (s.last() - 0x30)
    }
}

/// What `str::parse::<u64>` accepts: an optional leading `+`, then one or
/// more decimal digits whose value fits in a `u64`.
pub open spec fn parse_u64_spec(s: Seq<u8>) -> Option<u64> {
    let d = if s.len() > 0 && s[0] == 0x2b {
        s.drop_first()
    } else {
        s
    };
    if d.len() == 0 || !all_digits(d) || digits_val(d) > u64::MAX {
        None
    } else {
        Some(digits_val(d) as u64)
    }
}

proof fn lemma_digits_val_nonneg(s: Seq<u8>)
    requires
        all_digits(s),
    ensures
        digits_val(s) >= 0,
    decreases s.len(),
{
    if s.len() == 0 {
    } else {
        assert(all_digits(s.drop_last())) by {
            assert(forall|i: int| 0 <= i < s.len() - 1 ==> s.drop_last()[i] == s[i]);
        }
        lemma_digits_val_nonneg(s.drop_last());
    }
}

proof fn lemma_digits_val_grows(s: Seq<u8>, j: int)
    requires
        all_digits(s),
        0 <= j <= s.len(),
    ensures
        digits_val(s) >= digits_val(s.take(j)),
    decreases s.len() - j,
{
    if j == s.len() {
        assert(s.take(j) =~= s);
    } else {
        assert(s.take(j + 1).drop_last() =~= s.take(j));
        assert(all_digits(s.take(j + 1)));
        lemma_digits_val_nonneg(s.take(j + 1));
        assert(digits_val(s.take(j + 1)) == digits_val(s.take(j)) * 10 + (s[j] - 0x30));
        lemma_digits_val_nonneg(s.take(j));
        lemma_digits_val_grows(s, j + 1);
    }
}

/// Decimal parsing of a byte run, exactly as `str::parse::<u64>` would.
pub fn parse_u64(s: &[u8]) -> (r: Option<u64>)
    ensures
        r == parse_u64_spec(s@),
{
    let n = s.len();
    let start: usize = if n > 0 && s[0] == 0x2b {
        1
    } else {
        0
    };
    let ghost d = if start == 1 {
        s@.drop_first()
    } else {
        s@
    };
    proof {
        assert(forall|x: int| 0 <= x < d.len() ==> d[x] == s@[x + start]);
    }
    if start == n {
        return None;
    }
    let mut acc: u64 = 0;
    let mut i: usize = start;
    while i < n
        invariant
            n == s@.len(),
            start <= i <= n,
            start <= 1,
            d == (if s@.len() > 0 && s@[0] == 0x2b {
                s@.drop_first()
            } else {
                s@
            }),
            d.len() == n - start,
            forall|x: int| 0 <= x < d.len() ==> d[x] == s@[x + start],
            all_digits(d.take(i - start)),
            acc == digits_val(d.take(i - start)),
        decreases n - i,
    {
        let b = s[i];
        if b < 0x30 || b > 0x39 {
            proof {
                assert(d[i - start] == b);
                assert(!all_digits(d));
            }
            return None;
        }
        let v = (b - 0x30) as u64;
        if acc > (u64::MAX - v) / 10 {
            proof {
                assert(d.take(i - start + 1).drop_last() =~= d.take(i - start));
                assert(all_digits(d.take(i - start + 1)));
                assert(digits_val(d.take(i - start + 1)) == acc * 10 + v);
                assert(acc * 10 + v > u64::MAX) by (nonlinear_arith)
                    requires
                        acc > (u64::MAX - v) / 10,
                        v <= 9,
                ;
                if all_digits(d) {
                    lemma_digits_val_grows(d, i - start + 1);
                }
            }
            return None;
        }
        proof {
            assert(d.take(i - start + 1).drop_last() =~= d.take(i - start));
            assert(acc * 10 + v <= u64::MAX) by (nonlinear_arith)
                requires
                    acc <= (u64::MAX - v) / 10,
                    v <= 9,
            ;
        }
        acc = acc * 10 + v;
        i += 1;
    }
    proof {
        assert(d.take(i - start) =~= d);
    }
    Some(acc)
}

/// One pass of white-space normalization.  The state is 0 before anything
/// was emitted, 1 right after a non-space character, and 2 inside a
/// white-space gap that separates two tokens.
pub open spec fn norm_rec(s: Seq<char>, st: int) -> Seq<char>
    decreases s.len(),
{
    if s.len() == 0 {
        Seq::empty()
    } else if is_ws_char(s[0]) {
        norm_rec(s.drop_first(), if st == 0 {
            0
        } else {
            2
        })
    } else {
        (if st == 2 {
            seq![' ']
        } else {
            Seq::<char>::empty()
        }) + seq![s[0]] + norm_rec(s.drop_first(), 1)
    }
}

/// White-space runs collapsed to single spaces, ends trimmed: what
/// splitting on white space and joining with one space produces.
pub open spec fn normalize_ws(s: Seq<char>) -> Seq<char> {
    norm_rec(s, 0)
}

/// A one-line summary: normalized white space, cut to 280 bytes.
pub open spec fn summarize_spec(s: Seq<char>) -> Seq<char> {
    truncate_spec(normalize_ws(s), 280)
}

/// Collapses white space and truncates the result to a short line.
pub fn summarize_text(input: &str) -> (r: String)
    ensures
        r@ == summarize_spec(input@),
{
    let n = input.unicode_len();
    let mut out = String::new();
    let mut st: u8 = 0;
    let mut i: usize = 0;
    proof {
        assert(input@.skip(0) =~= input@);
    }
    while i < n
        invariant
            n == input@.len(),
            i <= n,
            st <= 2,
            normalize_ws(input@) == out@ + norm_rec(input@.skip(i as int), st as int),
        decreases n - i,
    {
        let c = input.get_char(i);
        let ghost out0 = out@;
        let ghost st0 = st as int;
        proof {
            assert(input@.skip(i as int).drop_first() =~= input@.skip(i as int + 1));
            assert(input@.skip(i as int)[0] == input@[i as int]);
        }
        if is_ws(c) {
            if st != 0 {
                st = 2;
            }
        } else {
            if st == 2 {
                out.append(" ");
                proof {
                    reveal_strlit(" ");
                    assert(" "@ =~= seq![' ']);
                }
            }
            let piece = input.substring_char(i, i + 1);
            proof {
                assert(input@.subrange(i as int, i as int + 1) =~= seq![input@[i as int]]);
            }
            out.append(piece);
            st = 1;
        }
        proof {
            assert(out@ + norm_rec(input@.skip(i as int + 1), st as int) =~= out0 + norm_rec(
                input@.skip(i as int),
                st0,
            ));
        }
        i += 1;
    }
    proof {
        assert(input@.skip(n as int) =~= Seq::<char>::empty());
        assert(out@ + Seq::<char>::empty() =~= out@);
    }
    truncate_to_bytes(out.as_str(), 280)
}

} // verus!
