//! Workspace snapshots and diffing: which files are watched, when a
//! cached read may be reused, and which changes become `file_diff`
//! events.

use vstd::prelude::*;

use vstd::string::StrSliceExecFns;
use vstd::string::StringExecFns;
use vstd::string::StringSliceAdditionalSpecFns;
use vstd::utf8::decode_utf8;
use vstd::utf8::valid_utf8;

use crate::outside::bytes_to_string;
use crate::outside::lower_of;
use crate::outside::lowercase;
use crate::outside::unified_diff;
use crate::outside::unified_diff_of;
use crate::text::byte_len;
use crate::text::is_prefix;
use crate::text::lemma_byte_len_is_encode_len;
use crate::text::str_eq;
use crate::text::str_starts_with;
use crate::text::trim_spec;
use crate::text::trim_str;
use crate::text::truncate_spec;
use crate::text::truncate_to_bytes;

verus! {

/// A pattern with its leading `./` runs and trailing slashes removed.
pub open spec fn strip_dotslash(p: Seq<char>) -> Seq<char>
    decreases p.len(),
{
    if p.len() >= 2 && p[0] == '.' && p[1] == '/' {
        strip_dotslash(p.skip(2))
    } else {
        p
    }
}

pub open spec fn strip_trailing_slash(p: Seq<char>) -> Seq<char>
    decreases p.len(),
{
    if p.len() > 0 && p.last() == '/' {
        strip_trailing_slash(p.drop_last())
    } else {
        p
    }
}

pub open spec fn normalize_pattern(p: Seq<char>) -> Seq<char> {
    strip_trailing_slash(strip_dotslash(p))
}

/// A path is excluded by a pattern when it equals the normalized pattern
/// or lies under it as a directory.
pub open spec fn excluded_by(path: Seq<char>, pattern: Seq<char>) -> bool {
    let n = normalize_pattern(pattern);
    path == n || is_prefix(path, n + seq!['/'])
}

pub open spec fn is_excluded_spec(path: Seq<char>, excludes: Seq<String>) -> bool {
    exists|i: int| 0 <= i < excludes.len() && excluded_by(path, (#[trigger] excludes[i])@)
}

fn pattern_matches(path: &str, pattern: &str) -> (r: bool)
    ensures
        r == excluded_by(path@, pattern@),
{
    let n = pattern.unicode_len();
    let mut a: usize = 0;
    proof {
        assert(pattern@.skip(0) =~= pattern@);
    }
    while a < n && a + 1 < n && pattern.get_char(a) == '.' && pattern.get_char(a + 1) == '/'
        invariant
            n == pattern@.len(),
            a <= n,
            strip_dotslash(pattern@) == strip_dotslash(pattern@.skip(a as int)),
        decreases n - a,
    {
        proof {
            assert(pattern@.skip(a as int)[0] == pattern@[a as int]);
            assert(pattern@.skip(a as int)[1] == pattern@[a as int + 1]);
            assert(pattern@.skip(a as int).skip(2) =~= pattern@.skip(a as int + 2));
        }
        a += 2;
    }
    proof {
        let rest = pattern@.skip(a as int);
        if rest.len() >= 2 {
            assert(rest[0] == pattern@[a as int]);
            assert(rest[1] == pattern@[a as int + 1]);
        }
        assert(strip_dotslash(pattern@) == rest);
    }
    let mut b: usize = n;
    proof {
        assert(pattern@.skip(a as int).take(n - a) =~= pattern@.skip(a as int));
    }
    while b > a && pattern.get_char(b - 1) == '/'
        invariant
            n == pattern@.len(),
            a <= b <= n,
            strip_trailing_slash(pattern@.skip(a as int)) == strip_trailing_slash(
                pattern@.skip(a as int).take(b - a),
            ),
        decreases b,
    {
        proof {
            let q = pattern@.skip(a as int);
            assert(q.take(b - a).last() == pattern@[b as int - 1]);
            assert(q.take(b - a).drop_last() =~= q.take(b - a - 1));
        }
        b -= 1;
    }
    proof {
        let q = pattern@.skip(a as int);
        let t = q.take(b - a);
        if t.len() > 0 {
            assert(t.last() == pattern@[b as int - 1]);
        }
        assert(strip_trailing_slash(q) == t);
        assert(t =~= pattern@.subrange(a as int, b as int));
    }
    let normalized = pattern.substring_char(a, b);
    if str_eq(path, normalized) {
        return true;
    }
    let mut with_slash = normalized.to_owned();
    with_slash.append("/");
    proof {
        reveal_strlit("/");
        assert("/"@ =~= seq!['/']);
    }
    str_starts_with(path, with_slash.as_str())
}

/// Whether a path falls under any configured exclusion prefix.
pub fn is_excluded_path(path: &str, excludes: &Vec<String>) -> (r: bool)
    ensures
        r == is_excluded_spec(path@, excludes@),
{
    let n = excludes.len();
    let mut i: usize = 0;
    while i < n
        invariant
            n == excludes@.len(),
            i <= n,
            forall|j: int| 0 <= j < i ==> !excluded_by(path@, (#[trigger] excludes@[j])@),
        decreases n - i,
    {
        if pattern_matches(path, excludes[i].as_str()) {
            return true;
        }
        i += 1;
    }
    false
}

/// Index of the last occurrence of a character, if any.
pub open spec fn last_ch(p: Seq<char>, c: char) -> Option<int>
    decreases p.len(),
{
    if p.len() == 0 {
        None
    } else if p.last() == c {
        Some(p.len() - 1)
    } else {
        last_ch(p.drop_last(), c)
    }
}

proof fn lemma_last_ch_run(p: Seq<char>, c: char, i: int)
    requires
        -1 <= i < p.len(),
        forall|j: int| i < j < p.len() ==> p[j] != c,
        i >= 0 ==> p[i] == c,
    ensures
        last_ch(p, c) == (if i >= 0 {
            Some(i)
        } else {
            None::<int>
        }),
    decreases p.len(),
{
    if p.len() == 0 {
    } else if i == p.len() - 1 {
    } else {
        assert(p.last() != c);
        assert(forall|j: int| i < j < p.len() - 1 ==> p.drop_last()[j] == p[j]);
        lemma_last_ch_run(p.drop_last(), c, i);
    }
}

/// The extension a relative file path carries: the part of its last
/// component after the last dot, unless the dot leads the component.
pub open spec fn ext_of(p: Seq<char>) -> Option<Seq<char>> {
    let fstart = match last_ch(p, '/') {
        Some(i) => i + 1,
        None => 0,
    };
    let name = p.skip(fstart);
    match last_ch(name, '.') {
        Some(j) => if j > 0 {
            Some(name.skip(j + 1))
        } else {
            None
        },
        None => None,
    }
}

/// The language tag of a path: its case-folded extension, or `unknown`.
pub open spec fn lang_of(p: Seq<char>) -> Seq<char> {
    match ext_of(p) {
        Some(e) => lower_of(e),
        None => "unknown"@,
    }
}

/// Best-effort language tag from the file extension.
pub fn guess_language(path: &str) -> (r: String)
    ensures
        r@ == lang_of(path@),
{
    let n = path.unicode_len();
    let mut s: usize = n;
    while s > 0 && path.get_char(s - 1) != '/'
        invariant
            n == path@.len(),
            s <= n,
            forall|j: int| s <= j < n ==> path@[j] != '/',
        decreases s,
    {
        s -= 1;
    }
    // s is the first index of the last component
    proof {
        if s > 0 {
            lemma_last_ch_run(path@, '/', s as int - 1);
        } else {
            lemma_last_ch_run(path@, '/', -1);
        }
    }
    let mut d: usize = n;
    while d > s && path.get_char(d - 1) != '.'
        invariant
            n == path@.len(),
            s <= d <= n,
            forall|j: int| d <= j < n ==> path@[j] != '.',
        decreases d,
    {
        d -= 1;
    }
    let ghost name = path@.skip(s as int);
    proof {
        assert(forall|j: int| 0 <= j < name.len() ==> name[j] == path@[j + s]);
        if d > s {
            lemma_last_ch_run(name, '.', d as int - 1 - s as int);
        } else {
            lemma_last_ch_run(name, '.', -1);
        }
    }
    if d - s > 1 {
        let ext = path.substring_char(d, n);
        proof {
            assert(name.skip(d as int - s as int) =~= path@.subrange(d as int, n as int));
        }
        lowercase(ext)
    } else {
        "unknown".to_owned()
    }
}

/// Strict lexicographic order on character sequences, by code point —
/// the order byte-wise path sorting produces.
pub open spec fn lex_lt(a: Seq<char>, b: Seq<char>) -> bool
    decreases b.len(),
{
    if b.len() == 0 {
        false
    } else if a.len() == 0 {
        true
    } else if a[0] != b[0] {
        (a[0] as u32) < (b[0] as u32)
    } else {
        lex_lt(a.drop_first(), b.drop_first())
    }
}

proof fn lemma_lex_total(a: Seq<char>, b: Seq<char>)
    ensures
        a != b ==> (lex_lt(a, b) <==> !lex_lt(b, a)),
        a == b ==> !lex_lt(a, b),
    decreases a.len() + b.len(),
{
    if a.len() == 0 && b.len() == 0 {
        assert(a =~= b);
    } else if a.len() == 0 || b.len() == 0 {
    } else if a[0] != b[0] {
        vstd::utf8::char_u32_cast(a[0], a[0] as u32);
        vstd::utf8::char_u32_cast(b[0], b[0] as u32);
        assert((a[0] as u32) != (b[0] as u32));
    } else {
        lemma_lex_total(a.drop_first(), b.drop_first());
        assert(forall|j: int| 1 <= j < a.len() ==> a[j] == a.drop_first()[j - 1]);
        assert(forall|j: int| 1 <= j < b.len() ==> b[j] == b.drop_first()[j - 1]);
        if a.drop_first() == b.drop_first() {
            assert(a =~= b);
        }
        if a == b {
            assert(a.drop_first() =~= b.drop_first());
        }
    }
}

proof fn lemma_lex_skip(a: Seq<char>, b: Seq<char>, i: int)
    requires
        0 <= i <= a.len(),
        i <= b.len(),
        forall|j: int| 0 <= j < i ==> a[j] == b[j],
    ensures
        lex_lt(a, b) == lex_lt(a.skip(i), b.skip(i)),
    decreases i,
{
    if i == 0 {
        assert(a.skip(0) =~= a);
        assert(b.skip(0) =~= b);
    } else {
        assert(a.len() > 0 && b.len() > 0);
        assert(a[0] == b[0]);
        assert(forall|j: int|
            0 <= j < i - 1 ==> a.drop_first()[j] == a[j + 1] && b.drop_first()[j] == b[j + 1]);
        lemma_lex_skip(a.drop_first(), b.drop_first(), i - 1);
        assert(a.drop_first().skip(i - 1) =~= a.skip(i));
        assert(b.drop_first().skip(i - 1) =~= b.skip(i));
    }
}

/// Strict lexicographic comparison of two strings.
pub fn str_lt(a: &str, b: &str) -> (r: bool)
    ensures
        r == lex_lt(a@, b@),
{
    let an = a.unicode_len();
    let bn = b.unicode_len();
    let mut i: usize = 0;
    while i < an && i < bn && a.get_char(i) == b.get_char(i)
        invariant
            an == a@.len(),
            bn == b@.len(),
            i <= an,
            i <= bn,
            forall|j: int| 0 <= j < i ==> a@[j] == b@[j],
        decreases an - i,
    {
        i += 1;
    }
    proof {
        lemma_lex_skip(a@, b@, i as int);
        let ar = a@.skip(i as int);
        let br = b@.skip(i as int);
        if i < an && i < bn {
            assert(ar[0] == a@[i as int]);
            assert(br[0] == b@[i as int]);
        }
    }
    if i == bn {
        false
    } else if i == an {
        true
    } else {
        (a.get_char(i) as u32) < (b.get_char(i) as u32)
    }
}

/// A file's modification instant, split into seconds and nanoseconds.
#[derive(Clone, Copy, Debug, PartialEq, Eq, Structural)]
pub struct Mtime {
    pub secs: i64,
    pub nanos: u32,
}

/// What a directory walk reports of one file.
pub struct FileMeta {
    pub path: String,
    pub len: u64,
    pub modified: Option<Mtime>,
}

/// One watched file in a snapshot: its size, its modification instant,
/// and its cached text.
pub struct SnapshotEntry {
    pub path: String,
    pub len: u64,
    pub modified: Option<Mtime>,
    pub content: String,
}

/// The fields of an entry that matter semantically.
pub struct EntryModel {
    pub len: u64,
    pub modified: Option<Mtime>,
    pub content: Seq<char>,
}

pub open spec fn entry_model(e: SnapshotEntry) -> EntryModel {
    EntryModel { len: e.len, modified: e.modified, content: e.content@ }
}

/// First entry under a path, if any.
pub open spec fn snap_get(s: Seq<SnapshotEntry>, p: Seq<char>) -> Option<SnapshotEntry>
    decreases s.len(),
{
    if s.len() == 0 {
        None
    } else if s[0].path@ == p {
        Some(s[0])
    } else {
        snap_get(s.drop_first(), p)
    }
}

pub open spec fn snap_get_model(s: Seq<SnapshotEntry>, p: Seq<char>) -> Option<EntryModel> {
    match snap_get(s, p) {
        Some(e) => Some(entry_model(e)),
        None => None,
    }
}

/// Every path occurs at most once.
pub open spec fn snap_unique(s: Seq<SnapshotEntry>) -> bool {
    forall|i: int, j: int| 0 <= i < j < s.len() ==> (#[trigger] s[i]).path@ != (#[trigger] s[j]).path@
}

proof fn lemma_snap_get_none(s: Seq<SnapshotEntry>, p: Seq<char>)
    ensures
        (snap_get(s, p) is None) <==> (forall|i: int| 0 <= i < s.len() ==> (#[trigger] s[i]).path@ != p),
    decreases s.len(),
{
    if s.len() == 0 {
    } else if s[0].path@ == p {
    } else {
        lemma_snap_get_none(s.drop_first(), p);
        assert(forall|i: int| 1 <= i < s.len() ==> s[i] == s.drop_first()[i - 1]);
        if snap_get(s, p) is None {
            assert forall|i: int| 0 <= i < s.len() implies (#[trigger] s[i]).path@ != p by {
                if i >= 1 {
                    assert(s.drop_first()[i - 1].path@ != p);
                }
            }
        }
    }
}

proof fn lemma_snap_get_push(s: Seq<SnapshotEntry>, e: SnapshotEntry, p: Seq<char>)
    ensures
        snap_get(s.push(e), p) == (match snap_get(s, p) {
            Some(x) => Some(x),
            None => if e.path@ == p {
                Some(e)
            } else {
                None
            },
        }),
    decreases s.len(),
{
    if s.len() == 0 {
        assert(s.push(e)[0] == e);
        assert(s.push(e).drop_first() =~= Seq::<SnapshotEntry>::empty());
    } else {
        assert(s.push(e)[0] == s[0]);
        assert(s.push(e).drop_first() =~= s.drop_first().push(e));
        lemma_snap_get_push(s.drop_first(), e, p);
    }
}

proof fn lemma_snap_get_remove(s: Seq<SnapshotEntry>, i: int, p: Seq<char>)
    requires
        snap_unique(s),
        0 <= i < s.len(),
    ensures
        snap_get(s.remove(i), p) == (if s[i].path@ == p {
            None::<SnapshotEntry>
        } else {
            snap_get(s, p)
        }),
    decreases s.len(),
{
    if i == 0 {
        assert(s.remove(0) =~= s.drop_first());
        if s[0].path@ == p {
            lemma_snap_get_none(s.drop_first(), p);
            assert(forall|j: int| 1 <= j < s.len() ==> s[j] == s.drop_first()[j - 1]);
            assert forall|j: int|
                0 <= j < s.drop_first().len() implies (#[trigger] s.drop_first()[j]).path@
                != p by {
                assert(s.drop_first()[j] == s[j + 1]);
                assert(s[j + 1].path@ != s[0].path@);
            }
        }
    } else {
        assert(s.remove(i)[0] == s[0]);
        assert(s.remove(i).drop_first() =~= s.drop_first().remove(i - 1));
        assert(snap_unique(s.drop_first())) by {
            assert(forall|j: int| 1 <= j < s.len() ==> s[j] == s.drop_first()[j - 1]);
        }
        lemma_snap_get_remove(s.drop_first(), i - 1, p);
        assert(s.drop_first()[i - 1] == s[i]);
    }
}

/// First entry index under a path, if any.
fn snap_find(s: &Vec<SnapshotEntry>, path: &str) -> (r: Option<usize>)
    ensures
        match r {
            Some(i) => i < s@.len() && s@[i as int].path@ == path@ && snap_get(s@, path@) == Some(
                s@[i as int],
            ) && (forall|j: int| 0 <= j < i ==> (#[trigger] s@[j]).path@ != path@),
            None => snap_get(s@, path@) is None,
        },
{
    let n = s.len();
    let mut i: usize = 0;
    proof {
        assert(s@.skip(0) =~= s@);
    }
    while i < n
        invariant
            n == s@.len(),
            i <= n,
            snap_get(s@, path@) == snap_get(s@.skip(i as int), path@),
            forall|j: int| 0 <= j < i ==> (#[trigger] s@[j]).path@ != path@,
        decreases n - i,
    {
        proof {
            assert(s@.skip(i as int)[0] == s@[i as int]);
            assert(s@.skip(i as int).drop_first() =~= s@.skip(i as int + 1));
        }
        if str_eq(s[i].path.as_str(), path) {
            return Some(i);
        }
        i += 1;
    }
    proof {
        assert(s@.skip(n as int) =~= Seq::<SnapshotEntry>::empty());
    }
    None
}

proof fn lemma_snap_get_update(s: Seq<SnapshotEntry>, k: int, e: SnapshotEntry, p: Seq<char>)
    requires
        0 <= k < s.len(),
        s[k].path@ == e.path@,
        forall|j: int| 0 <= j < k ==> (#[trigger] s[j]).path@ != e.path@,
    ensures
        snap_get(s.update(k, e), p) == (if p == e.path@ {
            Some(e)
        } else {
            snap_get(s, p)
        }),
    decreases s.len(),
{
    let u = s.update(k, e);
    if k == 0 {
        assert(u[0] == e);
        assert(u.drop_first() =~= s.drop_first());
        if p != e.path@ && s[0].path@ == p {
            assert(false);
        }
    } else {
        assert(u[0] == s[0]);
        assert(u.drop_first() =~= s.drop_first().update(k - 1, e));
        assert(forall|j: int| 0 <= j < s.len() - 1 ==> s.drop_first()[j] == s[j + 1]);
        lemma_snap_get_update(s.drop_first(), k - 1, e, p);
        assert(s[0].path@ != e.path@);
    }
}

/// A file needs no fresh read when the cached entry's length and
/// modification instant both still match.
pub open spec fn cache_hit(prev: Seq<SnapshotEntry>, m: FileMeta) -> bool {
    match snap_get(prev, m.path@) {
        Some(e) => e.len == m.len && e.modified == m.modified,
        None => false,
    }
}

/// A file is watched when it is not excluded and not over the size
/// ceiling.
pub open spec fn watched(m: FileMeta, excludes: Seq<String>) -> bool {
    !is_excluded_spec(m.path@, excludes) && m.len <= 2000000
}

/// The paths one polling pass must read afresh, in walk order: watched
/// files whose cached entry no longer matches.
pub open spec fn plan_spec(
    prev: Seq<SnapshotEntry>,
    listing: Seq<FileMeta>,
    excludes: Seq<String>,
) -> Seq<String>
    decreases listing.len(),
{
    if listing.len() == 0 {
        Seq::empty()
    } else {
        (if watched(listing[0], excludes) && !cache_hit(prev, listing[0]) {
            seq![listing[0].path]
        } else {
            Seq::empty()
        }) + plan_spec(prev, listing.drop_first(), excludes)
    }
}

/// Decides which files a polling pass must read.  Everything else is
/// either ignored or served from the previous snapshot's cache.
pub fn snapshot_plan(
    prev: &Vec<SnapshotEntry>,
    listing: &Vec<FileMeta>,
    excludes: &Vec<String>,
) -> (r: Vec<String>)
    ensures
        r@ == plan_spec(prev@, listing@, excludes@),
{
    let n = listing.len();
    let mut r: Vec<String> = Vec::new();
    let mut i: usize = 0;
    proof {
        assert(listing@.skip(0) =~= listing@);
        assert(r@ + plan_spec(prev@, listing@, excludes@) =~= plan_spec(
            prev@,
            listing@,
            excludes@,
        ));
    }
    while i < n
        invariant
            n == listing@.len(),
            i <= n,
            plan_spec(prev@, listing@, excludes@) == r@ + plan_spec(
                prev@,
                listing@.skip(i as int),
                excludes@,
            ),
        decreases n - i,
    {
        proof {
            assert(listing@.skip(i as int)[0] == listing@[i as int]);
            assert(listing@.skip(i as int).drop_first() =~= listing@.skip(i as int + 1));
        }
        let m = &listing[i];
        let mut need = false;
        if !is_excluded_path(m.path.as_str(), excludes) && m.len <= 2000000 {
            match snap_find(prev, m.path.as_str()) {
                Some(j) => {
                    let e = &prev[j];
                    let same_mtime = match (&e.modified, &m.modified) {
                        (Some(a), Some(b)) => a.secs == b.secs && a.nanos == b.nanos,
                        (None, None) => true,
                        _ => false,
                    };
                    if !(e.len == m.len && same_mtime) {
                        need = true;
                    }
                },
                None => {
                    need = true;
                },
            }
        }
        if need {
            r.push(m.path.clone());
        }
        proof {
            assert(r@ + plan_spec(prev@, listing@.skip(i as int + 1), excludes@) =~= plan_spec(
                prev@,
                listing@,
                excludes@,
            ));
        }
        i += 1;
    }
    r
}

/// First read result under a path, if any.
pub open spec fn contents_get(contents: Seq<(String, Option<Vec<u8>>)>, p: Seq<char>) -> Option<
    Option<Vec<u8>>,
>
    decreases contents.len(),
{
    if contents.len() == 0 {
        None
    } else if contents[0].0@ == p {
        Some(contents[0].1)
    } else {
        contents_get(contents.drop_first(), p)
    }
}

fn contents_find<'a>(contents: &'a Vec<(String, Option<Vec<u8>>)>, path: &str) -> (r: Option<
    &'a Option<Vec<u8>>,
>)
    ensures
        match r {
            Some(c) => contents_get(contents@, path@) == Some(*c),
            None => contents_get(contents@, path@) is None,
        },
{
    let n = contents.len();
    let mut i: usize = 0;
    proof {
        assert(contents@.skip(0) =~= contents@);
    }
    while i < n
        invariant
            n == contents@.len(),
            i <= n,
            contents_get(contents@, path@) == contents_get(contents@.skip(i as int), path@),
        decreases n - i,
    {
        proof {
            assert(contents@.skip(i as int)[0] == contents@[i as int]);
            assert(contents@.skip(i as int).drop_first() =~= contents@.skip(i as int + 1));
        }
        if str_eq(contents[i].0.as_str(), path) {
            return Some(&contents[i].1);
        }
        i += 1;
    }
    proof {
        assert(contents@.skip(n as int) =~= Seq::<(String, Option<Vec<u8>>)>::empty());
    }
    None
}

/// The bytes hold a NUL — the binary-file heuristic.
pub open spec fn has_nul(b: Seq<u8>) -> bool {
    exists|i: int| 0 <= i < b.len() && b[i] == 0
}

fn contains_nul(b: &Vec<u8>) -> (r: bool)
    ensures
        r == has_nul(b@),
{
    let n = b.len();
    let mut i: usize = 0;
    while i < n
        invariant
            n == b@.len(),
            i <= n,
            forall|j: int| 0 <= j < i ==> b@[j] != 0,
        decreases n - i,
    {
        if b[i] == 0 {
            return true;
        }
        i += 1;
    }
    false
}

/// The entry one walked file contributes to the new snapshot, if any:
/// nothing for an ignored file; the cached entry on a cache hit; else
/// the freshly read text, unless the read failed, the bytes hold a NUL,
/// or they are not UTF-8.
pub open spec fn produced(
    prev: Seq<SnapshotEntry>,
    m: FileMeta,
    contents: Seq<(String, Option<Vec<u8>>)>,
    excludes: Seq<String>,
) -> Option<EntryModel> {
    if !watched(m, excludes) {
        None
    } else if cache_hit(prev, m) {
        snap_get_model(prev, m.path@)
    } else {
        match contents_get(contents, m.path@) {
            Some(Some(bytes)) => if has_nul(bytes@) || !valid_utf8(bytes@) {
                None
            } else {
                Some(EntryModel { len: m.len, modified: m.modified, content: decode_utf8(bytes@) })
            },
            _ => None,
        }
    }
}

/// What the new snapshot holds under each path: the entry of the last
/// walked file with that path that contributed one, if any.
pub open spec fn build_get(
    prev: Seq<SnapshotEntry>,
    listing: Seq<FileMeta>,
    contents: Seq<(String, Option<Vec<u8>>)>,
    excludes: Seq<String>,
    p: Seq<char>,
) -> Option<EntryModel>
    decreases listing.len(),
{
    if listing.len() == 0 {
        None
    } else {
        let m = listing.last();
        if m.path@ == p && produced(prev, m, contents, excludes) is Some {
            produced(prev, m, contents, excludes)
        } else {
            build_get(prev, listing.drop_last(), contents, excludes, p)
        }
    }
}

/// Builds the next snapshot from the walk, the previous snapshot's cache
/// and the fresh reads.
pub fn snapshot_build(
    prev: &Vec<SnapshotEntry>,
    listing: &Vec<FileMeta>,
    contents: &Vec<(String, Option<Vec<u8>>)>,
    excludes: &Vec<String>,
) -> (r: Vec<SnapshotEntry>)
    ensures
        snap_unique(r@),
        forall|p: Seq<char>|
            #[trigger] snap_get_model(r@, p) == build_get(prev@, listing@, contents@, excludes@, p),
{
    let n = listing.len();
    let mut r: Vec<SnapshotEntry> = Vec::new();
    let mut i: usize = 0;
    while i < n
        invariant
            n == listing@.len(),
            i <= n,
            snap_unique(r@),
            forall|p: Seq<char>|
                #[trigger] snap_get_model(r@, p) == build_get(
                    prev@,
                    listing@.take(i as int),
                    contents@,
                    excludes@,
                    p,
                ),
        decreases n - i,
    {
        proof {
            assert(listing@.take(i as int + 1).drop_last() =~= listing@.take(i as int));
            assert(listing@.take(i as int + 1).last() == listing@[i as int]);
        }
        let m = &listing[i];
        let mut entry: Option<SnapshotEntry> = None;
        if !is_excluded_path(m.path.as_str(), excludes) && m.len <= 2000000 {
            let mut hit = false;
            match snap_find(prev, m.path.as_str()) {
                Some(j) => {
                    let e = &prev[j];
                    let same_mtime = match (&e.modified, &m.modified) {
                        (Some(a), Some(b)) => a.secs == b.secs && a.nanos == b.nanos,
                        (None, None) => true,
                        _ => false,
                    };
                    if e.len == m.len && same_mtime {
                        hit = true;
                        entry = Some(
                            SnapshotEntry {
                                path: e.path.clone(),
                                len: e.len,
                                modified: e.modified,
                                content: e.content.clone(),
                            },
                        );
                    }
                },
                None => {},
            }
            if !hit {
                match contents_find(contents, m.path.as_str()) {
                    Some(read) => match read {
                        Some(bytes) => {
                            if !contains_nul(bytes) {
                                match bytes_to_string(bytes.as_slice()) {
                                    Some(text) => {
                                        entry = Some(
                                            SnapshotEntry {
                                                path: m.path.clone(),
                                                len: m.len,
                                                modified: m.modified,
                                                content: text,
                                            },
                                        );
                                    },
                                    None => {},
                                }
                            }
                        },
                        None => {},
                    },
                    None => {},
                }
            }
        }
        let ghost produced_here = produced(prev@, listing@[i as int], contents@, excludes@);
        proof {
            match &entry {
                Some(e) => {
                    assert(produced_here == Some(entry_model(*e)));
                },
                None => {
                    assert(produced_here is None);
                },
            }
        }
        match entry {
            Some(e) => {
                let ghost pre = r@;
                let ghost ev = e;
                match snap_find(&r, e.path.as_str()) {
                    Some(k) => {
                        r[k] = e;
                        proof {
                            assert forall|p: Seq<char>| #[trigger]
                                snap_get_model(r@, p) == build_get(
                                    prev@,
                                    listing@.take(i as int + 1),
                                    contents@,
                                    excludes@,
                                    p,
                                ) by {
                                assert(snap_get_model(pre, p) == build_get(
                                    prev@,
                                    listing@.take(i as int),
                                    contents@,
                                    excludes@,
                                    p,
                                ));
                                assert(listing@.take(i as int + 1).drop_last() =~= listing@.take(
                                    i as int,
                                ));
                                lemma_snap_get_update(pre, k as int, ev, p);
                            }
                            assert(snap_unique(r@)) by {
                                assert(forall|j: int|
                                    0 <= j < r@.len() ==> (#[trigger] r@[j]).path@ == pre[j].path@);
                            }
                        }
                    },
                    None => {
                        r.push(e);
                        proof {
                            assert forall|p: Seq<char>| #[trigger]
                                snap_get_model(r@, p) == build_get(
                                    prev@,
                                    listing@.take(i as int + 1),
                                    contents@,
                                    excludes@,
                                    p,
                                ) by {
                                assert(snap_get_model(pre, p) == build_get(
                                    prev@,
                                    listing@.take(i as int),
                                    contents@,
                                    excludes@,
                                    p,
                                ));
                                assert(listing@.take(i as int + 1).drop_last() =~= listing@.take(
                                    i as int,
                                ));
                                lemma_snap_get_push(pre, ev, p);
                            }
                            assert(snap_unique(r@)) by {
                                lemma_snap_get_none(pre, ev.path@);
                                assert(forall|j: int| 0 <= j < pre.len() ==> r@[j] == pre[j]);
                                assert(r@.last() == ev);
                            }
                        }
                    },
                }
            },
            None => {
                proof {
                    assert forall|p: Seq<char>| #[trigger]
                        snap_get_model(r@, p) == build_get(
                            prev@,
                            listing@.take(i as int + 1),
                            contents@,
                            excludes@,
                            p,
                        ) by {}
                }
            },
        }
        i += 1;
    }
    proof {
        assert(listing@.take(n as int) =~= listing@);
    }
    r
}

proof fn lemma_lex_trans(a: Seq<char>, b: Seq<char>, c: Seq<char>)
    requires
        lex_lt(a, b),
        lex_lt(b, c),
    ensures
        lex_lt(a, c),
    decreases a.len() + b.len() + c.len(),
{
    if b.len() == 0 || c.len() == 0 {
    } else if a.len() == 0 {
    } else {
        vstd::utf8::char_u32_cast(a[0], a[0] as u32);
        vstd::utf8::char_u32_cast(b[0], b[0] as u32);
        vstd::utf8::char_u32_cast(c[0], c[0] as u32);
        if a[0] == b[0] && b[0] == c[0] {
            lemma_lex_trans(a.drop_first(), b.drop_first(), c.drop_first());
        }
    }
}

pub open spec fn has_str(v: Seq<String>, q: Seq<char>) -> bool {
    exists|i: int| 0 <= i < v.len() && (#[trigger] v[i])@ == q
}

pub open spec fn strings_sorted(v: Seq<String>) -> bool {
    forall|i: int, j: int| 0 <= i < j < v.len() ==> lex_lt((#[trigger] v[i])@, (#[trigger] v[j])@)
}

/// Inserts a path into a strictly sorted list, keeping it sorted and
/// duplicate-free.
fn sorted_insert_unique(v: &mut Vec<String>, p: &String)
    requires
        strings_sorted(old(v)@),
    ensures
        strings_sorted(final(v)@),
        forall|q: Seq<char>| #[trigger] has_str(final(v)@, q) == (has_str(old(v)@, q) || q == p@),
{
    let n = v.len();
    let mut idx: usize = 0;
    while idx < n && str_lt(v[idx].as_str(), p.as_str())
        invariant
            n == v@.len(),
            idx <= n,
            forall|j: int| 0 <= j < idx ==> lex_lt((#[trigger] v@[j])@, p@),
        decreases n - idx,
    {
        idx += 1;
    }
    if idx < n && str_eq(v[idx].as_str(), p.as_str()) {
        proof {
            assert(v@[idx as int]@ == p@);
            assert forall|q: Seq<char>| #[trigger]
                has_str(v@, q) == (has_str(v@, q) || q == p@) by {
                if q == p@ {
                    assert(v@[idx as int]@ == q);
                }
            }
        }
        return ;
    }
    proof {
        if idx < n {
            lemma_lex_total(v@[idx as int]@, p@);
        }
    }
    let ghost pre = v@;
    v.insert(idx, p.clone());
    proof {
        assert(v@ == pre.insert(idx as int, *p));
        assert(forall|j: int| 0 <= j < idx ==> v@[j] == pre[j]);
        assert(v@[idx as int] == *p);
        assert(forall|j: int| idx < j < v@.len() ==> v@[j] == pre[j - 1]);
        assert forall|i: int, j: int|
            0 <= i < j < v@.len() implies lex_lt((#[trigger] v@[i])@, (#[trigger] v@[j])@) by {
            if i < idx && j == idx {
            } else if i == idx && j > idx {
                if idx < pre.len() {
                    if idx < j - 1 {
                        lemma_lex_trans(p@, pre[idx as int]@, pre[j - 1]@);
                    }
                }
            } else if i < idx && j > idx {
                if idx < pre.len() {
                    if j - 1 > idx {
                        lemma_lex_trans(pre[i]@, pre[idx as int]@, pre[j - 1]@);
                    }
                } else {
                    // idx == pre.len(): everything before is below p
                }
            }
        }
        assert forall|q: Seq<char>| #[trigger]
            has_str(v@, q) == (has_str(pre, q) || q == p@) by {
            if has_str(v@, q) {
                let i = choose|i: int| 0 <= i < v@.len() && v@[i]@ == q;
                if i < idx {
                    assert(pre[i]@ == q);
                } else if i == idx {
                } else {
                    assert(pre[i - 1]@ == q);
                }
            }
            if has_str(pre, q) {
                let i = choose|i: int| 0 <= i < pre.len() && pre[i]@ == q;
                if i < idx {
                    assert(v@[i]@ == q);
                } else {
                    assert(v@[i + 1]@ == q);
                }
            }
            if q == p@ {
                assert(v@[idx as int]@ == q);
            }
        }
    }
}

/// One `file_diff` event in the making.
pub struct DiffDraft {
    pub path: String,
    /// The unified diff text, cut to the byte budget.
    pub diff: String,
    /// Byte length of the full, uncut diff.
    pub bytes: u64,
    pub language: String,
}

/// The text a snapshot holds under a path; absent files read as empty.
pub open spec fn model_text(m: Option<EntryModel>) -> Seq<char> {
    match m {
        Some(e) => e.content,
        None => Seq::empty(),
    }
}

/// A path deserves a `file_diff` event exactly when its contents differ
/// across the two snapshots and the unified diff is not blank.
pub open spec fn diff_needed(
    prev: Seq<SnapshotEntry>,
    next: Seq<SnapshotEntry>,
    p: Seq<char>,
) -> bool {
    let b = model_text(snap_get_model(prev, p));
    let a = model_text(snap_get_model(next, p));
    b != a && trim_spec(unified_diff_of(b, a, p)).len() > 0
}

pub open spec fn in_union(prev: Seq<SnapshotEntry>, next: Seq<SnapshotEntry>, p: Seq<char>) -> bool {
    snap_get(prev, p) is Some || snap_get(next, p) is Some
}

/// Emits one draft per changed path, in ascending path order: no event
/// for a path whose content is unchanged across the two snapshots, and
/// exactly one event, carrying the unified diff, for each changed one.
#[verifier::rlimit(100)]
pub fn diff_drafts(prev: &Vec<SnapshotEntry>, next: &Vec<SnapshotEntry>, max_event_bytes: u64) -> (r:
    Vec<DiffDraft>)
    ensures
        forall|i: int, j: int|
            0 <= i < j < r@.len() ==> lex_lt((#[trigger] r@[i]).path@, (#[trigger] r@[j]).path@),
        forall|i: int|
            0 <= i < r@.len() ==> {
                let p = (#[trigger] r@[i]).path@;
                let b = model_text(snap_get_model(prev@, p));
                let a = model_text(snap_get_model(next@, p));
                &&& in_union(prev@, next@, p)
                &&& diff_needed(prev@, next@, p)
                &&& r@[i].diff@ == truncate_spec(unified_diff_of(b, a, p), max_event_bytes as int)
                &&& r@[i].bytes == byte_len(unified_diff_of(b, a, p))
                &&& r@[i].language@ == lang_of(p)
            },
        forall|p: Seq<char>|
            in_union(prev@, next@, p) && #[trigger] diff_needed(prev@, next@, p) ==> exists|i: int|
                0 <= i < r@.len() && (#[trigger] r@[i]).path@ == p,
{
    let mut paths: Vec<String> = Vec::new();
    let pn = prev.len();
    let mut i: usize = 0;
    while i < pn
        invariant
            pn == prev@.len(),
            i <= pn,
            strings_sorted(paths@),
            forall|q: Seq<char>| #[trigger]
                has_str(paths@, q) == exists|j: int|
                    0 <= j < i && (#[trigger] prev@[j]).path@ == q,
        decreases pn - i,
    {
        sorted_insert_unique(&mut paths, &prev[i].path);
        i += 1;
    }
    let nn = next.len();
    let mut i2: usize = 0;
    while i2 < nn
        invariant
            nn == next@.len(),
            i2 <= nn,
            strings_sorted(paths@),
            forall|q: Seq<char>| #[trigger]
                has_str(paths@, q) == ((exists|j: int|
                    0 <= j < prev@.len() && (#[trigger] prev@[j]).path@ == q) || (exists|j: int|
                    0 <= j < i2 && (#[trigger] next@[j]).path@ == q)),
        decreases nn - i2,
    {
        sorted_insert_unique(&mut paths, &next[i2].path);
        i2 += 1;
    }
    let kn = paths.len();
    let mut drafts: Vec<DiffDraft> = Vec::new();
    let mut k: usize = 0;
    while k < kn
        invariant
            kn == paths@.len(),
            k <= kn,
            strings_sorted(paths@),
            forall|i: int, j: int|
                0 <= i < j < drafts@.len() ==> lex_lt(
                    (#[trigger] drafts@[i]).path@,
                    (#[trigger] drafts@[j]).path@,
                ),
            forall|i: int|
                0 <= i < drafts@.len() ==> exists|j: int|
                    0 <= j < k && (#[trigger] drafts@[i]).path@ == (#[trigger] paths@[j])@,
            forall|i: int|
                0 <= i < drafts@.len() ==> {
                    let p = (#[trigger] drafts@[i]).path@;
                    let b = model_text(snap_get_model(prev@, p));
                    let a = model_text(snap_get_model(next@, p));
                    &&& in_union(prev@, next@, p)
                    &&& diff_needed(prev@, next@, p)
                    &&& drafts@[i].diff@ == truncate_spec(
                        unified_diff_of(b, a, p),
                        max_event_bytes as int,
                    )
                    &&& drafts@[i].bytes == byte_len(unified_diff_of(b, a, p))
                    &&& drafts@[i].language@ == lang_of(p)
                },
            forall|j: int|
                0 <= j < k && diff_needed(prev@, next@, (#[trigger] paths@[j])@) ==> exists|i: int|
                    0 <= i < drafts@.len() && (#[trigger] drafts@[i]).path@ == paths@[j]@,
        decreases kn - k,
    {
        let pstr = &paths[k];
        let ghost p = pstr@;
        let ghost drafts0 = drafts@;
        let bfound = snap_find(prev, pstr.as_str());
        let b: &str = match bfound {
            Some(ix) => prev[ix].content.as_str(),
            None => "",
        };
        let afound = snap_find(next, pstr.as_str());
        let a: &str = match afound {
            Some(ix) => next[ix].content.as_str(),
            None => "",
        };
        proof {
            reveal_strlit("");
            assert(""@ =~= Seq::<char>::empty());
            assert(b@ == model_text(snap_get_model(prev@, p)));
            assert(a@ == model_text(snap_get_model(next@, p)));
        }
        if !crate::text::str_eq(b, a) {
            let d = unified_diff(b, a, pstr.as_str());
            let t = trim_str(d.as_str());
            if t.as_str().is_empty() {
                proof {
                    assert(!diff_needed(prev@, next@, p));
                }
            } else {
                let blen = d.as_str().as_bytes().len();
                proof {
                    assert(diff_needed(prev@, next@, p));
                    lemma_byte_len_is_encode_len(unified_diff_of(b@, a@, p));
                }
                let draft = DiffDraft {
                    path: pstr.clone(),
                    diff: truncate_to_bytes(d.as_str(), max_event_bytes),
                    bytes: blen as u64,
                    language: guess_language(pstr.as_str()),
                };
                let ghost predrafts = drafts@;
                drafts.push(draft);
                proof {
                    assert(drafts@.last().path@ == paths@[k as int]@);
                    assert forall|i: int|
                        0 <= i < drafts@.len() implies exists|j: int|
                        0 <= j < k + 1 && (#[trigger] drafts@[i]).path@ == (#[trigger] paths@[j])@
                        by {
                        if i < drafts@.len() - 1 {
                            let j = choose|j: int|
                                0 <= j < k && predrafts[i].path@ == (#[trigger] paths@[j])@;
                            assert(drafts@[i].path@ == paths@[j]@);
                        } else {
                            assert(drafts@[i].path@ == paths@[k as int]@);
                        }
                    }
                    assert forall|i: int, j: int|
                        0 <= i < j < drafts@.len() implies lex_lt(
                        (#[trigger] drafts@[i]).path@,
                        (#[trigger] drafts@[j]).path@,
                    ) by {
                        if j < drafts@.len() - 1 {
                            assert(lex_lt(predrafts[i].path@, predrafts[j].path@));
                        } else {
                            let x = choose|x: int|
                                0 <= x < k && predrafts[i].path@ == (#[trigger] paths@[x])@;
                            assert(lex_lt(paths@[x]@, paths@[k as int]@));
                        }
                    }
                }
            }
        } else {
            proof {
                assert(!diff_needed(prev@, next@, p));
            }
        }
        proof {
            assert forall|j: int|
                0 <= j < k + 1 && diff_needed(prev@, next@, (#[trigger] paths@[j])@) implies exists|
                i: int,
            |
                0 <= i < drafts@.len() && (#[trigger] drafts@[i]).path@ == paths@[j]@ by {
                if j == k {
                    assert(drafts@.last().path@ == p);
                } else {
                    let i = choose|i: int|
                        0 <= i < drafts0.len() && (#[trigger] drafts0[i]).path@ == paths@[j]@;
                    assert(drafts@[i].path@ == paths@[j]@);
                }
            }
        }
        k += 1;
    }
    proof {
        assert forall|p2: Seq<char>|
            in_union(prev@, next@, p2) && #[trigger] diff_needed(prev@, next@, p2) implies exists|
            i: int,
        |
            0 <= i < drafts@.len() && (#[trigger] drafts@[i]).path@ == p2 by {
            lemma_snap_get_none(prev@, p2);
            lemma_snap_get_none(next@, p2);
            assert(has_str(paths@, p2));
            let j = choose|j: int| 0 <= j < paths@.len() && (#[trigger] paths@[j])@ == p2;
            assert(diff_needed(prev@, next@, paths@[j]@));
        }
    }
    drafts
}

} // verus!
