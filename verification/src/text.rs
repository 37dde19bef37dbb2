//! Character-level text primitives shared by every parser and prompt builder
//! of the library. Each primitive is specified over `Seq<char>` (the view of a
//! `str`/`String`) and implemented over `&[char]` / `Vec<char>`.
use vstd::prelude::*;

verus! {

// ───────────────────────────── conversions ─────────────────────────────

/// The characters of `s`, in order.
pub fn chars_of(s: &str) -> (v: Vec<char>)
    ensures
        v@ == s@,
{
    let mut v: Vec<char> = Vec::new();
    for c in it: s.chars()
        invariant
            v@ == it.seq().take(it.index() as int),
    {
        v.push(c);
    }
    v
}

/// Build a `String` holding exactly the characters `v` (std `FromIterator`).
#[verifier::external_body]
pub(crate) fn string_from(v: &[char]) -> (s: String)
    ensures
        s@ == v@,
{
    v.iter().collect()
}

/// A copy of `s[i..j]`.
pub fn slice_of(s: &[char], i: usize, j: usize) -> (r: Vec<char>)
    requires
        i <= j <= s@.len(),
    ensures
        r@ == s@.subrange(i as int, j as int),
{
    let mut r: Vec<char> = Vec::new();
    let mut k: usize = i;
    while k < j
        invariant
            i <= k <= j <= s@.len(),
            r@ == s@.subrange(i as int, k as int),
        decreases j - k,
    {
        r.push(s[k]);
        k = k + 1;
    }
    r
}

/// `a ++ b` as a fresh vector.
pub fn concat(a: &[char], b: &[char]) -> (r: Vec<char>)
    ensures
        r@ == a@ + b@,
{
    let mut r: Vec<char> = Vec::new();
    let mut k: usize = 0;
    while k < a.len()
        invariant
            k <= a@.len(),
            r@ == a@.take(k as int),
        decreases a.len() - k,
    {
        r.push(a[k]);
        k = k + 1;
    }
    let mut k: usize = 0;
    while k < b.len()
        invariant
            k <= b@.len(),
            r@ == a@ + b@.take(k as int),
        decreases b.len() - k,
    {
        r.push(b[k]);
        k = k + 1;
    }
    r
}

/// Append all of `b` to `r`.
pub fn push_all(r: &mut Vec<char>, b: &[char])
    ensures
        final(r)@ == old(r)@ + b@,
{
    let mut k: usize = 0;
    while k < b.len()
        invariant
            k <= b@.len(),
            r@ == old(r)@ + b@.take(k as int),
        decreases b.len() - k,
    {
        r.push(b[k]);
        k = k + 1;
    }
}

/// Append the characters of `b` to `r`.
pub fn push_str(r: &mut Vec<char>, b: &str)
    ensures
        final(r)@ == old(r)@ + b@,
{
    let v = chars_of(b);
    push_all(r, &v);
}

/// Whether two character sequences are equal.
pub fn chars_eq(a: &[char], b: &[char]) -> (r: bool)
    ensures
        r == (a@ == b@),
{
    if a.len() != b.len() {
        return false;
    }
    let mut k: usize = 0;
    while k < a.len()
        invariant
            a@.len() == b@.len(),
            k <= a@.len(),
            forall|m: int| 0 <= m < k ==> a@[m] == b@[m],
        decreases a.len() - k,
    {
        if a[k] != b[k] {
            return false;
        }
        k = k + 1;
    }
    assert(a@ =~= b@);
    true
}

/// Whether the text of `a` equals the text of `b`.
pub fn str_eq(a: &str, b: &str) -> (r: bool)
    ensures
        r == (a@ == b@),
{
    let x = chars_of(a);
    let y = chars_of(b);
    chars_eq(&x, &y)
}

// ───────────────────────────── whitespace ─────────────────────────────

/// Unicode `White_Space` — what `char::is_whitespace` tests.
pub open spec fn is_ws(c: char) -> bool {
    ||| c == ' '
    ||| ('\t' <= c && c <= '\r')
    ||| c == '\u{85}'
    ||| c == '\u{a0}'
    ||| c == '\u{1680}'
    ||| ('\u{2000}' <= c && c <= '\u{200a}')
    ||| c == '\u{2028}'
    ||| c == '\u{2029}'
    ||| c == '\u{202f}'
    ||| c == '\u{205f}'
    ||| c == '\u{3000}'
}

pub fn is_whitespace(c: char) -> (r: bool)
    ensures
        r == is_ws(c),
{
    c == ' ' || ('\t' <= c && c <= '\r') || c == '\u{85}' || c == '\u{a0}' || c == '\u{1680}'
        || ('\u{2000}' <= c && c <= '\u{200a}') || c == '\u{2028}' || c == '\u{2029}' || c
        == '\u{202f}' || c == '\u{205f}' || c == '\u{3000}'
}

/// Number of leading whitespace characters.
pub open spec fn ws_prefix(s: Seq<char>) -> nat
    decreases s.len(),
{
    if s.len() > 0 && is_ws(s[0]) {
        1 + ws_prefix(s.drop_first())
    } else {
        0
    }
}

/// Number of trailing whitespace characters.
pub open spec fn ws_suffix(s: Seq<char>) -> nat
    decreases s.len(),
{
    if s.len() > 0 && is_ws(s.last()) {
        1 + ws_suffix(s.drop_last())
    } else {
        0
    }
}

/// `str::trim_start`.
pub open spec fn trim_start(s: Seq<char>) -> Seq<char> {
    s.skip(ws_prefix(s) as int)
}

/// `str::trim_end`.
pub open spec fn trim_end(s: Seq<char>) -> Seq<char> {
    s.take(s.len() - ws_suffix(s))
}

/// `str::trim`.
pub open spec fn trim(s: Seq<char>) -> Seq<char> {
    trim_end(trim_start(s))
}

/// Whether every character is whitespace (`trim().is_empty()`).
pub open spec fn is_blank(s: Seq<char>) -> bool {
    forall|k: int| 0 <= k < s.len() ==> is_ws(#[trigger] s[k])
}

pub proof fn lemma_ws_prefix(s: Seq<char>, i: int)
    requires
        0 <= i <= s.len(),
        forall|k: int| 0 <= k < i ==> is_ws(#[trigger] s[k]),
        i == s.len() || !is_ws(s[i]),
    ensures
        ws_prefix(s) == i,
    decreases i,
{
    if i > 0 {
        let t = s.drop_first();
        assert forall|k: int| 0 <= k < i - 1 implies is_ws(#[trigger] t[k]) by {
            assert(t[k] == s[k + 1]);
        }
        if i - 1 < t.len() {
            assert(t[i - 1] == s[i]);
        }
        lemma_ws_prefix(t, i - 1);
    }
}

pub proof fn lemma_ws_suffix(s: Seq<char>, i: int)
    requires
        0 <= i <= s.len(),
        forall|k: int| s.len() - i <= k < s.len() ==> is_ws(#[trigger] s[k]),
        i == s.len() || !is_ws(s[s.len() - i - 1]),
    ensures
        ws_suffix(s) == i,
    decreases i,
{
    if i > 0 {
        let t = s.drop_last();
        assert forall|k: int| t.len() - (i - 1) <= k < t.len() implies is_ws(#[trigger] t[k]) by {
            assert(t[k] == s[k]);
        }
        if i - 1 < t.len() {
            assert(t[t.len() - (i - 1) - 1] == s[s.len() - i - 1]);
        }
        lemma_ws_suffix(t, i - 1);
    }
}

pub proof fn lemma_ws_prefix_bound(s: Seq<char>)
    ensures
        ws_prefix(s) <= s.len(),
        forall|k: int| 0 <= k < ws_prefix(s) ==> is_ws(#[trigger] s[k]),
        ws_prefix(s) < s.len() ==> !is_ws(s[ws_prefix(s) as int]),
    decreases s.len(),
{
    if s.len() > 0 && is_ws(s[0]) {
        let t = s.drop_first();
        lemma_ws_prefix_bound(t);
        assert forall|k: int| 0 <= k < ws_prefix(s) implies is_ws(#[trigger] s[k]) by {
            if k > 0 {
                assert(s[k] == t[k - 1]);
            }
        }
        if ws_prefix(s) < s.len() {
            assert(s[ws_prefix(s) as int] == t[ws_prefix(t) as int]);
        }
    }
}

pub proof fn lemma_ws_suffix_bound(s: Seq<char>)
    ensures
        ws_suffix(s) <= s.len(),
        forall|k: int| s.len() - ws_suffix(s) <= k < s.len() ==> is_ws(#[trigger] s[k]),
        ws_suffix(s) < s.len() ==> !is_ws(s[s.len() - ws_suffix(s) - 1]),
    decreases s.len(),
{
    if s.len() > 0 && is_ws(s.last()) {
        let t = s.drop_last();
        lemma_ws_suffix_bound(t);
        assert forall|k: int| s.len() - ws_suffix(s) <= k < s.len() implies is_ws(
            #[trigger] s[k],
        ) by {
            if k < s.len() - 1 {
                assert(s[k] == t[k]);
            }
        }
        if ws_suffix(s) < s.len() {
            assert(s[s.len() - ws_suffix(s) - 1] == t[t.len() - ws_suffix(t) - 1]);
        }
    }
}

/// A blank sequence trims to nothing, and a sequence that trims to nothing is blank.
pub proof fn lemma_trim_empty_iff_blank(s: Seq<char>)
    ensures
        (trim(s).len() == 0) == is_blank(s),
{
    lemma_ws_prefix_bound(s);
    let t = trim_start(s);
    lemma_ws_suffix_bound(t);
    if is_blank(s) {
        lemma_ws_prefix(s, s.len() as int);
    }
    if trim(s).len() == 0 && ws_prefix(s) < s.len() {
        assert(t.len() > 0);
        assert(ws_suffix(t) == t.len());
        assert(is_ws(t[0]));
        assert(t[0] == s[ws_prefix(s) as int]);
    }
}

/// Index of the first non-whitespace character (or the length).
fn ws_prefix_exec(s: &[char]) -> (i: usize)
    ensures
        i == ws_prefix(s@),
{
    let mut i: usize = 0;
    while i < s.len() && is_whitespace(s[i])
        invariant
            i <= s@.len(),
            forall|k: int| 0 <= k < i ==> is_ws(#[trigger] s@[k]),
        decreases s.len() - i,
    {
        i = i + 1;
    }
    proof {
        lemma_ws_prefix(s@, i as int);
    }
    i
}

/// Number of trailing whitespace characters.
fn ws_suffix_exec(s: &[char]) -> (n: usize)
    ensures
        n == ws_suffix(s@),
{
    let mut n: usize = 0;
    while n < s.len() && is_whitespace(s[s.len() - 1 - n])
        invariant
            n <= s@.len(),
            forall|k: int| s@.len() - n <= k < s@.len() ==> is_ws(#[trigger] s@[k]),
        decreases s.len() - n,
    {
        n = n + 1;
    }
    proof {
        lemma_ws_suffix(s@, n as int);
    }
    n
}

/// `str::trim` over characters.
pub fn trim_chars(s: &[char]) -> (r: Vec<char>)
    ensures
        r@ == trim(s@),
{
    let i = ws_prefix_exec(s);
    proof {
        lemma_ws_prefix_bound(s@);
    }
    let t = slice_of(s, i, s.len());
    let n = ws_suffix_exec(&t);
    proof {
        lemma_ws_suffix_bound(t@);
    }
    slice_of(&t, 0, t.len() - n)
}

/// `str::trim_start` over characters.
pub fn trim_start_chars(s: &[char]) -> (r: Vec<char>)
    ensures
        r@ == trim_start(s@),
{
    let i = ws_prefix_exec(s);
    proof {
        lemma_ws_prefix_bound(s@);
    }
    slice_of(s, i, s.len())
}

/// `str::trim_end` over characters.
pub fn trim_end_chars(s: &[char]) -> (r: Vec<char>)
    ensures
        r@ == trim_end(s@),
{
    let n = ws_suffix_exec(s);
    proof {
        lemma_ws_suffix_bound(s@);
    }
    slice_of(s, 0, s.len() - n)
}

/// Whether every character is whitespace.
pub fn is_blank_chars(s: &[char]) -> (r: bool)
    ensures
        r == is_blank(s@),
        r == (trim(s@).len() == 0),
{
    let i = ws_prefix_exec(s);
    proof {
        lemma_ws_prefix_bound(s@);
        lemma_trim_empty_iff_blank(s@);
    }
    i == s.len()
}


// ───────────────────────────── searching ─────────────────────────────

/// Index of the first `c` in `s`, or `s.len()` when there is none.
pub open spec fn char_pos(s: Seq<char>, c: char) -> nat
    decreases s.len(),
{
    if s.len() == 0 || s[0] == c {
        0
    } else {
        1 + char_pos(s.drop_first(), c)
    }
}

pub proof fn lemma_char_pos(s: Seq<char>, c: char, i: int)
    requires
        0 <= i <= s.len(),
        forall|k: int| 0 <= k < i ==> #[trigger] s[k] != c,
        i == s.len() || s[i] == c,
    ensures
        char_pos(s, c) == i,
    decreases i,
{
    if i > 0 {
        let t = s.drop_first();
        assert forall|k: int| 0 <= k < i - 1 implies #[trigger] t[k] != c by {
            assert(t[k] == s[k + 1]);
        }
        if i - 1 < t.len() {
            assert(t[i - 1] == s[i]);
        }
        lemma_char_pos(t, c, i - 1);
    }
}

pub proof fn lemma_char_pos_bound(s: Seq<char>, c: char)
    ensures
        char_pos(s, c) <= s.len(),
        forall|k: int| 0 <= k < char_pos(s, c) ==> #[trigger] s[k] != c,
        char_pos(s, c) < s.len() ==> s[char_pos(s, c) as int] == c,
    decreases s.len(),
{
    if s.len() > 0 && s[0] != c {
        let t = s.drop_first();
        lemma_char_pos_bound(t, c);
        assert forall|k: int| 0 <= k < char_pos(s, c) implies #[trigger] s[k] != c by {
            if k > 0 {
                assert(s[k] == t[k - 1]);
            }
        }
        if char_pos(s, c) < s.len() {
            assert(s[char_pos(s, c) as int] == t[char_pos(t, c) as int]);
        }
    }
}

/// Executable `char_pos`: first index of `c` at or after `from` in `s`.
pub fn char_pos_from(s: &[char], c: char, from: usize) -> (i: usize)
    requires
        from <= s@.len(),
    ensures
        from <= i <= s@.len(),
        i - from == char_pos(s@.skip(from as int), c),
{
    let mut i: usize = from;
    while i < s.len() && s[i] != c
        invariant
            from <= i <= s@.len(),
            forall|k: int| from <= k < i ==> #[trigger] s@[k] != c,
        decreases s.len() - i,
    {
        i = i + 1;
    }
    proof {
        let t = s@.skip(from as int);
        assert forall|k: int| 0 <= k < i - from implies #[trigger] t[k] != c by {
            assert(t[k] == s@[k + from]);
        }
        if i < s@.len() {
            assert(t[i - from] == s@[i as int]);
        }
        lemma_char_pos(t, c, i - from);
    }
    i
}

/// Whether `s` contains the character `c`.
pub fn has_char(s: &[char], c: char) -> (r: bool)
    ensures
        r == s@.contains(c),
{
    let i = char_pos_from(s, c, 0);
    proof {
        assert(s@.skip(0) =~= s@);
        lemma_char_pos_bound(s@, c);
        if i < s@.len() {
            assert(s@[i as int] == c);
        }
    }
    i < s.len()
}

/// `p` is a prefix of `s`.
pub open spec fn starts_with(s: Seq<char>, p: Seq<char>) -> bool {
    p.len() <= s.len() && s.take(p.len() as int) == p
}

/// `p` is a suffix of `s`.
pub open spec fn ends_with(s: Seq<char>, p: Seq<char>) -> bool {
    p.len() <= s.len() && s.skip(s.len() - p.len()) == p
}

/// `p` occurs in `s` starting at index `i`.
pub open spec fn occurs_at(s: Seq<char>, p: Seq<char>, i: int) -> bool {
    0 <= i && i + p.len() <= s.len() && s.subrange(i, i + p.len()) == p
}

/// `p` occurs somewhere in `s` (`str::contains`).
pub open spec fn contains(s: Seq<char>, p: Seq<char>) -> bool {
    exists|i: int| occurs_at(s, p, i)
}

/// First occurrence of `p` at or after `i`.
pub open spec fn find_from(s: Seq<char>, p: Seq<char>, i: int) -> Option<int>
    decreases s.len() - i,
{
    if i < 0 || i + p.len() > s.len() {
        None
    } else if occurs_at(s, p, i) {
        Some(i)
    } else if i >= s.len() {
        None
    } else {
        find_from(s, p, i + 1)
    }
}

/// First occurrence of `p` in `s` (`str::find`).
pub open spec fn find(s: Seq<char>, p: Seq<char>) -> Option<int> {
    find_from(s, p, 0)
}

/// Last occurrence of `p` starting strictly before `e`.
pub open spec fn rfind_before(s: Seq<char>, p: Seq<char>, e: int) -> Option<int>
    decreases e,
{
    if e <= 0 {
        None
    } else if occurs_at(s, p, e - 1) {
        Some(e - 1)
    } else {
        rfind_before(s, p, e - 1)
    }
}

/// Last occurrence of `p` in `s` (`str::rfind`).
pub open spec fn rfind(s: Seq<char>, p: Seq<char>) -> Option<int> {
    rfind_before(s, p, s.len() - p.len() + 1)
}

pub proof fn lemma_find_from(s: Seq<char>, p: Seq<char>, i: int)
    requires
        0 <= i,
    ensures
        match find_from(s, p, i) {
            Some(k) => i <= k && occurs_at(s, p, k) && forall|j: int|
                i <= j < k ==> !#[trigger] occurs_at(s, p, j),
            None => forall|j: int| i <= j ==> !#[trigger] occurs_at(s, p, j),
        },
    decreases s.len() - i,
{
    if i + p.len() > s.len() {
    } else if occurs_at(s, p, i) {
    } else if i >= s.len() {
    } else {
        lemma_find_from(s, p, i + 1);
    }
}

/// `find` gives the first occurrence, and `None` exactly when there is none.
pub proof fn lemma_find(s: Seq<char>, p: Seq<char>)
    ensures
        match find(s, p) {
            Some(k) => occurs_at(s, p, k) && forall|j: int|
                0 <= j < k ==> !#[trigger] occurs_at(s, p, j),
            None => !contains(s, p),
        },
        find(s, p) is Some == contains(s, p),
{
    lemma_find_from(s, p, 0);
}

pub proof fn lemma_rfind_before(s: Seq<char>, p: Seq<char>, e: int)
    ensures
        match rfind_before(s, p, e) {
            Some(k) => k < e && occurs_at(s, p, k) && forall|j: int|
                k < j < e ==> !#[trigger] occurs_at(s, p, j),
            None => forall|j: int| j < e ==> !#[trigger] occurs_at(s, p, j),
        },
    decreases e,
{
    if e > 0 && !occurs_at(s, p, e - 1) {
        lemma_rfind_before(s, p, e - 1);
    }
}

/// `rfind` gives the last occurrence, and `None` exactly when there is none.
pub proof fn lemma_rfind(s: Seq<char>, p: Seq<char>)
    ensures
        match rfind(s, p) {
            Some(k) => occurs_at(s, p, k) && forall|j: int|
                k < j ==> !#[trigger] occurs_at(s, p, j),
            None => !contains(s, p),
        },
        rfind(s, p) is Some == contains(s, p),
{
    lemma_rfind_before(s, p, s.len() - p.len() + 1);
}

/// Whether `p` occurs in `s` at index `i`.
pub fn occurs_at_exec(s: &[char], p: &[char], i: usize) -> (r: bool)
    ensures
        r == occurs_at(s@, p@, i as int),
{
    if i > s.len() || p.len() > s.len() - i {
        return false;
    }
    let mut k: usize = 0;
    while k < p.len()
        invariant
            i <= s.len(),
            p.len() <= s.len() - i,
            i + p@.len() <= s@.len(),
            k <= p@.len(),
            forall|m: int| 0 <= m < k ==> s@[i + m] == p@[m],
        decreases p.len() - k,
    {
        if s[i + k] != p[k] {
            assert(s@.subrange(i as int, i + p@.len())[k as int] != p@[k as int]);
            return false;
        }
        k = k + 1;
    }
    assert(s@.subrange(i as int, i + p@.len()) =~= p@);
    true
}

/// `str::find`.
pub fn find_chars(s: &[char], p: &[char]) -> (r: Option<usize>)
    ensures
        match r {
            Some(k) => find(s@, p@) == Some(k as int),
            None => find(s@, p@) is None,
        },
{
    if p.len() > s.len() {
        return None;
    }
    if p.len() == 0 {
        assert(s@.subrange(0, 0) =~= p@);
        return Some(0);
    }
    let mut i: usize = 0;
    while i <= s.len() - p.len()
        invariant
            0 < p@.len() <= s@.len(),
            i <= s@.len() - p@.len() + 1,
            find(s@, p@) == find_from(s@, p@, i as int),
        decreases s.len() - i,
    {
        if occurs_at_exec(s, p, i) {
            return Some(i);
        }
        i = i + 1;
    }
    None
}

/// `str::rfind`.
pub fn rfind_chars(s: &[char], p: &[char]) -> (r: Option<usize>)
    ensures
        match r {
            Some(k) => rfind(s@, p@) == Some(k as int),
            None => rfind(s@, p@) is None,
        },
{
    if p.len() > s.len() {
        return None;
    }
    let mut k: usize = s.len() - p.len();
    loop
        invariant
            p@.len() <= s@.len(),
            k <= s@.len() - p@.len(),
            rfind(s@, p@) == rfind_before(s@, p@, k + 1),
        decreases k,
    {
        if occurs_at_exec(s, p, k) {
            return Some(k);
        }
        if k == 0 {
            assert(rfind_before(s@, p@, 0) is None);
            return None;
        }
        k = k - 1;
    }
}

/// `str::contains` for a character pattern.
pub fn contains_chars(s: &[char], p: &[char]) -> (r: bool)
    ensures
        r == contains(s@, p@),
{
    proof {
        lemma_find(s@, p@);
    }
    find_chars(s, p).is_some()
}

/// `str::contains` with a `str` pattern.
pub fn contains_str(s: &[char], p: &str) -> (r: bool)
    ensures
        r == contains(s@, p@),
{
    let b = chars_of(p);
    contains_chars(s, &b)
}

/// `str::contains` on `str` arguments.
pub fn str_contains(s: &str, p: &str) -> (r: bool)
    ensures
        r == contains(s@, p@),
{
    let a = chars_of(s);
    let b = chars_of(p);
    contains_chars(&a, &b)
}

/// `str::starts_with`.
pub fn starts_with_chars(s: &[char], p: &[char]) -> (r: bool)
    ensures
        r == starts_with(s@, p@),
{
    let r = occurs_at_exec(s, p, 0);
    proof {
        assert(s@.subrange(0, p@.len() as int) =~= s@.take(p@.len() as int));
    }
    r
}

/// `str::starts_with` with a `str` pattern.
pub fn starts_with_str(s: &[char], p: &str) -> (r: bool)
    ensures
        r == starts_with(s@, p@),
{
    let pv = chars_of(p);
    starts_with_chars(s, &pv)
}

/// `str::ends_with`.
pub fn ends_with_chars(s: &[char], p: &[char]) -> (r: bool)
    ensures
        r == ends_with(s@, p@),
{
    if p.len() > s.len() {
        return false;
    }
    let r = occurs_at_exec(s, p, s.len() - p.len());
    proof {
        assert(s@.subrange(s@.len() - p@.len(), s@.len() as int) =~= s@.skip(
            s@.len() - p@.len(),
        ));
    }
    r
}

/// `str::ends_with` with a `str` pattern.
pub fn ends_with_str(s: &[char], p: &str) -> (r: bool)
    ensures
        r == ends_with(s@, p@),
{
    let pv = chars_of(p);
    ends_with_chars(s, &pv)
}

/// `str::strip_prefix`.
pub open spec fn strip_prefix(s: Seq<char>, p: Seq<char>) -> Option<Seq<char>> {
    if starts_with(s, p) {
        Some(s.skip(p.len() as int))
    } else {
        None
    }
}

pub fn strip_prefix_str(s: &[char], p: &str) -> (r: Option<Vec<char>>)
    ensures
        match r {
            Some(v) => strip_prefix(s@, p@) == Some(v@),
            None => strip_prefix(s@, p@) is None,
        },
{
    let pv = chars_of(p);
    if starts_with_chars(s, &pv) {
        Some(slice_of(s, pv.len(), s.len()))
    } else {
        None
    }
}


// ───────────────────────────── splitting ─────────────────────────────

/// The views of a sequence of character vectors.
pub open spec fn views(v: Seq<Vec<char>>) -> Seq<Seq<char>> {
    v.map_values(|x: Vec<char>| x@)
}

/// The views of a sequence of strings.
pub open spec fn str_views(v: Seq<String>) -> Seq<Seq<char>> {
    v.map_values(|x: String| x@)
}

pub proof fn lemma_views_push(v: Seq<Vec<char>>, x: Vec<char>)
    ensures
        views(v.push(x)) == views(v).push(x@),
{
    assert(views(v.push(x)) =~= views(v).push(x@));
}

/// Drop one trailing carriage return.
pub open spec fn strip_cr(l: Seq<char>) -> Seq<char> {
    if l.len() > 0 && l.last() == '\r' {
        l.drop_last()
    } else {
        l
    }
}

/// `str::lines`: split at `\n` (dropping a `\r` right before it); a final line
/// ending adds no empty line.
pub open spec fn lines(s: Seq<char>) -> Seq<Seq<char>>
    decreases s.len(),
{
    if s.len() == 0 {
        Seq::empty()
    } else {
        let i = char_pos(s, '\n');
        if i >= s.len() {
            seq![s]
        } else {
            seq![strip_cr(s.take(i as int))] + lines(s.skip(i + 1 as int))
        }
    }
}

/// `str::lines` over characters.
pub fn lines_of(s: &[char]) -> (r: Vec<Vec<char>>)
    ensures
        views(r@) == lines(s@),
{
    let mut r: Vec<Vec<char>> = Vec::new();
    let mut pos: usize = 0;
    proof {
        assert(s@.skip(0) =~= s@);
        assert(views(r@) + lines(s@) =~= lines(s@));
    }
    while pos < s.len()
        invariant
            pos <= s@.len(),
            views(r@) + lines(s@.skip(pos as int)) == lines(s@),
        decreases s.len() - pos,
    {
        let ghost t = s@.skip(pos as int);
        let j = char_pos_from(s, '\n', pos);
        proof {
            lemma_char_pos_bound(t, '\n');
        }
        if j == s.len() {
            let line = slice_of(s, pos, s.len());
            proof {
                assert(line@ =~= t);
                lemma_views_push(r@, line);
                assert(s@.skip(s@.len() as int) =~= Seq::<char>::empty());
            }
            r.push(line);
            pos = s.len();
        } else {
            let mut line = slice_of(s, pos, j);
            if line.len() > 0 && line[line.len() - 1] == '\r' {
                line.pop();
            }
            proof {
                assert(s@.subrange(pos as int, j as int) =~= t.take(j - pos));
                assert(s@.skip(j + 1) =~= t.skip(j - pos + 1));
                lemma_views_push(r@, line);
                assert(views(r@.push(line)) + lines(s@.skip(j + 1)) =~= views(r@) + lines(t));
            }
            r.push(line);
            pos = j + 1;
        }
    }
    proof {
        assert(s@.skip(pos as int) =~= Seq::<char>::empty());
        assert(views(r@) + Seq::<Seq<char>>::empty() =~= views(r@));
    }
    r
}

/// Number of leading non-whitespace characters.
pub open spec fn word_len(s: Seq<char>) -> nat
    decreases s.len(),
{
    if s.len() > 0 && !is_ws(s[0]) {
        1 + word_len(s.drop_first())
    } else {
        0
    }
}

pub proof fn lemma_word_len(s: Seq<char>, i: int)
    requires
        0 <= i <= s.len(),
        forall|k: int| 0 <= k < i ==> !is_ws(#[trigger] s[k]),
        i == s.len() || is_ws(s[i]),
    ensures
        word_len(s) == i,
    decreases i,
{
    if i > 0 {
        let t = s.drop_first();
        assert forall|k: int| 0 <= k < i - 1 implies !is_ws(#[trigger] t[k]) by {
            assert(t[k] == s[k + 1]);
        }
        if i - 1 < t.len() {
            assert(t[i - 1] == s[i]);
        }
        lemma_word_len(t, i - 1);
    }
}

pub proof fn lemma_word_len_bound(s: Seq<char>)
    ensures
        word_len(s) <= s.len(),
        s.len() > 0 && !is_ws(s[0]) ==> word_len(s) >= 1,
    decreases s.len(),
{
    if s.len() > 0 && !is_ws(s[0]) {
        lemma_word_len_bound(s.drop_first());
    }
}

/// `str::split_whitespace`: the maximal runs of non-whitespace characters.
pub open spec fn words(s: Seq<char>) -> Seq<Seq<char>>
    decreases s.len(),
{
    let t = trim_start(s);
    if t.len() == 0 {
        Seq::empty()
    } else {
        proof {
            lemma_ws_prefix_bound(s);
            lemma_word_len_bound(t);
        }
        let w = word_len(t);
        seq![t.take(w as int)] + words(t.skip(w as int))
    }
}

/// `str::split_whitespace` over characters.
pub fn words_of(s: &[char]) -> (r: Vec<Vec<char>>)
    ensures
        views(r@) == words(s@),
{
    let mut r: Vec<Vec<char>> = Vec::new();
    let mut pos: usize = 0;
    proof {
        assert(s@.skip(0) =~= s@);
        assert(views(r@) + words(s@) =~= words(s@));
    }
    while pos < s.len()
        invariant
            pos <= s@.len(),
            views(r@) + words(s@.skip(pos as int)) == words(s@),
        decreases s.len() - pos,
    {
        let ghost u = s@.skip(pos as int);
        let mut a: usize = pos;
        while a < s.len() && is_whitespace(s[a])
            invariant
                pos <= a <= s@.len(),
                forall|k: int| pos <= k < a ==> is_ws(#[trigger] s@[k]),
            decreases s.len() - a,
        {
            a = a + 1;
        }
        proof {
            assert forall|k: int| 0 <= k < a - pos implies is_ws(#[trigger] u[k]) by {
                assert(u[k] == s@[pos + k]);
            }
            if a < s@.len() {
                assert(u[a - pos] == s@[a as int]);
            }
            lemma_ws_prefix(u, a - pos);
        }
        let ghost t = s@.skip(a as int);
        proof {
            assert(trim_start(u) =~= t);
        }
        if a == s.len() {
            proof {
                assert(words(u) == Seq::<Seq<char>>::empty());
                assert(views(r@) + Seq::<Seq<char>>::empty() =~= views(r@));
            }
            pos = a;
        } else {
            let mut b: usize = a;
            while b < s.len() && !is_whitespace(s[b])
                invariant
                    a <= b <= s@.len(),
                    forall|k: int| a <= k < b ==> !is_ws(#[trigger] s@[k]),
                decreases s.len() - b,
            {
                b = b + 1;
            }
            proof {
                assert forall|k: int| 0 <= k < b - a implies !is_ws(#[trigger] t[k]) by {
                    assert(t[k] == s@[a + k]);
                }
                if b < s@.len() {
                    assert(t[b - a] == s@[b as int]);
                }
                lemma_word_len(t, b - a);
            }
            let word = slice_of(s, a, b);
            proof {
                assert(word@ =~= t.take(b - a));
                assert(s@.skip(b as int) =~= t.skip(b - a));
                lemma_views_push(r@, word);
                assert(views(r@.push(word)) + words(s@.skip(b as int)) =~= views(r@) + words(u));
            }
            r.push(word);
            pos = b;
        }
    }
    proof {
        assert(s@.skip(pos as int) =~= Seq::<char>::empty());
        assert(views(r@) + Seq::<Seq<char>>::empty() =~= views(r@));
    }
    r
}

/// `parts.join(sep)`.
pub open spec fn join(parts: Seq<Seq<char>>, sep: Seq<char>) -> Seq<char>
    decreases parts.len(),
{
    if parts.len() == 0 {
        Seq::empty()
    } else if parts.len() == 1 {
        parts[0]
    } else {
        join(parts.drop_last(), sep) + sep + parts.last()
    }
}

/// `parts.join(sep)` over character vectors.
pub fn join_chars(parts: &Vec<Vec<char>>, sep: &[char]) -> (r: Vec<char>)
    ensures
        r@ == join(views(parts@), sep@),
{
    let mut r: Vec<char> = Vec::new();
    let mut k: usize = 0;
    while k < parts.len()
        invariant
            k <= parts@.len(),
            r@ == join(views(parts@).take(k as int), sep@),
        decreases parts.len() - k,
    {
        proof {
            assert(views(parts@).take(k + 1).drop_last() =~= views(parts@).take(k as int));
        }
        if k > 0 {
            push_all(&mut r, sep);
        }
        push_all(&mut r, &parts[k]);
        proof {
            if k == 0 {
                assert(r@ =~= views(parts@).take(1)[0]);
            }
        }
        k = k + 1;
    }
    proof {
        assert(views(parts@).take(parts@.len() as int) =~= views(parts@));
    }
    r
}

/// `parts.join(sep)` over strings.
pub fn join_strings(parts: &Vec<String>, sep: &str) -> (r: String)
    ensures
        r@ == join(str_views(parts@), sep@),
{
    let mut v: Vec<Vec<char>> = Vec::new();
    let mut k: usize = 0;
    while k < parts.len()
        invariant
            k <= parts@.len(),
            views(v@) == str_views(parts@).take(k as int),
        decreases parts.len() - k,
    {
        let c = chars_of(parts[k].as_str());
        proof {
            lemma_views_push(v@, c);
            assert(str_views(parts@).take(k + 1) =~= str_views(parts@).take(k as int).push(
                parts@[k as int]@,
            ));
        }
        v.push(c);
        k = k + 1;
    }
    proof {
        assert(str_views(parts@).take(parts@.len() as int) =~= str_views(parts@));
    }
    let sepv = chars_of(sep);
    let j = join_chars(&v, &sepv);
    string_from(&j)
}


// ───────────────────────────── case ─────────────────────────────

/// `char::to_ascii_lowercase`.
pub open spec fn lower_ascii_char(c: char) -> char {
    if 'A' <= c && c <= 'Z' {
        ((c as u8) + 32) as u8 as char
    } else {
        c
    }
}

pub fn to_ascii_lower(c: char) -> (r: char)
    ensures
        r == lower_ascii_char(c),
{
    if 'A' <= c && c <= 'Z' {
        ((c as u8) + 32) as char
    } else {
        c
    }
}



/// `str::to_ascii_lowercase`.
pub open spec fn lower_ascii(s: Seq<char>) -> Seq<char> {
    s.map_values(|c: char| lower_ascii_char(c))
}

pub fn lower_ascii_chars(s: &[char]) -> (r: Vec<char>)
    ensures
        r@ == lower_ascii(s@),
{
    let mut r: Vec<char> = Vec::new();
    let mut k: usize = 0;
    while k < s.len()
        invariant
            k <= s@.len(),
            r@ == lower_ascii(s@.take(k as int)),
        decreases s.len() - k,
    {
        let c = to_ascii_lower(s[k]);
        r.push(c);
        proof {
            assert(lower_ascii(s@.take(k + 1)) =~= lower_ascii(s@.take(k as int)).push(c));
        }
        k = k + 1;
    }
    proof {
        assert(s@.take(s@.len() as int) =~= s@);
    }
    r
}

/// `str::eq_ignore_ascii_case`.
pub fn eq_ignore_ascii_case(a: &[char], b: &[char]) -> (r: bool)
    ensures
        r == (lower_ascii(a@) == lower_ascii(b@)),
{
    let x = lower_ascii_chars(a);
    let y = lower_ascii_chars(b);
    let r = chars_eq(&x, &y);
    proof {
        if lower_ascii(a@) == lower_ascii(b@) {
            assert(x@ == y@);
        }
    }
    r
}

/// What std's `str::to_lowercase` yields for a text (the Unicode lowercase
/// mapping of every character).
pub uninterp spec fn lowercase(s: Seq<char>) -> Seq<char>;

/// Whether every character is ASCII.
pub open spec fn all_ascii(s: Seq<char>) -> bool {
    forall|k: int| 0 <= k < s.len() ==> (#[trigger] s[k] as u32) < 0x80
}

/// std `str::to_lowercase`: its result depends on the text alone, and an
/// all-ASCII text lowercases to its ASCII lowercase (`A`–`Z` become `a`–`z`,
/// every other ASCII character stays); the Unicode case tables beyond ASCII
/// are not stated here.
#[verifier::external_body]
pub(crate) fn to_lowercase(s: &[char]) -> (r: Vec<char>)
    ensures
        r@ == lowercase(s@),
        all_ascii(s@) ==> r@ == lower_ascii(s@),
{
    let t: String = s.iter().collect();
    t.to_lowercase().chars().collect()
}

// ───────────────────────────── numbers ─────────────────────────────

/// The decimal digit character for `d < 10`.
pub open spec fn digit_char(d: nat) -> char {
    if d == 0 {
        '0'
    } else if d == 1 {
        '1'
    } else if d == 2 {
        '2'
    } else if d == 3 {
        '3'
    } else if d == 4 {
        '4'
    } else if d == 5 {
        '5'
    } else if d == 6 {
        '6'
    } else if d == 7 {
        '7'
    } else if d == 8 {
        '8'
    } else {
        '9'
    }
}

/// Decimal rendering of a natural number (what `{}` prints for an unsigned integer).
pub open spec fn dec(n: nat) -> Seq<char>
    decreases n,
{
    if n < 10 {
        seq![digit_char(n)]
    } else {
        dec(n / 10) + seq![digit_char(n % 10)]
    }
}

/// Decimal rendering of an integer (what `{}` prints for a signed integer).
pub open spec fn idec(n: int) -> Seq<char> {
    if n < 0 {
        seq!['-'] + dec((-n) as nat)
    } else {
        dec(n as nat)
    }
}

fn digit(d: u64) -> (c: char)
    requires
        d < 10,
    ensures
        c == digit_char(d as nat),
{
    if d == 0 {
        '0'
    } else if d == 1 {
        '1'
    } else if d == 2 {
        '2'
    } else if d == 3 {
        '3'
    } else if d == 4 {
        '4'
    } else if d == 5 {
        '5'
    } else if d == 6 {
        '6'
    } else if d == 7 {
        '7'
    } else if d == 8 {
        '8'
    } else {
        '9'
    }
}

/// `n.to_string()` for an unsigned integer.
pub fn dec_chars(n: u64) -> (r: Vec<char>)
    ensures
        r@ == dec(n as nat),
    decreases n,
{
    if n < 10 {
        let mut v: Vec<char> = Vec::new();
        v.push(digit(n));
        proof {
            assert(v@ =~= seq![digit_char(n as nat)]);
        }
        v
    } else {
        let mut v = dec_chars(n / 10);
        v.push(digit(n % 10));
        v
    }
}

/// `n.to_string()` for a signed integer.
pub fn idec_chars(n: i64) -> (r: Vec<char>)
    ensures
        r@ == idec(n as int),
{
    if n < 0 {
        let m: u64 = if n == i64::MIN {
            9223372036854775808u64
        } else {
            (-n) as u64
        };
        let d = dec_chars(m);
        let mut v: Vec<char> = Vec::new();
        v.push('-');
        push_all(&mut v, &d);
        proof {
            assert(v@ =~= seq!['-'] + dec((-(n as int)) as nat));
        }
        v
    } else {
        dec_chars(n as u64)
    }
}

/// `10^n`.
pub open spec fn pow10(n: nat) -> nat
    decreases n,
{
    if n == 0 {
        1
    } else {
        10 * pow10((n - 1) as nat)
    }
}

/// An ASCII decimal digit.
pub open spec fn is_digit(c: char) -> bool {
    '0' <= c && c <= '9'
}

/// Value of a decimal digit character.
pub open spec fn digit_val(c: char) -> nat {
    ((c as u32) - ('0' as u32)) as nat
}

/// Whether every character is an ASCII digit.
pub open spec fn all_digits(s: Seq<char>) -> bool {
    forall|k: int| 0 <= k < s.len() ==> is_digit(#[trigger] s[k])
}

/// The value of a string of decimal digits.
pub open spec fn digits_val(s: Seq<char>) -> nat
    decreases s.len(),
{
    if s.len() == 0 {
        0
    } else {
        digits_val(s.drop_last()) * 10 + digit_val(s.last())
    }
}

/// `str::parse` into an unsigned integer type whose maximum is `max`: an
/// optional `+`, then one or more ASCII digits whose value fits.
pub open spec fn parse_nat(s: Seq<char>, max: nat) -> Option<nat> {
    let b = if s.len() > 0 && s[0] == '+' {
        s.drop_first()
    } else {
        s
    };
    if b.len() > 0 && all_digits(b) && digits_val(b) <= max {
        Some(digits_val(b))
    } else {
        None
    }
}

/// `str::parse::<i64>`: an optional sign, then one or more ASCII digits whose
/// signed value fits.
pub open spec fn parse_i64(s: Seq<char>) -> Option<int> {
    if s.len() > 0 && s[0] == '-' {
        let b = s.drop_first();
        if b.len() > 0 && all_digits(b) && digits_val(b) <= 9223372036854775808 {
            Some(-(digits_val(b) as int))
        } else {
            None
        }
    } else {
        match parse_nat(s, 9223372036854775807) {
            Some(v) => Some(v as int),
            None => None,
        }
    }
}

proof fn lemma_digits_val_mono(s: Seq<char>, k: int)
    requires
        0 <= k <= s.len(),
    ensures
        digits_val(s.take(k)) <= digits_val(s),
    decreases s.len() - k,
{
    if k < s.len() {
        lemma_digits_val_mono(s, k + 1);
        assert(s.take(k + 1).drop_last() =~= s.take(k));
    } else {
        assert(s.take(k) =~= s);
    }
}

/// Parse a run of ASCII digits; `None` when empty, not all digits, or above `max`.
fn digits_exec(s: &[char], from: usize, max: u64) -> (r: Option<u64>)
    requires
        from <= s@.len(),
    ensures
        ({
            let b = s@.skip(from as int);
            match r {
                Some(v) => b.len() > 0 && all_digits(b) && digits_val(b) <= max && v
                    == digits_val(b),
                None => !(b.len() > 0 && all_digits(b) && digits_val(b) <= max),
            }
        }),
{
    let ghost b = s@.skip(from as int);
    if from == s.len() {
        return None;
    }
    let mut v: u64 = 0;
    let mut k: usize = from;
    while k < s.len()
        invariant
            from <= k <= s@.len(),
            b == s@.skip(from as int),
            all_digits(b.take(k - from)),
            v == digits_val(b.take(k - from)),
            v <= max,
        decreases s.len() - k,
    {
        let c = s[k];
        proof {
            assert(b[k - from] == c);
        }
        if !('0' <= c && c <= '9') {
            return None;
        }
        let d: u64 = ((c as u32) - ('0' as u32)) as u64;
        proof {
            assert(b.take(k - from + 1).drop_last() =~= b.take(k - from));
            assert(b.take(k - from + 1).last() == c);
        }
        if d > max || v > (max - d) / 10 {
            proof {
                assert(digits_val(b.take(k - from + 1)) == v * 10 + d);
                lemma_digits_val_mono(b, k - from + 1);
            }
            return None;
        }
        v = v * 10 + d;
        proof {
            assert(all_digits(b.take(k - from + 1)));
        }
        k = k + 1;
    }
    proof {
        assert(b.take(k - from) =~= b);
    }
    Some(v)
}

/// `str::parse::<uN>` where `max` is the type's maximum.
pub fn parse_nat_chars(s: &[char], max: u64) -> (r: Option<u64>)
    ensures
        match r {
            Some(v) => parse_nat(s@, max as nat) == Some(v as nat),
            None => parse_nat(s@, max as nat) is None,
        },
{
    if s.len() > 0 && s[0] == '+' {
        proof {
            assert(s@.skip(1) =~= s@.drop_first());
        }
        digits_exec(s, 1, max)
    } else {
        proof {
            assert(s@.skip(0) =~= s@);
        }
        digits_exec(s, 0, max)
    }
}

/// `str::parse::<i64>`.
pub fn parse_i64_chars(s: &[char]) -> (r: Option<i64>)
    ensures
        match r {
            Some(v) => parse_i64(s@) == Some(v as int),
            None => parse_i64(s@) is None,
        },
{
    if s.len() > 0 && s[0] == '-' {
        proof {
            assert(s@.skip(1) =~= s@.drop_first());
        }
        match digits_exec(s, 1, 9223372036854775808u64) {
            Some(v) => {
                if v == 9223372036854775808u64 {
                    Some(i64::MIN)
                } else {
                    Some(-(v as i64))
                }
            },
            None => None,
        }
    } else {
        match parse_nat_chars(s, 9223372036854775807u64) {
            Some(v) => Some(v as i64),
            None => None,
        }
    }
}

// ───────────────────────────── rewriting ─────────────────────────────

/// `str::replace` for a non-empty pattern: every non-overlapping occurrence,
/// left to right.
pub open spec fn replace(s: Seq<char>, from: Seq<char>, to: Seq<char>) -> Seq<char>
    decreases s.len(),
{
    proof {
        lemma_find(s, from);
    }
    if from.len() == 0 {
        s
    } else {
        match find(s, from) {
            Some(i) => s.take(i) + to + replace(s.skip(i + from.len()), from, to),
            None => s,
        }
    }
}

pub fn replace_chars(s: &[char], from: &[char], to: &[char]) -> (r: Vec<char>)
    requires
        from@.len() > 0,
    ensures
        r@ == replace(s@, from@, to@),
{
    let mut r: Vec<char> = Vec::new();
    let mut rest: Vec<char> = slice_of(s, 0, s.len());
    proof {
        assert(rest@ =~= s@);
        assert(r@ + replace(rest@, from@, to@) =~= replace(s@, from@, to@));
    }
    loop
        invariant
            from@.len() > 0,
            r@ + replace(rest@, from@, to@) == replace(s@, from@, to@),
        decreases rest@.len(),
    {
        proof {
            lemma_find(rest@, from@);
        }
        match find_chars(&rest, from) {
            Some(i) => {
                assert(occurs_at(rest@, from@, i as int));
                let head = slice_of(&rest, 0, i);
                let n = rest.len();
                let tail = slice_of(&rest, i + from.len(), n);
                proof {
                    assert(head@ =~= rest@.take(i as int));
                }
                push_all(&mut r, &head);
                push_all(&mut r, to);
                proof {
                    assert(r@ + replace(tail@, from@, to@) =~= replace(s@, from@, to@));
                }
                rest = tail;
            },
            None => {
                push_all(&mut r, &rest);
                return r;
            },
        }
    }
}

/// `str::replace` with `str` patterns.
pub fn replace_str(s: &[char], from: &str, to: &str) -> (r: Vec<char>)
    requires
        from@.len() > 0,
    ensures
        r@ == replace(s@, from@, to@),
{
    let f = chars_of(from);
    let t = chars_of(to);
    replace_chars(s, &f, &t)
}

/// The first `n` characters (all of `s` when it is shorter):
/// `s.chars().take(n).collect()`.
pub open spec fn clamp(s: Seq<char>, n: nat) -> Seq<char> {
    if s.len() <= n {
        s
    } else {
        s.take(n as int)
    }
}

pub fn clamp_chars(s: &[char], n: usize) -> (r: Vec<char>)
    ensures
        r@ == clamp(s@, n as nat),
{
    if s.len() <= n {
        slice_of(s, 0, s.len())
    } else {
        slice_of(s, 0, n)
    }
}

/// The part after the last `c` (all of `s` when it has none):
/// `s.rsplit(c).next().unwrap()`.
pub open spec fn after_last(s: Seq<char>, c: char) -> Seq<char> {
    match rfind(s, seq![c]) {
        Some(i) => s.skip(i + 1),
        None => s,
    }
}

pub fn after_last_chars(s: &[char], c: char) -> (r: Vec<char>)
    ensures
        r@ == after_last(s@, c),
{
    let mut p: Vec<char> = Vec::new();
    p.push(c);
    proof {
        assert(p@ =~= seq![c]);
    }
    match rfind_chars(s, &p) {
        Some(i) => {
            proof {
                lemma_rfind(s@, p@);
                assert(occurs_at(s@, p@, i as int));
            }
            let n = s.len();
            slice_of(s, i + 1, n)
        },
        None => slice_of(s, 0, s.len()),
    }
}

/// `str::trim_end_matches(c)` for a single character.
pub open spec fn trim_end_char(s: Seq<char>, c: char) -> Seq<char>
    decreases s.len(),
{
    if s.len() > 0 && s.last() == c {
        trim_end_char(s.drop_last(), c)
    } else {
        s
    }
}

pub fn trim_end_char_chars(s: &[char], c: char) -> (r: Vec<char>)
    ensures
        r@ == trim_end_char(s@, c),
{
    let mut n: usize = s.len();
    proof {
        assert(s@.take(n as int) =~= s@);
    }
    while n > 0 && s[n - 1] == c
        invariant
            n <= s@.len(),
            trim_end_char(s@.take(n as int), c) == trim_end_char(s@, c),
        decreases n,
    {
        proof {
            assert(s@.take(n as int).drop_last() =~= s@.take(n - 1));
        }
        n = n - 1;
    }
    let r = slice_of(s, 0, n);
    proof {
        assert(r@ =~= s@.take(n as int));
    }
    r
}

/// `str::trim_start_matches(c)` for a single character.
pub open spec fn trim_start_char(s: Seq<char>, c: char) -> Seq<char>
    decreases s.len(),
{
    if s.len() > 0 && s[0] == c {
        trim_start_char(s.drop_first(), c)
    } else {
        s
    }
}

pub fn trim_start_char_chars(s: &[char], c: char) -> (r: Vec<char>)
    ensures
        r@ == trim_start_char(s@, c),
{
    let mut n: usize = 0;
    proof {
        assert(s@.skip(0) =~= s@);
    }
    while n < s.len() && s[n] == c
        invariant
            n <= s@.len(),
            trim_start_char(s@.skip(n as int), c) == trim_start_char(s@, c),
        decreases s.len() - n,
    {
        proof {
            assert(s@.skip(n as int).drop_first() =~= s@.skip(n + 1));
        }
        n = n + 1;
    }
    slice_of(s, n, s.len())
}


/// Whether every character is ASCII.
pub fn is_ascii_chars_exec(s: &[char]) -> (r: bool)
    ensures
        r == (forall|k: int| 0 <= k < s@.len() ==> (s@[k] as u32) < 128),
{
    let mut k: usize = 0;
    while k < s.len()
        invariant
            k <= s@.len(),
            forall|m: int| 0 <= m < k ==> (s@[m] as u32) < 128,
        decreases s.len() - k,
    {
        if (s[k] as u32) >= 128 {
            return false;
        }
        k = k + 1;
    }
    true
}


/// `str::split(c)`: the pieces between occurrences of `c` (always at least one).
pub open spec fn split(s: Seq<char>, c: char) -> Seq<Seq<char>>
    decreases s.len(),
{
    let i = char_pos(s, c);
    if i >= s.len() {
        seq![s]
    } else {
        seq![s.take(i as int)] + split(s.skip(i + 1 as int), c)
    }
}

/// `str::split(c)` over characters.
pub fn split_chars(s: &[char], c: char) -> (r: Vec<Vec<char>>)
    ensures
        views(r@) == split(s@, c),
        r@.len() >= 1,
{
    let mut r: Vec<Vec<char>> = Vec::new();
    let mut pos: usize = 0;
    proof {
        assert(s@.skip(0) =~= s@);
        assert(views(r@) + split(s@, c) =~= split(s@, c));
    }
    loop
        invariant
            pos <= s@.len(),
            views(r@) + split(s@.skip(pos as int), c) == split(s@, c),
        decreases s.len() - pos,
    {
        let ghost t = s@.skip(pos as int);
        let j = char_pos_from(s, c, pos);
        proof {
            lemma_char_pos_bound(t, c);
        }
        if j == s.len() {
            let piece = slice_of(s, pos, s.len());
            proof {
                assert(piece@ =~= t);
                lemma_views_push(r@, piece);
                assert(views(r@.push(piece)) =~= views(r@) + split(t, c));
            }
            r.push(piece);
            return r;
        } else {
            let piece = slice_of(s, pos, j);
            proof {
                assert(piece@ =~= t.take(j - pos));
                assert(s@.skip(j + 1) =~= t.skip(j - pos + 1));
                lemma_views_push(r@, piece);
                assert(views(r@.push(piece)) + split(s@.skip(j + 1), c) =~= views(r@) + split(t, c));
            }
            r.push(piece);
            pos = j + 1;
        }
    }
}

/// `str::split_once(pat)`: around the first occurrence of `p`.
pub open spec fn split_once(s: Seq<char>, p: Seq<char>) -> Option<(Seq<char>, Seq<char>)> {
    match find(s, p) {
        Some(i) => Some((s.take(i), s.skip(i + p.len()))),
        None => None,
    }
}

pub fn split_once_chars(s: &[char], p: &[char]) -> (r: Option<(Vec<char>, Vec<char>)>)
    ensures
        match r {
            Some((a, b)) => split_once(s@, p@) == Some((a@, b@)),
            None => split_once(s@, p@) is None,
        },
{
    proof {
        lemma_find(s@, p@);
    }
    match find_chars(s, p) {
        Some(i) => {
            assert(occurs_at(s@, p@, i as int));
            let n = s.len();
            Some((slice_of(s, 0, i), slice_of(s, i + p.len(), n)))
        },
        None => None,
    }
}

/// `s.rsplit_once(c)`: around the last occurrence of `c`.
pub open spec fn rsplit_once_char(s: Seq<char>, c: char) -> Option<(Seq<char>, Seq<char>)> {
    match rfind(s, seq![c]) {
        Some(i) => Some((s.take(i), s.skip(i + 1))),
        None => None,
    }
}

pub fn rsplit_once_char_chars(s: &[char], c: char) -> (r: Option<(Vec<char>, Vec<char>)>)
    ensures
        match r {
            Some((a, b)) => rsplit_once_char(s@, c) == Some((a@, b@)),
            None => rsplit_once_char(s@, c) is None,
        },
{
    let mut p: Vec<char> = Vec::new();
    p.push(c);
    proof {
        assert(p@ =~= seq![c]);
        lemma_rfind(s@, p@);
    }
    match rfind_chars(s, &p) {
        Some(i) => {
            assert(occurs_at(s@, p@, i as int));
            let n = s.len();
            Some((slice_of(s, 0, i), slice_of(s, i + 1, n)))
        },
        None => None,
    }
}

/// The part before the first `c` (`s.split(c).next().unwrap()`).
pub open spec fn before_first(s: Seq<char>, c: char) -> Seq<char> {
    s.take(char_pos(s, c) as int)
}

pub fn before_first_chars(s: &[char], c: char) -> (r: Vec<char>)
    ensures
        r@ == before_first(s@, c),
{
    let j = char_pos_from(s, c, 0);
    proof {
        assert(s@.skip(0) =~= s@);
    }
    slice_of(s, 0, j)
}


// ───────────────────────────── encoding ─────────────────────────────

/// Number of UTF-8 bytes that encode `s`.
pub open spec fn utf8_len(s: Seq<char>) -> nat
    decreases s.len(),
{
    if s.len() == 0 {
        0
    } else {
        utf8_len(s.drop_last()) + if (s.last() as u32) < 0x80 {
            1nat
        } else if (s.last() as u32) < 0x800 {
            2nat
        } else if (s.last() as u32) < 0x10000 {
            3nat
        } else {
            4nat
        }
    }
}

pub proof fn lemma_utf8_len_mono(s: Seq<char>, k: int)
    requires
        0 <= k <= s.len(),
    ensures
        utf8_len(s.take(k)) <= utf8_len(s),
    decreases s.len() - k,
{
    if k < s.len() {
        lemma_utf8_len_mono(s, k + 1);
        assert(s.take(k + 1).drop_last() =~= s.take(k));
    } else {
        assert(s.take(k) =~= s);
    }
}


/// The text std's `String::from_utf8_lossy` makes of `bytes` (invalid
/// sequences become U+FFFD).
pub uninterp spec fn utf8_lossy(bytes: Seq<u8>) -> Seq<char>;

/// `String::from_utf8_lossy`: its result is named `utf8_lossy` of the bytes.
#[verifier::external_body]
pub(crate) fn from_utf8_lossy(bytes: &[u8]) -> (s: String)
    ensures
        s@ == utf8_lossy(bytes@),
{
    String::from_utf8_lossy(bytes).into_owned()
}

/// The UTF-8 encoding of one character.
pub open spec fn utf8_char(c: char) -> Seq<u8> {
    let v = c as u32;
    if v < 0x80 {
        seq![v as u8]
    } else if v < 0x800 {
        seq![(0xC0 + v / 64) as u8, (0x80 + v % 64) as u8]
    } else if v < 0x10000 {
        seq![(0xE0 + v / 4096) as u8, (0x80 + (v / 64) % 64) as u8, (0x80 + v % 64) as u8]
    } else {
        seq![
            (0xF0 + v / 262144) as u8,
            (0x80 + (v / 4096) % 64) as u8,
            (0x80 + (v / 64) % 64) as u8,
            (0x80 + v % 64) as u8,
        ]
    }
}

/// The UTF-8 encoding of `s` (`str::as_bytes`).
pub open spec fn utf8_bytes(s: Seq<char>) -> Seq<u8>
    decreases s.len(),
{
    if s.len() == 0 {
        Seq::empty()
    } else {
        utf8_bytes(s.drop_last()) + utf8_char(s.last())
    }
}

/// The UTF-8 bytes of `s`.
pub fn bytes_of(s: &str) -> (r: Vec<u8>)
    ensures
        r@ == utf8_bytes(s@),
{
    let cs = chars_of(s);
    let mut r: Vec<u8> = Vec::new();
    let mut k: usize = 0;
    while k < cs.len()
        invariant
            k <= cs@.len(),
            cs@ == s@,
            r@ == utf8_bytes(cs@.take(k as int)),
        decreases cs.len() - k,
    {
        proof {
            assert(cs@.take(k + 1).drop_last() =~= cs@.take(k as int));
            assert(cs@.take(k + 1).last() == cs@[k as int]);
        }
        let v = cs[k] as u32;
        let ghost before = r@;
        if v < 0x80 {
            r.push(v as u8);
        } else if v < 0x800 {
            r.push((0xC0 + v / 64) as u8);
            r.push((0x80 + v % 64) as u8);
        } else if v < 0x10000 {
            r.push((0xE0 + v / 4096) as u8);
            r.push((0x80 + (v / 64) % 64) as u8);
            r.push((0x80 + v % 64) as u8);
        } else {
            r.push((0xF0 + v / 262144) as u8);
            r.push((0x80 + (v / 4096) % 64) as u8);
            r.push((0x80 + (v / 64) % 64) as u8);
            r.push((0x80 + v % 64) as u8);
        }
        proof {
            assert(r@ =~= before + utf8_char(cs@[k as int]));
        }
        k = k + 1;
    }
    proof {
        assert(cs@.take(cs@.len() as int) =~= cs@);
    }
    r
}


// ───────────────────────────── occurrences across concatenation ─────────────────────────────

/// No non-empty suffix of `a` shorter than `x` is a prefix of `x`: an
/// occurrence of `x` cannot start inside `a` and run past its end.
pub open spec fn no_tail_start(a: Seq<char>, x: Seq<char>) -> bool {
    forall|i: int| 0 <= i < a.len() && a.len() - i < x.len() ==> #[trigger] a.skip(i) != x.take(a.len() - i)
}

/// `x` occurs in `a` (or in `b`) ⇒ it occurs in `a + b`.
pub proof fn lemma_contains_concat(a: Seq<char>, b: Seq<char>, y: Seq<char>)
    ensures
        contains(a, y) ==> contains(a + b, y),
        contains(b, y) ==> contains(a + b, y),
{
    if contains(a, y) {
        let i = choose|i: int| occurs_at(a, y, i);
        assert((a + b).subrange(i, i + y.len()) =~= a.subrange(i, i + y.len()));
        assert(occurs_at(a + b, y, i));
    }
    if contains(b, y) {
        let i = choose|i: int| occurs_at(b, y, i);
        assert((a + b).subrange(a.len() + i, a.len() + i + y.len()) =~= b.subrange(i, i + y.len()));
        assert(occurs_at(a + b, y, a.len() + i));
    }
}

/// A text contains itself.
pub proof fn lemma_contains_self(y: Seq<char>)
    ensures
        contains(y, y),
{
    assert(y.subrange(0, y.len() as int) =~= y);
    assert(occurs_at(y, y, 0));
}

/// `x` is not in `a + b` when it is in neither and no occurrence can cross
/// the boundary: either no tail of `a` starts `x`, or `b` begins with a
/// character that `x` lacks.
pub proof fn lemma_no_occurrence_concat(a: Seq<char>, b: Seq<char>, x: Seq<char>)
    requires
        x.len() > 0,
        !contains(a, x),
        !contains(b, x),
        no_tail_start(a, x) || (b.len() > 0 && !x.contains(b[0])),
    ensures
        !contains(a + b, x),
{
    if contains(a + b, x) {
        let s = a + b;
        let i = choose|i: int| occurs_at(s, x, i);
        if i + x.len() <= a.len() {
            assert(s.subrange(i, i + x.len()) =~= a.subrange(i, i + x.len()));
            assert(occurs_at(a, x, i));
        } else if i >= a.len() {
            assert(s.subrange(i, i + x.len()) =~= b.subrange(i - a.len(), i - a.len() + x.len()));
            assert(occurs_at(b, x, i - a.len()));
        } else {
            let n = a.len() - i;
            assert(a.skip(i) =~= s.subrange(i, i + x.len()).take(n));
            assert(a.skip(i) =~= x.take(n));
            if !no_tail_start(a, x) {
                assert(b[0] == s[a.len() as int]);
                assert(s[a.len() as int] == s.subrange(i, i + x.len())[n]);
                assert(x[n] == b[0]);
                assert(x.contains(b[0]));
            }
        }
    }
}

/// A text ending in a character that `x` lacks has no tail starting `x`.
pub proof fn lemma_tail_ends_outside(a: Seq<char>, x: Seq<char>)
    requires
        a.len() > 0,
        !x.contains(a.last()),
    ensures
        no_tail_start(a, x),
{
    assert forall|i: int| 0 <= i < a.len() && a.len() - i < x.len() implies #[trigger] a.skip(i) != x.take(
        a.len() - i,
    ) by {
        if a.skip(i) == x.take(a.len() - i) {
            let n = a.len() - i;
            assert(a.skip(i)[n - 1] == a.last());
            assert(x.take(n)[n - 1] == x[n - 1]);
            assert(x.contains(x[n - 1]));
        }
    }
}

/// A text without `x`'s first character neither contains `x` nor has a tail
/// starting it.
pub proof fn lemma_lacks_first(s: Seq<char>, x: Seq<char>)
    requires
        x.len() > 0,
        !s.contains(x[0]),
    ensures
        !contains(s, x),
        no_tail_start(s, x),
{
    if contains(s, x) {
        let i = choose|i: int| occurs_at(s, x, i);
        assert(s.subrange(i, i + x.len())[0] == s[i]);
        assert(s.contains(s[i]));
    }
    assert forall|i: int| 0 <= i < s.len() && s.len() - i < x.len() implies #[trigger] s.skip(i) != x.take(
        s.len() - i,
    ) by {
        if s.skip(i) == x.take(s.len() - i) {
            assert(s.skip(i)[0] == s[i]);
            assert(x.take(s.len() - i)[0] == x[0]);
            assert(s.contains(s[i]));
        }
    }
}

/// A prefix of a text without `x` is without `x`.
pub proof fn lemma_no_occurrence_prefix(s: Seq<char>, n: int, x: Seq<char>)
    requires
        0 <= n <= s.len(),
        !contains(s, x),
    ensures
        !contains(s.take(n), x),
{
    if contains(s.take(n), x) {
        let i = choose|i: int| occurs_at(s.take(n), x, i);
        assert(s.take(n).subrange(i, i + x.len()) =~= s.subrange(i, i + x.len()));
        assert(occurs_at(s, x, i));
    }
}

} // verus!
