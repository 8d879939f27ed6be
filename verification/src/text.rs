//! Character-level text utilities shared by the parser.
//!
//! Source text is handled as sequences of `char`; every helper here states
//! its result over `Seq<char>` so that the parsers above can be specified the
//! same way.
use vstd::prelude::*;

verus! {

/// Unicode `White_Space` characters, as recognised by `char::is_whitespace`.
pub open spec fn spec_is_whitespace(c: char) -> bool {
    ||| c == ' '
    ||| ('\u{9}' <= c && c <= '\u{d}')
    ||| c == '\u{85}'
    ||| c == '\u{a0}'
    ||| c == '\u{1680}'
    ||| ('\u{2000}' <= c && c <= '\u{200a}')
    ||| c == '\u{2028}'
    ||| c == '\u{2029}'
    ||| c == '\u{202f}'
    ||| c == '\u{205f}'
    ||| c == '\u{3000}'
}

pub fn is_whitespace(c: char) -> (r: bool)
    ensures
        r == spec_is_whitespace(c),
{
    c == ' ' || ('\u{9}' <= c && c <= '\u{d}') || c == '\u{85}' || c == '\u{a0}' || c == '\u{1680}'
        || ('\u{2000}' <= c && c <= '\u{200a}') || c == '\u{2028}' || c == '\u{2029}' || c
        == '\u{202f}' || c == '\u{205f}' || c == '\u{3000}'
}

pub open spec fn spec_is_ascii_digit(c: char) -> bool {
    '0' <= c && c <= '9'
}

pub open spec fn spec_is_ascii_alpha(c: char) -> bool {
    ('a' <= c && c <= 'z') || ('A' <= c && c <= 'Z')
}

/// ASCII punctuation, as recognised by `char::is_ascii_punctuation`.
pub open spec fn spec_is_ascii_punctuation(c: char) -> bool {
    ||| ('!' <= c && c <= '/')
    ||| (':' <= c && c <= '@')
    ||| ('[' <= c && c <= '`')
    ||| ('{' <= c && c <= '~')
}

pub fn is_ascii_punctuation(c: char) -> (r: bool)
    ensures
        r == spec_is_ascii_punctuation(c),
{
    ('!' <= c && c <= '/') || (':' <= c && c <= '@') || ('[' <= c && c <= '`') || ('{' <= c && c
        <= '~')
}

/// Characters that may appear in a (dotted) identifier path.
pub open spec fn spec_is_ident_char(c: char) -> bool {
    spec_is_ascii_alpha(c) || spec_is_ascii_digit(c) || c == '_' || c == '.'
}

pub fn is_ident_char(c: char) -> (r: bool)
    ensures
        r == spec_is_ident_char(c),
{
    ('a' <= c && c <= 'z') || ('A' <= c && c <= 'Z') || ('0' <= c && c <= '9') || c == '_' || c
        == '.'
}

/// `s` with its leading whitespace removed.
pub open spec fn spec_trim_start(s: Seq<char>) -> Seq<char>
    decreases s.len(),
{
    if s.len() > 0 && spec_is_whitespace(s[0]) {
        spec_trim_start(s.drop_first())
    } else {
        s
    }
}

/// `s` with its trailing whitespace removed.
pub open spec fn spec_trim_end(s: Seq<char>) -> Seq<char>
    decreases s.len(),
{
    if s.len() > 0 && spec_is_whitespace(s.last()) {
        spec_trim_end(s.drop_last())
    } else {
        s
    }
}

pub open spec fn spec_trim(s: Seq<char>) -> Seq<char> {
    spec_trim_end(spec_trim_start(s))
}

/// First index `k >= i` at which `p` occurs in `s`.
pub open spec fn spec_find_from(s: Seq<char>, p: Seq<char>, i: int) -> Option<int>
    decreases s.len() + 1 - i,
{
    if i < 0 || i + p.len() > s.len() {
        None
    } else if s.subrange(i, i + p.len()) == p {
        Some(i)
    } else {
        spec_find_from(s, p, i + 1)
    }
}

/// First index at which `p` occurs in `s`.
pub open spec fn spec_find(s: Seq<char>, p: Seq<char>) -> Option<int> {
    spec_find_from(s, p, 0)
}

/// Last index `k < i` holding the character `c`.
pub open spec fn spec_rfind_before(s: Seq<char>, c: char, i: int) -> Option<int>
    decreases i,
{
    if i <= 0 {
        None
    } else if s[i - 1] == c {
        Some(i - 1)
    } else {
        spec_rfind_before(s, c, i - 1)
    }
}

pub open spec fn spec_rfind(s: Seq<char>, c: char) -> Option<int> {
    spec_rfind_before(s, c, s.len() as int)
}

pub open spec fn spec_contains(s: Seq<char>, p: Seq<char>) -> bool {
    spec_find(s, p) is Some
}

/// `s` split around the first occurrence of `p`.
pub open spec fn spec_split_once(s: Seq<char>, p: Seq<char>) -> Option<(Seq<char>, Seq<char>)> {
    match spec_find(s, p) {
        Some(k) => Some((s.take(k), s.skip(k + p.len()))),
        None => None,
    }
}

/// `s` without the prefix `p`, if it starts with it.
pub open spec fn spec_strip_prefix(s: Seq<char>, p: Seq<char>) -> Option<Seq<char>> {
    if p.is_prefix_of(s) {
        Some(s.skip(p.len() as int))
    } else {
        None
    }
}

/// `s` without the suffix `p`, if it ends with it.
pub open spec fn spec_strip_suffix(s: Seq<char>, p: Seq<char>) -> Option<Seq<char>> {
    if p.is_suffix_of(s) {
        Some(s.take(s.len() - p.len()))
    } else {
        None
    }
}

/// The characters of `s`, in order.
pub fn chars_of(s: &str) -> (v: Vec<char>)
    ensures
        v@ == s@,
{
    let mut v: Vec<char> = Vec::new();
    for c in it: s.chars()
        invariant
            v@ == it.seq().take(it.index() as int),
    {
        v.push(c);
    }
    v
}

/// `String::push`: appends one character.
#[verifier::external_body]
fn string_push(s: &mut String, c: char)
    ensures
        final(s)@ == old(s)@.push(c),
{
    s.push(c);
}

/// The string made of the characters of `v`.
pub fn string_of(v: &[char]) -> (s: String)
    ensures
        s@ == v@,
{
    let mut s = String::new();
    let mut i: usize = 0;
    while i < v.len()
        invariant
            i <= v.len(),
            s@ == v@.take(i as int),
        decreases v.len() - i,
    {
        string_push(&mut s, v[i]);
        i = i + 1;
        assert(s@ =~= v@.take(i as int));
    }
    assert(v@.take(v.len() as int) =~= v@);
    s
}

/// The characters `v[lo..hi]`.
pub fn slice_of(v: &[char], lo: usize, hi: usize) -> (r: Vec<char>)
    requires
        lo <= hi <= v.len(),
    ensures
        r@ == v@.subrange(lo as int, hi as int),
{
    let mut r: Vec<char> = Vec::new();
    let mut i: usize = lo;
    while i < hi
        invariant
            lo <= i <= hi <= v.len(),
            r@ == v@.subrange(lo as int, i as int),
        decreases hi - i,
    {
        r.push(v[i]);
        i = i + 1;
        assert(r@ =~= v@.subrange(lo as int, i as int));
    }
    r
}

/// The characters `v[lo..]`.
pub fn skip(v: &[char], lo: usize) -> (r: Vec<char>)
    requires
        lo <= v.len(),
    ensures
        r@ == v@.skip(lo as int),
{
    slice_of(v, lo, v.len())
}

/// The characters `v[..hi]`.
pub fn take(v: &[char], hi: usize) -> (r: Vec<char>)
    requires
        hi <= v.len(),
    ensures
        r@ == v@.take(hi as int),
{
    slice_of(v, 0, hi)
}

/// A copy of `v`.
pub fn copy(v: &[char]) -> (r: Vec<char>)
    ensures
        r@ == v@,
{
    let r = slice_of(v, 0, v.len());
    assert(v@.subrange(0, v@.len() as int) =~= v@);
    r
}

/// `a` followed by `b`.
pub fn concat(a: &[char], b: &[char]) -> (r: Vec<char>)
    ensures
        r@ == a@ + b@,
{
    let mut r = copy(a);
    let mut i: usize = 0;
    while i < b.len()
        invariant
            i <= b.len(),
            r@ == a@ + b@.take(i as int),
        decreases b.len() - i,
    {
        r.push(b[i]);
        i = i + 1;
        assert(r@ =~= a@ + b@.take(i as int));
    }
    assert(b@.take(b.len() as int) =~= b@);
    r
}

/// Number of leading whitespace characters of `s`.
pub fn leading_whitespace(s: &[char]) -> (n: usize)
    ensures
        n <= s.len(),
        spec_trim_start(s@) == s@.skip(n as int),
{
    let mut i: usize = 0;
    assert(s@.skip(0) =~= s@);
    while i < s.len() && is_whitespace(s[i])
        invariant
            i <= s.len(),
            spec_trim_start(s@) == spec_trim_start(s@.skip(i as int)),
        decreases s.len() - i,
    {
        assert(s@.skip(i as int).drop_first() =~= s@.skip(i + 1));
        i = i + 1;
    }
    i
}

/// Length of `s` once its trailing whitespace is removed.
pub fn trimmed_end_len(s: &[char]) -> (n: usize)
    ensures
        n <= s.len(),
        spec_trim_end(s@) == s@.take(n as int),
{
    let mut i: usize = s.len();
    assert(s@.take(i as int) =~= s@);
    while i > 0 && is_whitespace(s[i - 1])
        invariant
            i <= s.len(),
            spec_trim_end(s@) == spec_trim_end(s@.take(i as int)),
        decreases i,
    {
        assert(s@.take(i as int).drop_last() =~= s@.take(i - 1));
        i = i - 1;
    }
    i
}

pub fn trim_start(s: &[char]) -> (r: Vec<char>)
    ensures
        r@ == spec_trim_start(s@),
{
    let n = leading_whitespace(s);
    skip(s, n)
}

pub fn trim_end(s: &[char]) -> (r: Vec<char>)
    ensures
        r@ == spec_trim_end(s@),
{
    let n = trimmed_end_len(s);
    take(s, n)
}

pub fn trim(s: &[char]) -> (r: Vec<char>)
    ensures
        r@ == spec_trim(s@),
{
    let t = trim_start(s);
    trim_end(&t)
}

/// Whether `s[i..]` begins with `p`.
pub fn starts_with_at(s: &[char], i: usize, p: &[char]) -> (r: bool)
    requires
        i <= s.len(),
    ensures
        r == (i + p.len() <= s.len() && s@.subrange(i as int, i + p.len()) == p@),
        r == p@.is_prefix_of(s@.skip(i as int)),
{
    if p.len() > s.len() - i {
        return false;
    }
    let mut k: usize = 0;
    while k < p.len()
        invariant
            k <= p.len(),
            i + p.len() <= s.len(),
            forall|j: int| 0 <= j < k ==> s@[i + j] == p@[j],
        decreases p.len() - k,
    {
        if s[i + k] != p[k] {
            assert(s@.subrange(i as int, i + p.len())[k as int] != p@[k as int]);
            return false;
        }
        k = k + 1;
    }
    assert(s@.subrange(i as int, i + p.len()) =~= p@);
    true
}

pub fn starts_with(s: &[char], p: &[char]) -> (r: bool)
    ensures
        r == p@.is_prefix_of(s@),
{
    let r = starts_with_at(s, 0, p);
    assert(s@.skip(0) =~= s@);
    r
}

pub fn ends_with(s: &[char], p: &[char]) -> (r: bool)
    ensures
        r == p@.is_suffix_of(s@),
{
    if p.len() > s.len() {
        return false;
    }
    let r = starts_with_at(s, s.len() - p.len(), p);
    assert(p@.is_suffix_of(s@) == (s@.subrange(s.len() - p.len(), s.len() as int) == p@));
    r
}

/// Whether `s` begins with the character `c`.
pub fn starts_with_char(s: &[char], c: char) -> (r: bool)
    ensures
        r == (s.len() > 0 && s@[0] == c),
{
    s.len() > 0 && s[0] == c
}

pub fn ends_with_char(s: &[char], c: char) -> (r: bool)
    ensures
        r == (s.len() > 0 && s@.last() == c),
{
    s.len() > 0 && s[s.len() - 1] == c
}

/// First index `k >= from` at which `p` occurs in `s`.
pub fn find_from(s: &[char], p: &[char], from: usize) -> (r: Option<usize>)
    requires
        from <= s.len(),
    ensures
        r matches Some(k) ==> spec_find_from(s@, p@, from as int) == Some(k as int),
        r is None ==> spec_find_from(s@, p@, from as int) is None,
{
    let mut i = from;
    while i <= s.len()
        invariant
            from <= i <= s.len() + 1,
            spec_find_from(s@, p@, from as int) == spec_find_from(s@, p@, i as int),
        decreases s.len() + 1 - i,
    {
        if starts_with_at(s, i, p) {
            return Some(i);
        }
        if p.len() >= s.len() - i {
            assert(spec_find_from(s@, p@, i + 1) is None);
            return None;
        }
        i = i + 1;
    }
    None
}

pub fn find(s: &[char], p: &[char]) -> (r: Option<usize>)
    ensures
        r matches Some(k) ==> spec_find(s@, p@) == Some(k as int),
        r is None ==> spec_find(s@, p@) is None,
{
    find_from(s, p, 0)
}

pub fn find_char(s: &[char], c: char) -> (r: Option<usize>)
    ensures
        r matches Some(k) ==> spec_find(s@, seq![c]) == Some(k as int),
        r is None ==> spec_find(s@, seq![c]) is None,
{
    let p = vec![c];
    assert(p@ =~= seq![c]);
    find(s, p.as_slice())
}

pub fn contains(s: &[char], p: &[char]) -> (r: bool)
    ensures
        r == spec_contains(s@, p@),
{
    find(s, p).is_some()
}

pub fn contains_char(s: &[char], c: char) -> (r: bool)
    ensures
        r == spec_contains(s@, seq![c]),
{
    find_char(s, c).is_some()
}

pub fn rfind_char(s: &[char], c: char) -> (r: Option<usize>)
    ensures
        r matches Some(k) ==> spec_rfind(s@, c) == Some(k as int) && k < s.len(),
        r is None ==> spec_rfind(s@, c) is None,
{
    let mut i = s.len();
    while i > 0
        invariant
            i <= s.len(),
            spec_rfind(s@, c) == spec_rfind_before(s@, c, i as int),
        decreases i,
    {
        if s[i - 1] == c {
            return Some(i - 1);
        }
        i = i - 1;
    }
    None
}

pub proof fn lemma_find_from_bounds(s: Seq<char>, p: Seq<char>, i: int)
    ensures
        spec_find_from(s, p, i) matches Some(k) ==> i <= k && k + p.len() <= s.len() && s.subrange(
            k,
            k + p.len(),
        ) == p,
    decreases s.len() + 1 - i,
{
    if i < 0 || i + p.len() > s.len() {
    } else if s.subrange(i, i + p.len()) == p {
    } else {
        lemma_find_from_bounds(s, p, i + 1);
    }
}

pub proof fn lemma_rfind_bounds(s: Seq<char>, c: char, i: int)
    requires
        i <= s.len(),
    ensures
        spec_rfind_before(s, c, i) matches Some(k) ==> 0 <= k < i && s[k] == c,
    decreases i,
{
    if i > 0 && s[i - 1] != c {
        lemma_rfind_bounds(s, c, i - 1);
    }
}

/// `s` split around the first occurrence of `p`.
pub fn split_once(s: &[char], p: &[char]) -> (r: Option<(Vec<char>, Vec<char>)>)
    ensures
        r matches Some((a, b)) ==> spec_split_once(s@, p@) == Some((a@, b@)),
        r is None ==> spec_split_once(s@, p@) is None,
{
    let _n = s.len();
    match find(s, p) {
        Some(k) => {
            proof {
                lemma_find_from_bounds(s@, p@, 0);
                assert(spec_find_from(s@, p@, 0) == Some(k as int));
                assert(k + p@.len() <= s@.len());
            }
            let e = k + p.len();
            let a = take(s, k);
            let b = skip(s, e);
            Some((a, b))
        },
        None => None,
    }
}

pub fn split_once_char(s: &[char], c: char) -> (r: Option<(Vec<char>, Vec<char>)>)
    ensures
        r matches Some((a, b)) ==> spec_split_once(s@, seq![c]) == Some((a@, b@)),
        r is None ==> spec_split_once(s@, seq![c]) is None,
{
    let p = vec![c];
    assert(p@ =~= seq![c]);
    split_once(s, p.as_slice())
}

pub fn strip_prefix(s: &[char], p: &[char]) -> (r: Option<Vec<char>>)
    ensures
        r matches Some(t) ==> spec_strip_prefix(s@, p@) == Some(t@),
        r is None ==> spec_strip_prefix(s@, p@) is None,
{
    if starts_with(s, p) {
        Some(skip(s, p.len()))
    } else {
        None
    }
}

pub fn strip_prefix_char(s: &[char], c: char) -> (r: Option<Vec<char>>)
    ensures
        r matches Some(t) ==> s.len() > 0 && s@[0] == c && t@ == s@.drop_first(),
        r is None ==> !(s.len() > 0 && s@[0] == c),
        r matches Some(t) ==> spec_strip_prefix(s@, seq![c]) == Some(t@),
        r is None ==> spec_strip_prefix(s@, seq![c]) is None,
{
    let p = vec![c];
    assert(p@ =~= seq![c]);
    let r = strip_prefix(s, p.as_slice());
    proof {
        if s.len() > 0 && s@[0] == c {
            assert(seq![c].is_prefix_of(s@));
        }
    }
    r
}

pub fn strip_suffix(s: &[char], p: &[char]) -> (r: Option<Vec<char>>)
    ensures
        r matches Some(t) ==> spec_strip_suffix(s@, p@) == Some(t@),
        r is None ==> spec_strip_suffix(s@, p@) is None,
{
    if ends_with(s, p) {
        Some(take(s, s.len() - p.len()))
    } else {
        None
    }
}

/// Whether two character sequences are equal.
pub fn chars_eq(a: &[char], b: &[char]) -> (r: bool)
    ensures
        r == (a@ == b@),
{
    if a.len() != b.len() {
        return false;
    }
    let r = starts_with(a, b);
    proof {
        if r {
            assert(a@ =~= b@);
        }
    }
    r
}

} // verus!

verus! {

/// Searching in a suffix of `s` is searching in `s` from further on.
pub proof fn lemma_find_skip(s: Seq<char>, p: Seq<char>, a: int, i: int)
    requires
        0 <= a <= s.len(),
        0 <= i,
    ensures
        spec_find_from(s.skip(a), p, i) == (match spec_find_from(s, p, i + a) {
            Some(k) => Some(k - a),
            None => None,
        }),
    decreases s.len() + 1 - a - i,
{
    let t = s.skip(a);
    if i + p.len() > t.len() {
    } else {
        assert(t.subrange(i, i + p.len()) =~= s.subrange(i + a, i + a + p.len()));
        if t.subrange(i, i + p.len()) != p {
            lemma_find_skip(s, p, a, i + 1);
            assert(i + 1 + a == i + a + 1);
        }
    }
}

/// `spec_find` of a single character is its first occurrence.
pub proof fn lemma_find_char_first(s: Seq<char>, c: char, i: int, j: int)
    requires
        0 <= i <= j < s.len(),
        s[j] == c,
        forall|t: int| i <= t < j ==> s[t] != c,
    ensures
        spec_find_from(s, seq![c], i) == Some(j),
    decreases j - i,
{
    if s.subrange(i, i + 1) == seq![c] {
        assert(s.subrange(i, i + 1)[0] == s[i]);
    } else {
        if i == j {
            assert(s.subrange(i, i + 1) =~= seq![c]);
        }
        lemma_find_char_first(s, c, i + 1, j);
    }
}

/// A character that does not occur is not found.
pub proof fn lemma_find_char_none(s: Seq<char>, c: char, i: int)
    requires
        0 <= i <= s.len(),
        forall|t: int| i <= t < s.len() ==> s[t] != c,
    ensures
        spec_find_from(s, seq![c], i) is None,
    decreases s.len() - i,
{
    if i < s.len() {
        assert(s.subrange(i, i + 1)[0] == s[i]);
        lemma_find_char_none(s, c, i + 1);
    }
}

/// What `spec_find` of a single character says about the characters.
pub proof fn lemma_find_char_props(s: Seq<char>, c: char, i: int)
    requires
        0 <= i,
    ensures
        spec_find_from(s, seq![c], i) matches Some(k) ==> i <= k < s.len() && s[k] == c
            && forall|t: int| i <= t < k ==> s[t] != c,
        spec_find_from(s, seq![c], i) is None ==> forall|t: int| i <= t < s.len() ==> s[t] != c,
    decreases s.len() + 1 - i,
{
    if i + 1 > s.len() {
    } else if s.subrange(i, i + 1) == seq![c] {
        assert(s.subrange(i, i + 1)[0] == s[i]);
    } else {
        if s[i] == c {
            assert(s.subrange(i, i + 1) =~= seq![c]);
        }
        lemma_find_char_props(s, c, i + 1);
    }
}

/// How many bytes UTF-8 takes for `c`.
pub open spec fn spec_utf8_len(c: char) -> nat {
    if (c as u32) < 0x80 {
        1
    } else if (c as u32) < 0x800 {
        2
    } else if (c as u32) < 0x10000 {
        3
    } else {
        4
    }
}

/// The byte offset, in UTF-8, of the character at index `i` of `s`.
pub open spec fn spec_byte_offset(s: Seq<char>, i: int) -> nat
    decreases i,
{
    if i <= 0 || s.len() == 0 {
        0
    } else if i > s.len() {
        spec_byte_offset(s, s.len() as int)
    } else {
        spec_byte_offset(s, i - 1) + spec_utf8_len(s[i - 1])
    }
}

/// The first character index from `i` on whose byte offset is at least `b`
/// (the length of `s` when there is none).
pub open spec fn spec_char_index_from(s: Seq<char>, i: int, b: int) -> int
    decreases s.len() - i,
{
    if i < 0 || i >= s.len() || spec_byte_offset(s, i) >= b {
        i
    } else {
        spec_char_index_from(s, i + 1, b)
    }
}

/// The character index at byte offset `b` of `s`, when `b` is a character
/// boundary.
pub open spec fn spec_char_index(s: Seq<char>, b: int) -> int {
    spec_char_index_from(s, 0, b)
}

pub proof fn lemma_byte_offset_mono(s: Seq<char>, i: int, j: int)
    requires
        0 <= i <= j <= s.len(),
    ensures
        spec_byte_offset(s, i) <= spec_byte_offset(s, j),
        i < j ==> spec_byte_offset(s, i) < spec_byte_offset(s, j),
    decreases j - i,
{
    if i < j {
        lemma_byte_offset_mono(s, i, j - 1);
    }
}

proof fn lemma_char_index_from_bounds(s: Seq<char>, i: int, b: int)
    requires
        0 <= i <= s.len(),
    ensures
        i <= spec_char_index_from(s, i, b) <= s.len(),
    decreases s.len() - i,
{
    if i < s.len() && spec_byte_offset(s, i) < b {
        lemma_char_index_from_bounds(s, i + 1, b);
    }
}

/// How many bytes UTF-8 takes for `c`.
pub fn utf8_len(c: char) -> (n: usize)
    ensures
        n == spec_utf8_len(c),
{
    let u = c as u32;
    if u < 0x80 {
        1
    } else if u < 0x800 {
        2
    } else if u < 0x10000 {
        3
    } else {
        4
    }
}

/// The byte offset of the character at index `k` of `s`.
pub fn byte_offset(s: &[char], k: usize) -> (r: usize)
    requires
        k <= s.len(),
        spec_byte_offset(s@, s@.len() as int) <= usize::MAX,
    ensures
        r == spec_byte_offset(s@, k as int),
{
    let mut r: usize = 0;
    let mut i: usize = 0;
    while i < k
        invariant
            i <= k <= s.len(),
            spec_byte_offset(s@, s@.len() as int) <= usize::MAX,
            r == spec_byte_offset(s@, i as int),
        decreases k - i,
    {
        proof {
            lemma_byte_offset_mono(s@, i + 1, s@.len() as int);
        }
        r = r + utf8_len(s[i]);
        i = i + 1;
    }
    r
}

/// The character index at byte offset `b` of `s`: the first index whose
/// byte offset is at least `b`.
pub fn char_index(s: &[char], b: usize) -> (r: usize)
    requires
        spec_byte_offset(s@, s@.len() as int) <= usize::MAX,
    ensures
        r == spec_char_index(s@, b as int),
        r <= s.len(),
{
    let mut off: usize = 0;
    let mut i: usize = 0;
    proof {
        lemma_char_index_from_bounds(s@, 0, b as int);
    }
    while i < s.len() && off < b
        invariant
            i <= s.len(),
            spec_byte_offset(s@, s@.len() as int) <= usize::MAX,
            off == spec_byte_offset(s@, i as int),
            spec_char_index_from(s@, i as int, b as int) == spec_char_index(s@, b as int),
        decreases s.len() - i,
    {
        proof {
            lemma_byte_offset_mono(s@, i + 1, s@.len() as int);
        }
        off = off + utf8_len(s[i]);
        i = i + 1;
    }
    i
}

} // verus!
