//! Text as a sequence of characters.
//!
//! Every reader in this crate works on `&[char]`, whose view is the `Seq<char>`
//! the contracts speak of. The functions here are the vocabulary: trimming,
//! searching, splitting and joining, each stated over the characters alone.
use vstd::prelude::*;
use vstd::slice::slice_subrange;
use vstd::string::*;
use vstd::utf8::{encode_utf8, encode_utf8_decode_utf8};

verus! {

/// `String::push` appends one character.
pub assume_specification[ String::push ](s: &mut String, c: char)
    ensures
        final(s)@ == old(s)@.push(c),
;

/// A set of characters to search for, trim, or split at.
#[derive(Clone, Copy)]
pub enum Class<'a> {
    /// The one character.
    Is(char),
    /// Any of the characters of a string.
    In(&'a str),
    /// Unicode white space.
    Space,
    /// White space within ASCII: space, tab, line feed, form feed, carriage return.
    AsciiSpace,
    /// An ASCII digit.
    Digit,
    /// An ASCII letter.
    Alpha,
    /// An ASCII letter or digit.
    Alnum,
    /// Anything but an ASCII letter or digit.
    NotAlnum,
    /// Anything but white space within ASCII.
    NotAsciiSpace,
    /// Anything but an ASCII digit.
    NotDigit,
}

/// Unicode's `White_Space` property.
pub open spec fn is_space(c: char) -> bool {
    let n = c as u32;
    ||| 0x09 <= n <= 0x0d
    ||| n == 0x20
    ||| n == 0x85
    ||| n == 0xa0
    ||| n == 0x1680
    ||| 0x2000 <= n <= 0x200a
    ||| n == 0x2028
    ||| n == 0x2029
    ||| n == 0x202f
    ||| n == 0x205f
    ||| n == 0x3000
}

/// Space, tab, line feed, form feed or carriage return.
pub open spec fn is_ascii_space(c: char) -> bool {
    c == ' ' || c == '\t' || c == '\n' || c == '\x0c' || c == '\r'
}

/// `0` to `9`.
pub open spec fn is_digit(c: char) -> bool {
    '0' <= c <= '9'
}

/// An ASCII letter.
pub open spec fn is_alpha(c: char) -> bool {
    'a' <= c <= 'z' || 'A' <= c <= 'Z'
}

/// An ASCII letter or digit.
pub open spec fn is_alnum(c: char) -> bool {
    is_alpha(c) || is_digit(c)
}

impl<'a> Class<'a> {
    /// Whether `c` belongs to the set.
    pub open spec fn has(self, c: char) -> bool {
        match self {
            Class::Is(d) => c == d,
            Class::In(set) => set@.contains(c),
            Class::Space => is_space(c),
            Class::AsciiSpace => is_ascii_space(c),
            Class::Digit => is_digit(c),
            Class::Alpha => is_alpha(c),
            Class::Alnum => is_alnum(c),
            Class::NotAlnum => !is_alnum(c),
            Class::NotAsciiSpace => !is_ascii_space(c),
            Class::NotDigit => !is_digit(c),
        }
    }

    /// Test a character for membership.
    pub fn holds(self, c: char) -> (r: bool)
        ensures
            r == self.has(c),
    {
        match self {
            Class::Is(d) => c == d,
            Class::In(set) => member(set, c),
            Class::Space => space(c),
            Class::AsciiSpace => ascii_space(c),
            Class::Digit => digit(c),
            Class::Alpha => alpha(c),
            Class::Alnum => alnum(c),
            Class::NotAlnum => !alnum(c),
            Class::NotAsciiSpace => !ascii_space(c),
            Class::NotDigit => !digit(c),
        }
    }
}

/// Whether `c` is one of the characters of `set`.
pub fn member(set: &str, c: char) -> (r: bool)
    ensures
        r == set@.contains(c),
{
    let chars = chars_of(set);
    let mut i: usize = 0;
    while i < chars.len()
        invariant
            i <= chars.len(),
            chars@ == set@,
            forall|j: int| 0 <= j < i ==> set@[j] != c,
        decreases chars.len() - i,
    {
        if chars[i] == c {
            return true;
        }
        i = i + 1;
    }
    false
}

/// Whether `c` is Unicode white space.
pub fn space(c: char) -> (r: bool)
    ensures
        r == is_space(c),
{
    let n: u32 = c as u32;
    (0x09 <= n && n <= 0x0d) || n == 0x20 || n == 0x85 || n == 0xa0 || n == 0x1680 || (0x2000 <= n
        && n <= 0x200a) || n == 0x2028 || n == 0x2029 || n == 0x202f || n == 0x205f || n == 0x3000
}

/// Whether `c` is white space within ASCII.
pub fn ascii_space(c: char) -> (r: bool)
    ensures
        r == is_ascii_space(c),
{
    c == ' ' || c == '\t' || c == '\n' || c == '\x0c' || c == '\r'
}

/// Whether `c` is an ASCII digit.
pub fn digit(c: char) -> (r: bool)
    ensures
        r == is_digit(c),
{
    '0' <= c && c <= '9'
}

/// Whether `c` is an ASCII letter.
pub fn alpha(c: char) -> (r: bool)
    ensures
        r == is_alpha(c),
{
    ('a' <= c && c <= 'z') || ('A' <= c && c <= 'Z')
}

/// Whether `c` is an ASCII letter or digit.
pub fn alnum(c: char) -> (r: bool)
    ensures
        r == is_alnum(c),
{
    alpha(c) || digit(c)
}

/// The characters of a string.
pub fn chars_of(s: &str) -> (r: Vec<char>)
    ensures
        r@ == s@,
{
    let mut out: Vec<char> = Vec::new();
    for c in it: s.chars()
        invariant
            out@ == s@.take(it.index()),
            it.seq() == s@,
    {
        out.push(c);
        assert(s@.take(it.index() + 1) =~= s@.take(it.index()).push(c));
    }
    assert(s@.take(s@.len() as int) =~= s@);
    out
}

/// A string of the given characters.
pub fn string_of(s: &[char]) -> (r: String)
    ensures
        r@ == s@,
{
    let mut out = String::new();
    let mut i: usize = 0;
    while i < s.len()
        invariant
            i <= s.len(),
            out@ == s@.take(i as int),
        decreases s.len() - i,
    {
        out.push(s[i]);
        i = i + 1;
        assert(s@.take(i as int) =~= s@.take(i - 1).push(s@[i - 1]));
    }
    assert(s@.take(s@.len() as int) =~= s@);
    out
}

/// Whether two texts are the same.
pub fn same(a: &[char], b: &[char]) -> (r: bool)
    ensures
        r == (a@ == b@),
{
    if a.len() != b.len() {
        return false;
    }
    let mut i: usize = 0;
    while i < a.len()
        invariant
            i <= a.len(),
            a.len() == b.len(),
            forall|j: int| 0 <= j < i ==> a@[j] == b@[j],
        decreases a.len() - i,
    {
        if a[i] != b[i] {
            return false;
        }
        i = i + 1;
    }
    assert(a@ =~= b@);
    true
}

/// Whether a text is the given string.
pub fn is_str(a: &[char], b: &str) -> (r: bool)
    ensures
        r == (a@ == b@),
{
    let b = chars_of(b);
    same(a, b.as_slice())
}

/// Whether two strings are the same.
pub fn str_eq(a: &str, b: &str) -> (r: bool)
    ensures
        r == (a@ == b@),
{
    let x = a.as_bytes();
    let y = b.as_bytes();
    proof {
        encode_utf8_decode_utf8(a@);
        encode_utf8_decode_utf8(b@);
    }
    if x.len() != y.len() {
        return false;
    }
    let mut i: usize = 0;
    while i < x.len()
        invariant
            i <= x.len(),
            x.len() == y.len(),
            x@ == encode_utf8(a@),
            y@ == encode_utf8(b@),
            forall|j: int| 0 <= j < i ==> x@[j] == y@[j],
        decreases x.len() - i,
    {
        if x[i] != y[i] {
            return false;
        }
        i = i + 1;
    }
    assert(x@ =~= y@);
    true
}

/// How many characters at the start of `s` belong to `k`.
pub open spec fn leading(s: Seq<char>, k: Class) -> int
    decreases s.len(),
{
    if s.len() > 0 && k.has(s[0]) {
        1 + leading(s.drop_first(), k)
    } else {
        0
    }
}

/// How many characters at the end of `s` belong to `k`.
pub open spec fn trailing(s: Seq<char>, k: Class) -> int
    decreases s.len(),
{
    if s.len() > 0 && k.has(s.last()) {
        1 + trailing(s.drop_last(), k)
    } else {
        0
    }
}

/// The position of the first character of `s` in `k`, or the length of `s`.
pub open spec fn first(s: Seq<char>, k: Class) -> int
    decreases s.len(),
{
    if s.len() == 0 || k.has(s[0]) {
        0
    } else {
        1 + first(s.drop_first(), k)
    }
}

/// The position of the last character of `s` in `k`, or -1.
pub open spec fn last(s: Seq<char>, k: Class) -> int
    decreases s.len(),
{
    if s.len() == 0 || k.has(s.last()) {
        s.len() - 1
    } else {
        last(s.drop_last(), k)
    }
}

/// Whether some character of `s` belongs to `k`.
pub open spec fn has_any(s: Seq<char>, k: Class) -> bool {
    exists|i: int| 0 <= i < s.len() && k.has(#[trigger] s[i])
}

/// Whether every character of `s` belongs to `k`.
pub open spec fn all_in(s: Seq<char>, k: Class) -> bool {
    forall|i: int| 0 <= i < s.len() ==> k.has(#[trigger] s[i])
}

/// `s` without its leading characters in `k`.
pub open spec fn trim_start_of(s: Seq<char>, k: Class) -> Seq<char> {
    s.skip(leading(s, k))
}

/// `s` without its trailing characters in `k`.
pub open spec fn trim_end_of(s: Seq<char>, k: Class) -> Seq<char> {
    s.take(s.len() - trailing(s, k))
}

/// `s` without the characters in `k` at either end.
pub open spec fn trim_of(s: Seq<char>, k: Class) -> Seq<char> {
    trim_end_of(trim_start_of(s, k), k)
}

/// `s` without white space at either end.
pub open spec fn trimmed(s: Seq<char>) -> Seq<char> {
    trim_of(s, Class::Space)
}

/// Whether `s` begins with `p`.
pub open spec fn begins(s: Seq<char>, p: Seq<char>) -> bool {
    p.len() <= s.len() && s.take(p.len() as int) == p
}

/// Whether `s` ends with `p`.
pub open spec fn ends(s: Seq<char>, p: Seq<char>) -> bool {
    p.len() <= s.len() && s.skip(s.len() - p.len()) == p
}

/// The first position at which `p` stands in `s`, or -1.
pub open spec fn find(s: Seq<char>, p: Seq<char>) -> int
    decreases s.len(),
{
    if begins(s, p) {
        0
    } else if s.len() == 0 {
        -1
    } else {
        let rest = find(s.drop_first(), p);
        if rest < 0 {
            -1
        } else {
            rest + 1
        }
    }
}

/// `leading` counts a prefix of the text, all of it in `k`, that cannot be longer.
pub proof fn lemma_leading(s: Seq<char>, k: Class)
    ensures
        0 <= leading(s, k) <= s.len(),
        all_in(s.take(leading(s, k)), k),
        leading(s, k) < s.len() ==> !k.has(s[leading(s, k)]),
    decreases s.len(),
{
    if s.len() > 0 && k.has(s[0]) {
        lemma_leading(s.drop_first(), k);
        let n = leading(s, k);
        assert forall|i: int| 0 <= i < n implies k.has(#[trigger] s.take(n)[i]) by {
            if i > 0 {
                assert(s.drop_first().take(n - 1)[i - 1] == s[i]);
            }
        }
    }
}

/// `trailing` counts a suffix of the text.
pub proof fn lemma_trailing(s: Seq<char>, k: Class)
    ensures
        0 <= trailing(s, k) <= s.len(),
        trailing(s, k) < s.len() ==> !k.has(s[s.len() - 1 - trailing(s, k)]),
    decreases s.len(),
{
    if s.len() > 0 && k.has(s.last()) {
        lemma_trailing(s.drop_last(), k);
    }
}

/// `first` is a position with a character in `k` and none before it, or the end.
pub proof fn lemma_first(s: Seq<char>, k: Class)
    ensures
        0 <= first(s, k) <= s.len(),
        first(s, k) < s.len() ==> k.has(s[first(s, k)]),
        forall|i: int| 0 <= i < first(s, k) ==> !k.has(#[trigger] s[i]),
        first(s, k) < s.len() <==> has_any(s, k),
    decreases s.len(),
{
    if s.len() > 0 && !k.has(s[0]) {
        let t = s.drop_first();
        lemma_first(t, k);
        assert forall|i: int| 0 <= i < first(s, k) implies !k.has(#[trigger] s[i]) by {
            if i > 0 {
                assert(t[i - 1] == s[i]);
            }
        }
        if has_any(s, k) {
            let i = choose|i: int| 0 <= i < s.len() && k.has(#[trigger] s[i]);
            assert(t[i - 1] == s[i]);
        }
    }
}

/// `last` is a position with a character in `k` and none after it, or -1.
pub proof fn lemma_last(s: Seq<char>, k: Class)
    ensures
        -1 <= last(s, k) < s.len(),
        last(s, k) >= 0 ==> k.has(s[last(s, k)]),
        forall|i: int| last(s, k) < i < s.len() ==> !k.has(#[trigger] s[i]),
    decreases s.len(),
{
    if s.len() > 0 && !k.has(s.last()) {
        lemma_last(s.drop_last(), k);
        let t = s.drop_last();
        assert forall|i: int| last(s, k) < i < s.len() implies !k.has(#[trigger] s[i]) by {
            if i < s.len() - 1 {
                assert(t[i] == s[i]);
            }
        }
    }
}

/// `find` is a position at which the pattern stands, with room for it.
pub proof fn lemma_find(s: Seq<char>, p: Seq<char>)
    ensures
        -1 <= find(s, p),
        find(s, p) >= 0 ==> find(s, p) + p.len() <= s.len() && begins(s.skip(find(s, p)), p),
    decreases s.len(),
{
    if begins(s, p) {
        assert(s.skip(0) =~= s);
    } else if s.len() > 0 {
        lemma_find(s.drop_first(), p);
        if find(s, p) >= 0 {
            assert(s.drop_first().skip(find(s, p) - 1) =~= s.skip(find(s, p)));
        }
    }
}

/// Count the characters at the start of `s` that belong to `k`.
pub fn count_leading(s: &[char], k: Class) -> (r: usize)
    ensures
        r == leading(s@, k),
        r <= s@.len(),
{
    let mut i: usize = 0;
    assert(s@.skip(0) =~= s@);
    while i < s.len() && k.holds(s[i])
        invariant
            i <= s.len(),
            leading(s@, k) == i + leading(s@.skip(i as int), k),
        decreases s.len() - i,
    {
        assert(s@.skip(i as int).drop_first() =~= s@.skip(i + 1));
        i = i + 1;
    }
    i
}

/// Count the characters at the end of `s` that belong to `k`.
pub fn count_trailing(s: &[char], k: Class) -> (r: usize)
    ensures
        r == trailing(s@, k),
        r <= s@.len(),
{
    let mut i: usize = s.len();
    assert(s@.take(i as int) =~= s@);
    while i > 0 && k.holds(s[i - 1])
        invariant
            i <= s.len(),
            trailing(s@, k) == s.len() - i + trailing(s@.take(i as int), k),
        decreases i,
    {
        assert(s@.take(i as int).drop_last() =~= s@.take(i - 1));
        i = i - 1;
    }
    s.len() - i
}

/// The position of the first character of `s` in `k`, or the length of `s`.
pub fn position(s: &[char], k: Class) -> (r: usize)
    ensures
        r == first(s@, k),
        r <= s@.len(),
{
    let mut i: usize = 0;
    assert(s@.skip(0) =~= s@);
    while i < s.len() && !k.holds(s[i])
        invariant
            i <= s.len(),
            first(s@, k) == i + first(s@.skip(i as int), k),
        decreases s.len() - i,
    {
        assert(s@.skip(i as int).drop_first() =~= s@.skip(i + 1));
        i = i + 1;
    }
    i
}

/// The position of the last character of `s` in `k`.
pub fn last_position(s: &[char], k: Class) -> (r: Option<usize>)
    ensures
        r matches Some(i) ==> i == last(s@, k) && i < s@.len(),
        r is None ==> last(s@, k) == -1,
{
    let mut i: usize = s.len();
    assert(s@.take(i as int) =~= s@);
    while i > 0
        invariant
            i <= s.len(),
            last(s@, k) == last(s@.take(i as int), k),
        decreases i,
    {
        if k.holds(s[i - 1]) {
            return Some(i - 1);
        }
        assert(s@.take(i as int).drop_last() =~= s@.take(i - 1));
        i = i - 1;
    }
    None
}

/// Whether some character of `s` belongs to `k`.
pub fn any(s: &[char], k: Class) -> (r: bool)
    ensures
        r == has_any(s@, k),
{
    proof {
        lemma_first(s@, k);
    }
    position(s, k) < s.len()
}

/// Whether every character of `s` belongs to `k`.
pub fn all(s: &[char], k: Class) -> (r: bool)
    ensures
        r == all_in(s@, k),
{
    proof {
        lemma_leading(s@, k);
        assert(s@.take(s@.len() as int) =~= s@);
    }
    count_leading(s, k) == s.len()
}

/// The first `n` characters.
pub fn take(s: &[char], n: usize) -> (r: &[char])
    requires
        n <= s@.len(),
    ensures
        r@ == s@.take(n as int),
{
    slice_subrange(s, 0, n)
}

/// All but the first `n` characters.
pub fn skip(s: &[char], n: usize) -> (r: &[char])
    requires
        n <= s@.len(),
    ensures
        r@ == s@.skip(n as int),
{
    slice_subrange(s, n, s.len())
}

/// The characters from `from` to `to`.
pub fn part(s: &[char], from: usize, to: usize) -> (r: &[char])
    requires
        from <= to <= s@.len(),
    ensures
        r@ == s@.subrange(from as int, to as int),
{
    slice_subrange(s, from, to)
}

/// Drop the leading characters in `k`.
pub fn trim_start<'a>(s: &'a [char], k: Class) -> (r: &'a [char])
    ensures
        r@ == trim_start_of(s@, k),
{
    skip(s, count_leading(s, k))
}

/// Drop the trailing characters in `k`.
pub fn trim_end<'a>(s: &'a [char], k: Class) -> (r: &'a [char])
    ensures
        r@ == trim_end_of(s@, k),
{
    take(s, s.len() - count_trailing(s, k))
}

/// Drop the characters in `k` at either end.
pub fn trim_class<'a>(s: &'a [char], k: Class) -> (r: &'a [char])
    ensures
        r@ == trim_of(s@, k),
{
    trim_end(trim_start(s, k), k)
}

/// Drop white space at either end.
pub fn trim(s: &[char]) -> (r: &[char])
    ensures
        r@ == trimmed(s@),
{
    trim_class(s, Class::Space)
}

/// Whether `s` begins with `p`.
pub fn starts(s: &[char], p: &[char]) -> (r: bool)
    ensures
        r == begins(s@, p@),
{
    if s.len() < p.len() {
        return false;
    }
    same(take(s, p.len()), p)
}

/// Whether `s` begins with the string `p`.
pub fn starts_with(s: &[char], p: &str) -> (r: bool)
    ensures
        r == begins(s@, p@),
{
    let p = chars_of(p);
    starts(s, p.as_slice())
}

/// Whether `s` ends with the string `p`.
pub fn ends_with(s: &[char], p: &str) -> (r: bool)
    ensures
        r == ends(s@, p@),
{
    let p = chars_of(p);
    if s.len() < p.len() {
        return false;
    }
    same(skip(s, s.len() - p.len()), p.as_slice())
}

/// What follows the prefix `p` in `s`.
pub open spec fn after_prefix(s: Seq<char>, p: Seq<char>) -> Option<Seq<char>> {
    if begins(s, p) {
        Some(s.skip(p.len() as int))
    } else {
        None
    }
}

/// What comes before the suffix `p` in `s`.
pub open spec fn before_suffix(s: Seq<char>, p: Seq<char>) -> Option<Seq<char>> {
    if ends(s, p) {
        Some(s.take(s.len() - p.len()))
    } else {
        None
    }
}

/// The text an optional slice holds.
pub open spec fn opt_text(o: Option<&[char]>) -> Option<Seq<char>> {
    match o {
        Some(t) => Some(t@),
        None => None,
    }
}

/// The text an optional string holds.
pub open spec fn opt_string(o: Option<String>) -> Option<Seq<char>> {
    match o {
        Some(t) => Some(t@),
        None => None,
    }
}

/// What follows the prefix `p` in `s`.
pub fn strip_prefix<'a>(s: &'a [char], p: &str) -> (r: Option<&'a [char]>)
    ensures
        opt_text(r) == after_prefix(s@, p@),
{
    let p = chars_of(p);
    if starts(s, p.as_slice()) {
        Some(skip(s, p.len()))
    } else {
        None
    }
}

/// What comes before the suffix `p` in `s`.
pub fn strip_suffix<'a>(s: &'a [char], p: &str) -> (r: Option<&'a [char]>)
    ensures
        opt_text(r) == before_suffix(s@, p@),
{
    if ends_with(s, p) {
        let p = chars_of(p);
        Some(take(s, s.len() - p.len()))
    } else {
        None
    }
}

/// The first position at which the string `p` stands in `s`.
pub fn find_str(s: &[char], p: &str) -> (r: Option<usize>)
    ensures
        r matches Some(i) ==> i == find(s@, p@) && i + p@.len() <= s@.len(),
        r is None ==> find(s@, p@) == -1,
{
    let pat = chars_of(p);
    let mut i: usize = 0;
    assert(s@.skip(0) =~= s@);
    proof {
        lemma_find(s@, p@);
    }
    while i < s.len()
        invariant
            pat@ == p@,
            i <= s.len(),
            find(s@, p@) >= 0 <==> find(s@.skip(i as int), p@) >= 0,
            find(s@, p@) >= 0 ==> find(s@, p@) == i + find(s@.skip(i as int), p@),
            find(s@, p@) >= -1,
            find(s@, p@) >= 0 ==> find(s@, p@) + p@.len() <= s@.len(),
        decreases s.len() - i,
    {
        if starts(skip(s, i), pat.as_slice()) {
            return Some(i);
        }
        assert(s@.skip(i as int).drop_first() =~= s@.skip(i + 1));
        i = i + 1;
    }
    if starts(skip(s, i), pat.as_slice()) {
        Some(i)
    } else {
        None
    }
}

/// The halves of `s` around the first character in `k`.
pub open spec fn cut(s: Seq<char>, k: Class) -> Option<(Seq<char>, Seq<char>)> {
    let n = first(s, k);
    if n < s.len() {
        Some((s.take(n), s.skip(n + 1)))
    } else {
        None
    }
}

/// The halves of `s` around the last character in `k`.
pub open spec fn cut_last(s: Seq<char>, k: Class) -> Option<(Seq<char>, Seq<char>)> {
    let n = last(s, k);
    if n >= 0 {
        Some((s.take(n), s.skip(n + 1)))
    } else {
        None
    }
}

/// The texts an optional pair of slices holds.
pub open spec fn opt_pair(o: Option<(&[char], &[char])>) -> Option<(Seq<char>, Seq<char>)> {
    match o {
        Some(t) => Some((t.0@, t.1@)),
        None => None,
    }
}

/// Split `s` around the first character in `k`.
pub fn split_once<'a>(s: &'a [char], k: Class) -> (r: Option<(&'a [char], &'a [char])>)
    ensures
        opt_pair(r) == cut(s@, k),
{
    let n: usize = position(s, k);
    if n < s.len() {
        Some((take(s, n), skip(s, n + 1)))
    } else {
        None
    }
}

/// Split `s` around the last character in `k`.
pub fn rsplit_once<'a>(s: &'a [char], k: Class) -> (r: Option<(&'a [char], &'a [char])>)
    ensures
        opt_pair(r) == cut_last(s@, k),
{
    assert(s@.len() == s.len());
    match last_position(s, k) {
        Some(n) => Some((take(s, n), skip(s, n + 1))),
        None => None,
    }
}

/// A character with an ASCII capital replaced by its small letter.
pub open spec fn small(c: char) -> char {
    if 'A' <= c <= 'Z' {
        (c as u32 + 32) as char
    } else {
        c
    }
}

/// A text with every ASCII capital replaced by its small letter.
pub open spec fn lowered(s: Seq<char>) -> Seq<char> {
    s.map_values(|c: char| small(c))
}

/// Replace an ASCII capital by its small letter.
pub fn lower_char(c: char) -> (r: char)
    ensures
        r == small(c),
{
    if 'A' <= c && c <= 'Z' {
        (c as u8 + 32) as char
    } else {
        c
    }
}

/// Replace every ASCII capital by its small letter.
pub fn lower(s: &[char]) -> (r: Vec<char>)
    ensures
        r@ == lowered(s@),
{
    let mut out: Vec<char> = Vec::new();
    let mut i: usize = 0;
    while i < s.len()
        invariant
            i <= s.len(),
            out@.len() == i,
            forall|j: int| 0 <= j < i ==> #[trigger] out@[j] == small(s@[j]),
        decreases s.len() - i,
    {
        out.push(lower_char(s[i]));
        i = i + 1;
    }
    assert(out@ =~= lowered(s@));
    out
}

/// The last position at which `p` stands in `s`, or -1.
pub open spec fn find_back(s: Seq<char>, p: Seq<char>) -> int
    decreases s.len(),
{
    if ends(s, p) {
        s.len() - p.len()
    } else if s.len() == 0 {
        -1
    } else {
        find_back(s.drop_last(), p)
    }
}

/// `find_back` is a position at which the pattern stands, with room for it.
pub proof fn lemma_find_back(s: Seq<char>, p: Seq<char>)
    ensures
        -1 <= find_back(s, p),
        find_back(s, p) >= 0 ==> find_back(s, p) + p.len() <= s.len(),
    decreases s.len(),
{
    if !ends(s, p) && s.len() > 0 {
        lemma_find_back(s.drop_last(), p);
    }
}

/// The last position at which the string `p` stands in `s`.
pub fn rfind_str(s: &[char], p: &str) -> (r: Option<usize>)
    ensures
        r matches Some(i) ==> i == find_back(s@, p@) && i + p@.len() <= s@.len(),
        r is None ==> find_back(s@, p@) == -1,
{
    let pat = chars_of(p);
    let mut i: usize = s.len();
    assert(s@.take(i as int) =~= s@);
    while i > 0
        invariant
            pat@ == p@,
            i <= s.len(),
            find_back(s@, p@) == find_back(s@.take(i as int), p@),
        decreases i,
    {
        if ends_with(take(s, i), p) {
            return Some(i - pat.len());
        }
        assert(s@.take(i as int).drop_last() =~= s@.take(i - 1));
        i = i - 1;
    }
    if pat.len() == 0 {
        assert(s@.take(0) =~= seq![]);
        assert(s@.take(0).skip(0) =~= p@);
        Some(0)
    } else {
        None
    }
}

/// Whether one text comes before another, character by character.
pub open spec fn before(a: Seq<char>, b: Seq<char>) -> bool
    decreases a.len(),
{
    if b.len() == 0 {
        false
    } else if a.len() == 0 {
        true
    } else {
        a[0] < b[0] || (a[0] == b[0] && before(a.drop_first(), b.drop_first()))
    }
}

/// No text comes before itself.
pub proof fn lemma_before_irreflexive(a: Seq<char>)
    ensures
        !before(a, a),
    decreases a.len(),
{
    if a.len() > 0 {
        lemma_before_irreflexive(a.drop_first());
    }
}

/// The order of texts is transitive.
pub proof fn lemma_before_transitive(a: Seq<char>, b: Seq<char>, c: Seq<char>)
    requires
        before(a, b),
        before(b, c),
    ensures
        before(a, c),
    decreases a.len(),
{
    if a.len() > 0 && b.len() > 0 && c.len() > 0 && a[0] == b[0] && b[0] == c[0] {
        lemma_before_transitive(a.drop_first(), b.drop_first(), c.drop_first());
    }
}

/// Of two different texts one comes before the other.
pub proof fn lemma_before_total(a: Seq<char>, b: Seq<char>)
    ensures
        before(a, b) || before(b, a) || a == b,
    decreases a.len(),
{
    if a.len() > 0 && b.len() > 0 && a[0] == b[0] {
        lemma_before_total(a.drop_first(), b.drop_first());
        if a.drop_first() == b.drop_first() {
            assert(a =~= seq![a[0]] + a.drop_first());
            assert(b =~= seq![b[0]] + b.drop_first());
        }
    } else if a.len() == 0 && b.len() == 0 {
        assert(a =~= b);
    }
}

/// Whether one text comes before another.
pub fn comes_before(a: &[char], b: &[char]) -> (r: bool)
    ensures
        r == before(a@, b@),
{
    let mut i: usize = 0;
    assert(a@.skip(0) =~= a@);
    assert(b@.skip(0) =~= b@);
    while i < a.len() && i < b.len()
        invariant
            i <= a.len(),
            i <= b.len(),
            before(a@, b@) == before(a@.skip(i as int), b@.skip(i as int)),
        decreases a.len() - i,
    {
        if a[i] < b[i] {
            return true;
        }
        if b[i] < a[i] {
            return false;
        }
        assert(a@.skip(i as int).drop_first() =~= a@.skip(i + 1));
        assert(b@.skip(i as int).drop_first() =~= b@.skip(i + 1));
        i = i + 1;
    }
    i < b.len()
}

} // verus!
