//! A small JSON / JSONC scanner that yields every string *value* with its path and
//! the byte span of its content (excluding the surrounding quotes).
//!
//! One pass gives both the structure and the exact value positions: object keys build
//! the path, array elements use their index, and `//` and `/* */` comments are skipped.
use crate::number::{decimal, to_decimal};
use crate::split::{copy_strings, strings};
use crate::text::{
    all, all_in, ascii_space, chars_of, count_leading, is_ascii_space, is_str, leading, part, skip, string_of, Class,
};
use crate::width::{byte_len, lemma_byte_len_bounds, offsets, str_bytes};
use vstd::prelude::*;

verus! {

/// A string value found in a JSON(C) document.
#[derive(Debug, Clone, PartialEq, Eq)]
pub struct JsonStringValue {
    /// The path of object keys (and array indices) leading to this value.
    pub path: Vec<String>,
    /// The (unescaped) string content.
    pub value: String,
    /// Byte offset of the first content byte (just after the opening quote).
    pub content_start: usize,
    /// Byte offset just past the last content byte (the closing quote).
    pub content_end: usize,
    /// Whether the content is written with escapes, so that it and the value are not
    /// the same bytes.
    pub escaped: bool,
}

/// What a [`JsonStringValue`] says.
pub ghost struct StringView {
    /// The keys and indices leading to the value.
    pub path: Seq<Seq<char>>,
    /// The value.
    pub value: Seq<char>,
    /// Where its content begins.
    pub content_start: usize,
    /// Where its content ends.
    pub content_end: usize,
    /// Whether it is written with escapes.
    pub escaped: bool,
}

impl View for JsonStringValue {
    type V = StringView;

    open spec fn view(&self) -> StringView {
        StringView {
            path: strings(self.path@),
            value: self.value@,
            content_start: self.content_start,
            content_end: self.content_end,
            escaped: self.escaped,
        }
    }
}

/// A whole-document scan: the string values found, and whether the document was
/// structurally sound.
#[derive(Debug, Clone, PartialEq, Eq)]
pub struct ScannedJson {
    /// Every string value found, in document order.
    pub values: Vec<JsonStringValue>,
    /// Whether the document parsed to its end with nothing unexpected. `false`
    /// means [`values`](Self::values) is a *prefix* of the document's strings,
    /// which is a different thing from the document's strings.
    pub well_formed: bool,
}

/// The values a list of [`JsonStringValue`] holds.
pub open spec fn values_of(v: Seq<JsonStringValue>) -> Seq<StringView> {
    v.map_values(|e: JsonStringValue| e@)
}

/// What a scan from one position on comes to: where it stops, what it found, and
/// whether all of it was sound.
pub ghost struct Scan {
    /// The position after what was scanned.
    pub next: int,
    /// The string values, in document order.
    pub found: Seq<StringView>,
    /// Whether nothing was out of place.
    pub sound: bool,
}

impl Scan {
    /// A scan that found nothing.
    pub open spec fn bare(next: int, sound: bool) -> Scan {
        Scan { next, found: seq![], sound }
    }

    /// This scan and then another.
    pub open spec fn then_scan(self, after: Scan) -> Scan {
        Scan {
            next: after.next,
            found: self.found + after.found,
            sound: self.sound && after.sound,
        }
    }
}

/// How much of a text lies at or after a position.
pub open spec fn ahead(s: Seq<char>, i: int) -> int {
    if i < s.len() {
        s.len() - i
    } else {
        0
    }
}

/// The end of a line comment.
pub open spec fn line_comment_end(s: Seq<char>, i: int) -> int
    decreases ahead(s, i),
{
    if i < s.len() && s[i] != '\n' {
        line_comment_end(s, i + 1)
    } else {
        i
    }
}

/// The end of a block comment, past its `*/` or at the end of the text.
pub open spec fn block_comment_end(s: Seq<char>, i: int) -> int
    decreases ahead(s, i),
{
    if i >= s.len() {
        s.len() as int
    } else if i + 1 < s.len() && s[i] == '*' && s[i + 1] == '/' {
        i + 2
    } else {
        block_comment_end(s, i + 1)
    }
}

/// Comments never end before they begin, nor after the text.
proof fn lemma_comment_end(s: Seq<char>, i: int)
    requires
        0 <= i <= s.len(),
    ensures
        i <= line_comment_end(s, i) <= s.len(),
        i <= block_comment_end(s, i) <= s.len(),
    decreases ahead(s, i),
{
    if i < s.len() {
        lemma_comment_end(s, i + 1);
    }
}

/// The first position from `i` on that is neither white space nor in a comment.
pub open spec fn trivia_end(s: Seq<char>, i: int) -> int
    decreases ahead(s, i),
    via trivia_decreases
{
    if i < 0 || i >= s.len() {
        i
    } else if is_ascii_space(s[i]) {
        trivia_end(s, i + 1)
    } else if i + 1 < s.len() && s[i] == '/' && s[i + 1] == '/' {
        trivia_end(s, line_comment_end(s, i + 2))
    } else if i + 1 < s.len() && s[i] == '/' && s[i + 1] == '*' {
        trivia_end(s, block_comment_end(s, i + 2))
    } else {
        i
    }
}

#[via_fn]
proof fn trivia_decreases(s: Seq<char>, i: int) {
    if 0 <= i && i + 1 < s.len() {
        lemma_comment_end(s, i + 2);
    }
}

pub proof fn lemma_trivia_end(s: Seq<char>, i: int)
    requires
        0 <= i <= s.len(),
    ensures
        i <= trivia_end(s, i) <= s.len(),
    decreases ahead(s, i),
{
    if i < s.len() {
        if is_ascii_space(s[i]) {
            lemma_trivia_end(s, i + 1);
        } else if i + 1 < s.len() && s[i] == '/' && s[i + 1] == '/' {
            lemma_comment_end(s, i + 2);
            lemma_trivia_end(s, line_comment_end(s, i + 2));
        } else if i + 1 < s.len() && s[i] == '/' && s[i + 1] == '*' {
            lemma_comment_end(s, i + 2);
            lemma_trivia_end(s, block_comment_end(s, i + 2));
        }
    }
}

/// The position of the quote that closes a string whose content goes on at `i`: a
/// backslash hides the character after it. The length of the text where none closes it.
pub open spec fn string_end(s: Seq<char>, i: int) -> int
    decreases ahead(s, i),
{
    if i >= s.len() {
        s.len() as int
    } else if s[i] == '"' {
        i
    } else if s[i] == '\\' {
        string_end(s, i + 2)
    } else {
        string_end(s, i + 1)
    }
}

pub proof fn lemma_string_end(s: Seq<char>, i: int)
    requires
        0 <= i <= s.len(),
    ensures
        i <= string_end(s, i) <= s.len(),
        string_end(s, i) < s.len() ==> s[string_end(s, i)] == '"',
    decreases ahead(s, i),
{
    if i < s.len() && s[i] != '"' {
        if s[i] == '\\' {
            if i + 2 <= s.len() {
                lemma_string_end(s, i + 2);
            } else {
                assert(string_end(s, i + 2) == s.len());
            }
        } else {
            lemma_string_end(s, i + 1);
        }
    }
}

/// The text a string's content stands for: `\n`, `\t` and `\r` are line feed, tab and
/// carriage return, and a backslash before anything else is dropped.
pub open spec fn unescaped(raw: Seq<char>) -> Seq<char>
    decreases raw.len(),
{
    if raw.len() == 0 {
        seq![]
    } else if raw[0] == '\\' {
        if raw.len() == 1 {
            seq![]
        } else {
            seq![escape_of(raw[1])] + unescaped(raw.skip(2))
        }
    } else {
        seq![raw[0]] + unescaped(raw.drop_first())
    }
}

/// The character that a backslash and `c` stand for.
pub open spec fn escape_of(c: char) -> char {
    if c == 'n' {
        '\n'
    } else if c == 't' {
        '\t'
    } else if c == 'r' {
        '\r'
    } else {
        c
    }
}

/// Content without a backslash stands for itself.
pub proof fn law_unescaped_plain(raw: Seq<char>)
    requires
        !raw.contains('\\'),
    ensures
        unescaped(raw) == raw,
    decreases raw.len(),
{
    if raw.len() > 0 {
        assert(raw[0] != '\\');
        let rest = raw.drop_first();
        assert forall|i: int| 0 <= i < rest.len() implies rest[i] != '\\' by {
            assert(rest[i] == raw[i + 1]);
        }
        law_unescaped_plain(rest);
        assert(seq![raw[0]] + rest =~= raw);
    }
}

/// The end of a bare token: a delimiter or white space.
pub open spec fn scalar_end(s: Seq<char>, i: int) -> int
    decreases ahead(s, i),
{
    if i < s.len() && !(s[i] == ',' || s[i] == '}' || s[i] == ']' || is_ascii_space(s[i])) {
        scalar_end(s, i + 1)
    } else {
        i
    }
}

proof fn lemma_scalar_end(s: Seq<char>, i: int)
    requires
        0 <= i <= s.len(),
    ensures
        i <= scalar_end(s, i) <= s.len(),
    decreases ahead(s, i),
{
    if i < s.len() {
        lemma_scalar_end(s, i + 1);
    }
}

/// A text without a leading sign.
pub open spec fn unsigned(t: Seq<char>) -> Seq<char> {
    if t.len() > 0 && (t[0] == '+' || t[0] == '-') {
        t.drop_first()
    } else {
        t
    }
}

/// Whether a text is empty or an exponent: `e` or `E`, an optional sign, digits.
pub open spec fn is_exponent(t: Seq<char>) -> bool {
    t.len() > 0 ==> {
        let digits = unsigned(t.drop_first());
        (t[0] == 'e' || t[0] == 'E') && digits.len() > 0 && all_in(digits, Class::Digit)
    }
}

/// Whether a text is a JSON number: an optional `-`, then `0` or digits not led by `0`,
/// then optionally a point and digits, then optionally an exponent.
pub open spec fn is_number(t: Seq<char>) -> bool {
    let u = if t.len() > 0 && t[0] == '-' {
        t.drop_first()
    } else {
        t
    };
    let whole = leading(u, Class::Digit);
    let rest = u.skip(whole);
    &&& whole > 0
    &&& u[0] == '0' ==> whole == 1
    &&& if rest.len() > 0 && rest[0] == '.' {
        let tail = rest.drop_first();
        let fraction = leading(tail, Class::Digit);
        fraction > 0 && is_exponent(tail.skip(fraction))
    } else {
        is_exponent(rest)
    }
}

/// Whether a bare token is one of JSON's literals or a number.
pub open spec fn is_literal(t: Seq<char>) -> bool {
    t == "true"@ || t == "false"@ || t == "null"@ || is_number(t)
}

/// The larger of two positions: a scan never moves back.
pub open spec fn later(a: int, b: int) -> int {
    if a < b {
        b
    } else {
        a
    }
}

/// The string value whose content begins at `i`, under `path`.
pub open spec fn string_at(s: Seq<char>, i: int, path: Seq<Seq<char>>) -> StringView {
    let raw = s.subrange(i, string_end(s, i));
    StringView {
        path,
        value: unescaped(raw),
        content_start: byte_len(s.take(i)) as usize,
        content_end: byte_len(s.take(string_end(s, i))) as usize,
        escaped: raw.contains('\\'),
    }
}

/// The scan of a value (object, array, string, or scalar) at `i`, under `path`.
pub open spec fn value_scan(s: Seq<char>, i: int, path: Seq<Seq<char>>) -> Scan
    decreases ahead(s, i), 0int,
{
    if i >= s.len() {
        Scan::bare(i, false)
    } else if s[i] == '{' {
        members_scan(s, i + 1, path)
    } else if s[i] == '[' {
        elements_scan(s, i + 1, path, 0)
    } else if s[i] == '"' {
        let end = string_end(s, i + 1);
        if end < s.len() {
            Scan { next: end + 1, found: seq![string_at(s, i + 1, path)], sound: true }
        } else {
            Scan::bare(end, false)
        }
    } else {
        let end = scalar_end(s, i);
        if end == i {
            Scan::bare(i + 1, false)
        } else {
            Scan::bare(end, is_literal(s.subrange(i, end)))
        }
    }
}

/// The scan of an object's members from `i` on, through its closing brace.
pub open spec fn members_scan(s: Seq<char>, i: int, path: Seq<Seq<char>>) -> Scan
    decreases ahead(s, i), 1int,
{
    let t = later(trivia_end(s, i), i);
    if t >= s.len() {
        Scan::bare(t, false)
    } else if s[t] == '}' {
        Scan::bare(t + 1, true)
    } else if s[t] == ',' {
        members_scan(s, t + 1, path)
    } else if s[t] != '"' {
        Scan::bare(t + 1, false).then_scan(members_scan(s, t + 1, path))
    } else {
        let end = later(string_end(s, t + 1), t + 1);
        if end >= s.len() {
            Scan::bare(end, false)
        } else {
            let c = later(trivia_end(s, end + 1), end + 1);
            if c >= s.len() || s[c] != ':' {
                Scan::bare(c, false).then_scan(members_scan(s, c, path))
            } else {
                let v = later(trivia_end(s, c + 1), c + 1);
                let key = unescaped(s.subrange(t + 1, end));
                let value = value_scan(s, v, path.push(key));
                value.then_scan(members_scan(s, later(value.next, v), path))
            }
        }
    }
}

/// The scan of an array's elements from `i` on, the next of index `n`, through its
/// closing bracket.
pub open spec fn elements_scan(s: Seq<char>, i: int, path: Seq<Seq<char>>, n: nat) -> Scan
    decreases ahead(s, i), 1int,
{
    let t = later(trivia_end(s, i), i);
    if t >= s.len() {
        Scan::bare(t, false)
    } else if s[t] == ']' {
        Scan::bare(t + 1, true)
    } else if s[t] == ',' {
        elements_scan(s, t + 1, path, n)
    } else {
        let value = value_scan(s, t, path.push(decimal(n)));
        value.then_scan(elements_scan(s, later(value.next, t + 1), path, n + 1))
    }
}

/// The scan of a whole document: one value, and nothing after it.
pub open spec fn document_scan(s: Seq<char>) -> Scan {
    let value = value_scan(s, trivia_end(s, 0), seq![]);
    Scan {
        next: s.len() as int,
        found: value.found,
        sound: value.sound && trivia_end(s, value.next) >= s.len(),
    }
}

/// A scan of a value moves on, by at least one character where there is one, and stays
/// within the text.
pub proof fn lemma_value_scan(s: Seq<char>, i: int, path: Seq<Seq<char>>)
    requires
        0 <= i <= s.len(),
    ensures
        i <= value_scan(s, i, path).next <= s.len(),
        i < s.len() ==> i < value_scan(s, i, path).next,
    decreases ahead(s, i), 0int,
{
    if i < s.len() {
        if s[i] == '{' {
            lemma_members_scan(s, i + 1, path);
        } else if s[i] == '[' {
            lemma_elements_scan(s, i + 1, path, 0);
        } else if s[i] == '"' {
            lemma_string_end(s, i + 1);
        } else {
            lemma_scalar_end(s, i);
        }
    }
}

pub proof fn lemma_members_scan(s: Seq<char>, i: int, path: Seq<Seq<char>>)
    requires
        0 <= i <= s.len(),
    ensures
        i <= members_scan(s, i, path).next <= s.len(),
    decreases ahead(s, i), 1int,
{
    lemma_trivia_end(s, i);
    let t = trivia_end(s, i);
    if t < s.len() {
        if s[t] == '}' {
        } else if s[t] != '"' {
            lemma_members_scan(s, t + 1, path);
        } else {
            lemma_string_end(s, t + 1);
            let end = string_end(s, t + 1);
            if end < s.len() {
                lemma_trivia_end(s, end + 1);
                let c = trivia_end(s, end + 1);
                if c >= s.len() || s[c] != ':' {
                    lemma_members_scan(s, c, path);
                } else {
                    lemma_trivia_end(s, c + 1);
                    let v = trivia_end(s, c + 1);
                    let key = unescaped(s.subrange(t + 1, end));
                    lemma_value_scan(s, v, path.push(key));
                    lemma_members_scan(s, value_scan(s, v, path.push(key)).next, path);
                }
            }
        }
    }
}

pub proof fn lemma_elements_scan(s: Seq<char>, i: int, path: Seq<Seq<char>>, n: nat)
    requires
        0 <= i <= s.len(),
    ensures
        i <= elements_scan(s, i, path, n).next <= s.len(),
    decreases ahead(s, i), 1int,
{
    lemma_trivia_end(s, i);
    let t = trivia_end(s, i);
    if t < s.len() {
        if s[t] == ']' {
        } else if s[t] == ',' {
            lemma_elements_scan(s, t + 1, path, n);
        } else {
            lemma_value_scan(s, t, path.push(decimal(n)));
            lemma_elements_scan(s, value_scan(s, t, path.push(decimal(n))).next, path, n + 1);
        }
    }
}

/// The end of the trivia at `from`.
fn skip_trivia(s: &[char], from: usize) -> (r: usize)
    requires
        from <= s@.len(),
    ensures
        r == trivia_end(s@, from as int),
        from <= r <= s@.len(),
{
    let mut i: usize = from;
    while i < s.len()
        invariant
            from <= i <= s.len(),
            trivia_end(s@, from as int) == trivia_end(s@, i as int),
        decreases s.len() - i,
    {
        let c = s[i];
        if ascii_space(c) {
            i = i + 1;
        } else if c == '/' && s.len() - i > 1 && s[i + 1] == '/' {
            let start: usize = i + 2;
            let mut j: usize = start;
            while j < s.len() && s[j] != '\n'
                invariant
                    start <= j <= s.len(),
                    line_comment_end(s@, start as int) == line_comment_end(s@, j as int),
                decreases s.len() - j,
            {
                j = j + 1;
            }
            i = j;
        } else if c == '/' && s.len() - i > 1 && s[i + 1] == '*' {
            let start: usize = i + 2;
            let mut j: usize = start;
            while j < s.len() && !(s.len() - j > 1 && s[j] == '*' && s[j + 1] == '/')
                invariant
                    start <= j <= s.len(),
                    block_comment_end(s@, start as int) == block_comment_end(s@, j as int),
                decreases s.len() - j,
            {
                j = j + 1;
            }
            if s.len() - j > 1 {
                i = j + 2;
            } else {
                i = s.len();
            }
        } else {
            return i;
        }
    }
    i
}

/// The position of the quote that closes a string whose content begins at `from`.
pub fn find_string_end(s: &[char], from: usize) -> (r: usize)
    requires
        from <= s@.len(),
    ensures
        r == string_end(s@, from as int),
        from <= r <= s@.len(),
{
    let mut j: usize = from;
    while j < s.len() && s[j] != '"'
        invariant
            from <= j <= s.len(),
            string_end(s@, from as int) == string_end(s@, j as int),
        decreases s.len() - j,
    {
        if s[j] == '\\' {
            if s.len() - j > 2 {
                j = j + 2;
            } else {
                j = s.len();
                proof {
                    assert(string_end(s@, s@.len() as int) == s@.len());
                    assert(string_end(s@, (s@.len() + 1) as int) == s@.len());
                }
            }
        } else {
            j = j + 1;
        }
    }
    j
}

/// Unescape the common JSON string escapes (enough for package names, versions,
/// and URLs).
fn unescape(raw: &[char]) -> (r: Vec<char>)
    ensures
        r@ == unescaped(raw@),
{
    let mut out: Vec<char> = Vec::new();
    let mut i: usize = 0;
    assert(raw@.skip(0) =~= raw@);
    assert(out@ + unescaped(raw@) =~= unescaped(raw@));
    while i < raw.len()
        invariant
            i <= raw.len(),
            out@ + unescaped(raw@.skip(i as int)) == unescaped(raw@),
        decreases raw.len() - i,
    {
        let c = raw[i];
        let ghost rest = raw@.skip(i as int);
        let ghost before = out@;
        assert(rest[0] == c);
        if c == '\\' {
            if raw.len() - i == 1 {
                i = i + 1;
                assert(unescaped(rest) =~= seq![]);
                assert(unescaped(raw@.skip(i as int)) =~= seq![]);
            } else {
                let d = raw[i + 1];
                assert(rest[1] == d);
                let e = if d == 'n' {
                    '\n'
                } else if d == 't' {
                    '\t'
                } else if d == 'r' {
                    '\r'
                } else {
                    d
                };
                out.push(e);
                i = i + 2;
                assert(rest.skip(2) =~= raw@.skip(i as int));
                assert(before + (seq![e] + unescaped(raw@.skip(i as int))) =~= out@ + unescaped(
                    raw@.skip(i as int),
                ));
            }
        } else {
            out.push(c);
            i = i + 1;
            assert(rest.drop_first() =~= raw@.skip(i as int));
            assert(before + (seq![c] + unescaped(raw@.skip(i as int))) =~= out@ + unescaped(
                raw@.skip(i as int),
            ));
        }
    }
    assert(raw@.skip(i as int) =~= seq![]);
    assert(out@ + unescaped(raw@.skip(i as int)) =~= out@);
    out
}

/// A text without a leading sign.
fn drop_sign(t: &[char]) -> (r: &[char])
    ensures
        r@ == unsigned(t@),
{
    if t.len() > 0 && (t[0] == '+' || t[0] == '-') {
        assert(t@.skip(1) =~= t@.drop_first());
        skip(t, 1)
    } else {
        t
    }
}

/// Whether a text is empty or an exponent.
fn exponent(t: &[char]) -> (r: bool)
    ensures
        r == is_exponent(t@),
{
    if t.len() == 0 {
        return true;
    }
    assert(t@.skip(1) =~= t@.drop_first());
    let digits = drop_sign(skip(t, 1));
    (t[0] == 'e' || t[0] == 'E') && digits.len() > 0 && all(digits, Class::Digit)
}

/// Whether a text is a JSON number.
fn number(t: &[char]) -> (r: bool)
    ensures
        r == is_number(t@),
{
    let u = if t.len() > 0 && t[0] == '-' {
        assert(t@.skip(1) =~= t@.drop_first());
        skip(t, 1)
    } else {
        t
    };
    let whole: usize = count_leading(u, Class::Digit);
    if whole == 0 || (u[0] == '0' && whole != 1) {
        return false;
    }
    let rest = skip(u, whole);
    if rest.len() > 0 && rest[0] == '.' {
        assert(rest@.skip(1) =~= rest@.drop_first());
        let tail = skip(rest, 1);
        let fraction: usize = count_leading(tail, Class::Digit);
        fraction > 0 && exponent(skip(tail, fraction))
    } else {
        exponent(rest)
    }
}

/// Whether `token` is one of JSON's bare literals or a number.
fn is_json_literal(token: &[char]) -> (r: bool)
    ensures
        r == is_literal(token@),
{
    is_str(token, "true") || is_str(token, "false") || is_str(token, "null") || number(token)
}

/// A path of its own, one entry longer.
fn extend_path(path: &Vec<String>, entry: String) -> (r: Vec<String>)
    ensures
        strings(r@) == strings(path@).push(entry@),
{
    let mut out = copy_strings(path);
    let ghost before = strings(out@);
    let ghost text = entry@;
    out.push(entry);
    assert(strings(out@) =~= before.push(text));
    out
}

/// A scan under way.
struct Scanner<'a> {
    /// The document.
    chars: &'a [char],
    /// The byte offset of each of its positions.
    offsets: &'a Vec<usize>,
    /// The cursor.
    i: usize,
    /// The values found so far.
    out: Vec<JsonStringValue>,
    /// Cleared the moment the document departs from JSON's grammar. Never
    /// consulted by the scan itself, which always keeps going.
    well_formed: bool,
}

impl<'a> Scanner<'a> {
    /// The cursor is within the document, and the offsets are its own.
    spec fn valid(self) -> bool {
        &&& self.i <= self.chars@.len()
        &&& byte_len(self.chars@) <= usize::MAX
        &&& self.offsets@.len() == self.chars@.len() + 1
        &&& forall|k: int|
            0 <= k <= self.chars@.len() ==> #[trigger] self.offsets@[k] == byte_len(
                self.chars@.take(k),
            )
    }

    /// Whether this scanner is `before` after the scan `scan`.
    spec fn did(self, before: Self, scan: Scan) -> bool {
        &&& self.valid()
        &&& self.chars == before.chars
        &&& self.offsets == before.offsets
        &&& self.i == scan.next
        &&& values_of(self.out@) == values_of(before.out@) + scan.found
        &&& self.well_formed == (before.well_formed && scan.sound)
    }

    /// Parse a value (object, array, string, or scalar) at the cursor, recording
    /// any string values reachable under `path`.
    fn parse_value(&mut self, path: &Vec<String>)
        requires
            old(self).valid(),
        ensures
            final(self).did(
                *old(self),
                value_scan(old(self).chars@, old(self).i as int, strings(path@)),
            ),
        decreases ahead(old(self).chars@, old(self).i as int), 0int,
    {
        let ghost s = self.chars@;
        let ghost start = self.i as int;
        proof {
            lemma_value_scan(s, start, strings(path@));
        }
        if self.i >= self.chars.len() {
            self.well_formed = false;
            assert(values_of(self.out@) =~= values_of(old(self).out@) + seq![]);
            return;
        }
        let c = self.chars[self.i];
        if c == '{' {
            self.i = self.i + 1;
            self.parse_object(path);
        } else if c == '[' {
            self.i = self.i + 1;
            self.parse_array(path);
        } else if c == '"' {
            let from: usize = self.i + 1;
            let end: usize = find_string_end(self.chars, from);
            if end < self.chars.len() {
                let raw = part(self.chars, from, end);
                let value = unescape(raw);
                let mut escaped = false;
                if crate::text::any(raw, Class::Is('\\')) {
                    escaped = true;
                }
                proof {
                    assert(escaped == raw@.contains('\\')) by {
                        if escaped {
                            let k = choose|k: int|
                                0 <= k < raw@.len() && Class::Is('\\').has(#[trigger] raw@[k]);
                            assert(raw@[k] == '\\');
                        }
                        if raw@.contains('\\') {
                            let k = choose|k: int| 0 <= k < raw@.len() && raw@[k] == '\\';
                            assert(Class::Is('\\').has(raw@[k]));
                        }
                    }
                }
                let entry = JsonStringValue {
                    path: copy_strings(path),
                    value: string_of(value.as_slice()),
                    content_start: self.offsets[from],
                    content_end: self.offsets[end],
                    escaped,
                };
                assert(entry@ == string_at(s, from as int, strings(path@)));
                let ghost before = self.out@;
                self.out.push(entry);
                self.i = end + 1;
                assert(values_of(self.out@) =~= values_of(before) + seq![entry@]);
            } else {
                self.i = end;
                self.well_formed = false;
                assert(values_of(self.out@) =~= values_of(old(self).out@) + seq![]);
            }
        } else {
            self.skip_scalar();
        }
    }

    /// Skip a non-string scalar (`number`, `true`, `false`, `null`). A closing delimiter
    /// where a value belongs is consumed: the enclosing loop would otherwise hand the
    /// same character back forever.
    fn skip_scalar(&mut self)
        requires
            old(self).valid(),
            old(self).i < old(self).chars@.len(),
        ensures
            ({
                let s = old(self).chars@;
                let i = old(self).i as int;
                let end = scalar_end(s, i);
                final(self).did(
                    *old(self),
                    if end == i {
                        Scan::bare(i + 1, false)
                    } else {
                        Scan::bare(end, is_literal(s.subrange(i, end)))
                    },
                )
            }),
    {
        let start: usize = self.i;
        let ghost s = self.chars@;
        let mut end: usize = start;
        while end < self.chars.len() && !(self.chars[end] == ',' || self.chars[end] == '}'
            || self.chars[end] == ']' || ascii_space(self.chars[end]))
            invariant
                s == self.chars@,
                start <= end <= s.len(),
                scalar_end(s, start as int) == scalar_end(s, end as int),
            decreases s.len() - end,
        {
            end = end + 1;
        }
        assert(values_of(self.out@) =~= values_of(old(self).out@) + seq![]);
        if end == start {
            self.well_formed = false;
            self.i = start + 1;
        } else {
            self.i = end;
            if !is_json_literal(part(self.chars, start, end)) {
                self.well_formed = false;
            }
        }
    }

    /// Parse an object's members, the cursor being past its opening brace.
    fn parse_object(&mut self, path: &Vec<String>)
        requires
            old(self).valid(),
        ensures
            final(self).did(
                *old(self),
                members_scan(old(self).chars@, old(self).i as int, strings(path@)),
            ),
        decreases ahead(old(self).chars@, old(self).i as int), 1int,
    {
        let ghost s = self.chars@;
        let ghost keys = strings(path@);
        let ghost goal = members_scan(s, self.i as int, keys);
        proof {
            lemma_members_scan(s, self.i as int, keys);
            assert(values_of(self.out@) + goal.found =~= values_of(old(self).out@) + goal.found);
        }
        loop
            invariant
                self.valid(),
                s == self.chars@,
                s == old(self).chars@,
                self.chars == old(self).chars,
                self.offsets == old(self).offsets,
                keys == strings(path@),
                old(self).i <= self.i,
                goal == members_scan(s, old(self).i as int, keys),
                goal.next == members_scan(s, self.i as int, keys).next,
                values_of(old(self).out@) + goal.found == values_of(self.out@) + members_scan(
                    s,
                    self.i as int,
                    keys,
                ).found,
                (old(self).well_formed && goal.sound) == (self.well_formed && members_scan(
                    s,
                    self.i as int,
                    keys,
                ).sound),
            decreases ahead(s, self.i as int),
        {
            let ghost at = self.i as int;
            let ghost rest = members_scan(s, at, keys);
            proof {
                lemma_trivia_end(s, at);
                lemma_members_scan(s, at, keys);
            }
            let t: usize = skip_trivia(self.chars, self.i);
            if t >= self.chars.len() {
                self.well_formed = false;
                self.i = t;
                assert(values_of(self.out@) + rest.found =~= values_of(self.out@));
                return;
            }
            let c = self.chars[t];
            if c == '}' {
                self.i = t + 1;
                assert(values_of(self.out@) + rest.found =~= values_of(self.out@));
                return;
            }
            if c == ',' {
                self.i = t + 1;
                continue;
            }
            if c != '"' {
                self.well_formed = false;
                self.i = t + 1;
                assert(rest.found =~= members_scan(s, t + 1, keys).found);
                continue;
            }
            let end: usize = find_string_end(self.chars, t + 1);
            if end >= self.chars.len() {
                self.well_formed = false;
                self.i = end;
                assert(values_of(self.out@) + rest.found =~= values_of(self.out@));
                return;
            }
            proof {
                lemma_trivia_end(s, end + 1);
            }
            let colon: usize = skip_trivia(self.chars, end + 1);
            if colon >= self.chars.len() || self.chars[colon] != ':' {
                self.well_formed = false;
                self.i = colon;
                assert(rest.found =~= members_scan(s, colon as int, keys).found);
                continue;
            }
            let v: usize = skip_trivia(self.chars, colon + 1);
            let key = unescape(part(self.chars, t + 1, end));
            let child = extend_path(path, string_of(key.as_slice()));
            let ghost value = value_scan(s, v as int, keys.push(key@));
            self.i = v;
            let ghost before = values_of(self.out@);
            proof {
                lemma_value_scan(s, v as int, keys.push(key@));
            }
            self.parse_value(&child);
            assert(values_of(self.out@) + members_scan(s, value.next, keys).found =~= before
                + rest.found);
        }
    }

    /// Parse an array's elements, the cursor being past its opening bracket.
    fn parse_array(&mut self, path: &Vec<String>)
        requires
            old(self).valid(),
        ensures
            final(self).did(
                *old(self),
                elements_scan(old(self).chars@, old(self).i as int, strings(path@), 0),
            ),
        decreases ahead(old(self).chars@, old(self).i as int), 1int,
    {
        let ghost s = self.chars@;
        let ghost keys = strings(path@);
        let ghost goal = elements_scan(s, self.i as int, keys, 0);
        let mut index: u64 = 0;
        let ghost first = self.i as int;
        proof {
            lemma_byte_len_bounds(s);
            lemma_elements_scan(s, self.i as int, keys, 0);
            assert(values_of(self.out@) + goal.found =~= values_of(old(self).out@) + goal.found);
        }
        loop
            invariant
                self.valid(),
                s == self.chars@,
                s == old(self).chars@,
                self.chars == old(self).chars,
                self.offsets == old(self).offsets,
                keys == strings(path@),
                first == old(self).i,
                first <= self.i,
                index <= self.i - first,
                s.len() <= u64::MAX,
                goal == elements_scan(s, first, keys, 0),
                goal.next == elements_scan(s, self.i as int, keys, index as nat).next,
                values_of(old(self).out@) + goal.found == values_of(self.out@) + elements_scan(
                    s,
                    self.i as int,
                    keys,
                    index as nat,
                ).found,
                (old(self).well_formed && goal.sound) == (self.well_formed && elements_scan(
                    s,
                    self.i as int,
                    keys,
                    index as nat,
                ).sound),
            decreases ahead(s, self.i as int),
        {
            let ghost at = self.i as int;
            let ghost rest = elements_scan(s, at, keys, index as nat);
            proof {
                lemma_trivia_end(s, at);
                lemma_elements_scan(s, at, keys, index as nat);
            }
            let t: usize = skip_trivia(self.chars, self.i);
            if t >= self.chars.len() {
                self.well_formed = false;
                self.i = t;
                assert(values_of(self.out@) + rest.found =~= values_of(self.out@));
                return;
            }
            let c = self.chars[t];
            if c == ']' {
                self.i = t + 1;
                assert(values_of(self.out@) + rest.found =~= values_of(self.out@));
                return;
            }
            if c == ',' {
                self.i = t + 1;
                continue;
            }
            let key = to_decimal(index);
            let child = extend_path(path, string_of(key.as_slice()));
            let ghost value = value_scan(s, t as int, keys.push(key@));
            self.i = t;
            let ghost before = values_of(self.out@);
            proof {
                lemma_value_scan(s, t as int, keys.push(key@));
            }
            self.parse_value(&child);
            index = index + 1;
            assert(values_of(self.out@) + elements_scan(s, value.next, keys, index as nat).found
                =~= before + rest.found);
        }
    }
}

/// Scan JSON or JSONC `src`, reporting both the string values and whether the
/// document was well-formed.
///
/// Well-formedness is judged structurally: every object and array closed, every
/// string terminated, every key followed by a `:`, every bare scalar a real JSON
/// literal, and nothing left over after the top-level value. It is deliberately
/// not a validator: duplicate keys, JSONC comments, and lone surrogates all
/// pass. It answers only "did the scan see the whole document".
#[must_use]
pub fn scan_document(src: &str) -> (r: ScannedJson)
    ensures
        values_of(r.values@) == document_scan(src@).found,
        r.well_formed == document_scan(src@).sound,
{
    let total: usize = str_bytes(src);
    let chars = chars_of(src);
    let table = offsets(chars.as_slice());
    let path: Vec<String> = Vec::new();
    assert(strings(path@) =~= seq![]);
    let start: usize = skip_trivia(chars.as_slice(), 0);
    let mut scanner = Scanner {
        chars: chars.as_slice(),
        offsets: &table,
        i: start,
        out: Vec::new(),
        well_formed: true,
    };
    scanner.parse_value(&path);
    let end: usize = skip_trivia(scanner.chars, scanner.i);
    // Anything after the top-level value belongs to no value at all.
    let well_formed = scanner.well_formed && end >= scanner.chars.len();
    assert(values_of(scanner.out@) =~= document_scan(src@).found);
    ScannedJson { values: scanner.out, well_formed }
}

/// Scan JSON or JSONC `src`, returning every string value with its path, in
/// document order. Malformed input yields whatever was scanned up to the error.
///
/// A caller that cannot tell a short list from a complete one, because the file
/// *is* the list rather than an annotation on one, wants [`scan_document`]
/// instead, which says whether the scan reached the end.
#[must_use]
pub fn scan_strings(src: &str) -> (r: Vec<JsonStringValue>)
    ensures
        values_of(r@) == document_scan(src@).found,
{
    scan_document(src).values
}

} // verus!
