//! Reader of Dart's `pubspec.lock`.
//!
//! `pubspec.lock` is generated YAML: under `packages:` each package has a key of its
//! own, two spaces in, and its `version:` stands two further in.
use super::cargo_lock::{collected, LockfileData};
use crate::error::ParseError;
use crate::split::{lines, lines_of, texts};
use crate::text::{
    after_prefix, before_suffix, chars_of, count_leading, is_str, leading, opt_text, starts_with,
    begins, string_of, strip_prefix, strip_suffix, trim, trim_class, trim_of, trimmed, Class,
};
use vstd::prelude::*;

verus! {

/// What is known after some lines: whether they end within `packages:`, the package they
/// end within, and the names and versions so far.
pub ghost struct PubspecScan {
    /// Whether the packages are being listed.
    pub listing: bool,
    /// The package being described.
    pub name: Option<Seq<char>>,
    /// The names and versions.
    pub pairs: Seq<(Seq<char>, Seq<char>)>,
}

/// A scalar without white space or quotes around it.
pub open spec fn scalar(s: Seq<char>) -> Seq<char> {
    trim_of(trimmed(s), Class::In("\"'"))
}

/// The key of a line that is nothing but a key.
pub open spec fn lone_key(t: Seq<char>) -> Option<Seq<char>> {
    match before_suffix(t, ":"@) {
        Some(k) => Some(scalar(k)),
        None => None,
    }
}

/// What is known after some lines of a `pubspec.lock`.
pub open spec fn pubspec_scan(lines: Seq<Seq<char>>) -> PubspecScan
    decreases lines.len(),
{
    if lines.len() == 0 {
        PubspecScan { listing: false, name: None, pairs: seq![] }
    } else {
        let front = pubspec_scan(lines.drop_last());
        let t = trimmed(lines.last());
        let indent = leading(lines.last(), Class::Is(' '));
        if t.len() == 0 || begins(t, "#"@) {
            front
        } else if indent == 0 {
            PubspecScan { listing: t == "packages:"@, name: None, pairs: front.pairs }
        } else if front.listing && indent == 2 {
            PubspecScan { name: lone_key(t), ..front }
        } else if front.listing && indent == 4 {
            match (front.name, after_prefix(t, "version:"@)) {
                (Some(name), Some(v)) => PubspecScan {
                    pairs: front.pairs.push((name, scalar(v))),
                    ..front
                },
                _ => front,
            }
        } else {
            front
        }
    }
}

/// Drop white space and quotes around a scalar.
fn unquote(s: &[char]) -> (r: &[char])
    ensures
        r@ == scalar(s@),
{
    trim_class(trim(s), Class::In("\"'"))
}

/// Parse `pubspec.lock` into a name → resolved-version map. Never fails.
pub fn parse_dart_pubspec_lock(content: &str) -> (r: Result<LockfileData, ParseError>)
    ensures
        r matches Ok(d) && d@ == collected(pubspec_scan(lines_of(content@)).pairs),
{
    let chars = chars_of(content);
    let all_lines = lines(chars.as_slice());
    let ghost all = texts(all_lines@);
    let mut data = LockfileData::default();
    let mut listing = false;
    let mut name: Option<&[char]> = None;
    let mut i: usize = 0;
    while i < all_lines.len()
        invariant
            i <= all_lines.len(),
            all == texts(all_lines@),
            data@ == collected(pubspec_scan(all.take(i as int)).pairs),
            listing == pubspec_scan(all.take(i as int)).listing,
            opt_text(name) == pubspec_scan(all.take(i as int)).name,
        decreases all_lines.len() - i,
    {
        let line = all_lines[i];
        let ghost front = pubspec_scan(all.take(i as int));
        proof {
            assert(all.take(i + 1).drop_last() =~= all.take(i as int));
            assert(all.take(i + 1).last() == line@);
        }
        let t = trim(line);
        let indent: usize = count_leading(line, Class::Is(' '));
        if t.len() == 0 || starts_with(t, "#") {
            // A blank line or a comment.
        } else if indent == 0 {
            listing = is_str(t, "packages:");
            name = None;
        } else if listing && indent == 2 {
            name = match strip_suffix(t, ":") {
                Some(k) => Some(unquote(k)),
                None => None,
            };
        } else if listing && indent == 4 {
            if let Some(n) = name {
                if let Some(v) = strip_prefix(t, "version:") {
                    let version = unquote(v);
                    data.add_version(string_of(n), string_of(version));
                    assert(front.pairs.push((n@, version@)).drop_last() =~= front.pairs);
                }
            }
        }
        i = i + 1;
    }
    assert(all.take(i as int) =~= all);
    Ok(data)
}

} // verus!
