//! What YAML manifests and lockfiles declare.
use super::pubspec_yaml::{clause_start, fits_at, looks_like_version};
use super::yaml_block::{indent_of, key_of, uncommented, value_span, yaml_comment, Dialect};
use crate::item::{DependencyKind, PackageSource};
use crate::lockfiles::dart_pubspec_lock::{pubspec_scan, scalar};
use crate::semver::dotted::{dotted, lemma_dotted};
use crate::text::{all_in, is_alpha, is_digit, leading, trimmed, Class};
use crate::width::byte_len;
use crate::writing::{
    is_plain, is_plain_char, is_solid, lemma_after, lemma_ahead, lemma_first_at, lemma_leading_at,
    lemma_not_begins, lemma_plain, lemma_plain_char, lemma_trailing_at, lemma_trimmed_around,
    lemma_trimmed_same, lemma_trimmed_spaces,
};
use vstd::prelude::*;

verus! {

/// A line without quotes and number signs has no comment.
proof fn lemma_no_comment(line: Seq<char>, i: int)
    requires
        0 <= i <= line.len(),
        forall|j: int|
            0 <= j < line.len() ==> (#[trigger] line[j]) != '#' && line[j] != '"' && line[j] != '\'',
    ensures
        yaml_comment(line, i, false, false) == line.len(),
    decreases line.len() - i,
{
    if i < line.len() {
        lemma_no_comment(line, i + 1);
    }
}

/// A line of plain parts has no comment.
proof fn lemma_uncommented(line: Seq<char>)
    requires
        forall|j: int|
            0 <= j < line.len() ==> (#[trigger] line[j]) != '#' && line[j] != '"' && line[j] != '\'',
    ensures
        uncommented(line) == line,
{
    lemma_no_comment(line, 0);
    assert(line.take(line.len() as int) =~= line);
}

/// A line of a key and a colon at the start opens the section of that key; the sections of
/// a `pubspec.yaml` are the dependencies and the development dependencies, and those of a
/// workspace file the catalogs; any other key ends the section.
#[verifier::rlimit(60)]
pub proof fn law_yaml_sections(lines: Seq<Seq<char>>, key: Seq<char>)
    requires
        is_plain(key),
    ensures
        ({
            let next = lines.push(key + ":"@);
            &&& key == "dependencies"@ ==> Dialect::Pubspec.section(next) == Some(
                DependencyKind::Normal,
            )
            &&& key == "dev_dependencies"@ ==> Dialect::Pubspec.section(next) == Some(
                DependencyKind::Dev,
            )
            &&& key == "dependency_overrides"@ || key == "environment"@ || key == "flutter"@
                ==> Dialect::Pubspec.section(next) is None
            &&& key == "catalog"@ || key == "catalogs"@ ==> Dialect::Pnpm.section(next) == Some(
                DependencyKind::Workspace,
            )
            &&& key == "packages"@ || key == "dependencies"@ ==> Dialect::Pnpm.section(next) is None
        }),
{
    reveal_strlit(":");
    assert(":"@ =~= seq![':']);
    let line = key + ":"@;
    let none = Seq::<char>::empty();
    lemma_plain(key);
    assert(is_plain_char(key[0]));
    lemma_plain_char(key[0]);
    assert forall|j: int| 0 <= j < line.len() implies (#[trigger] line[j]) != '#' && line[j] != '"'
        && line[j] != '\'' by {
        if j < key.len() {
            assert(line[j] == key[j]);
            lemma_plain_char(key[j]);
        }
    }
    lemma_uncommented(line);
    assert(line[0] == key[0] && line.last() == ':');
    lemma_trimmed_same(line);
    lemma_leading_at(none, line, Class::Space);
    assert(none + line =~= line);
    assert(line.take(0) =~= none);
    assert(byte_len(none) == 0);
    lemma_first_at(key, ':', none, Class::Is(':'));
    assert(key + seq![':'] + none =~= line);
    assert(lines.push(line).drop_last() =~= lines);
    reveal_strlit("dependencies");
    reveal_strlit("dev_dependencies");
    reveal_strlit("dependency_overrides");
    reveal_strlit("environment");
    reveal_strlit("flutter");
    reveal_strlit("catalog");
    reveal_strlit("catalogs");
    reveal_strlit("packages");
    assert("dependencies"@.len() == 12 && "dev_dependencies"@.len() == 16
        && "dependency_overrides"@.len() == 20 && "environment"@.len() == 11 && "flutter"@.len()
        == 7 && "catalog"@.len() == 7 && "catalogs"@.len() == 8 && "packages"@.len() == 8);
    assert("catalogs"@[0] == 'c' && "packages"@[0] == 'p');
}

/// The parts of an indented line of a key and a value.
#[verifier::rlimit(60)]
proof fn lemma_entry(indent: Seq<char>, key: Seq<char>, value: Seq<char>)
    requires
        indent == "  "@ || indent == "    "@,
        is_plain(key),
        is_solid(value),
        forall|j: int|
            0 <= j < value.len() ==> (#[trigger] value[j]) != '#' && value[j] != '"' && value[j]
                != '\'',
    ensures
        ({
            let line = indent + key + ": "@ + value;
            &&& uncommented(line) == line
            &&& trimmed(line).len() > 0
            &&& indent_of(line) == indent.len()
            &&& key_of(line) == key
            &&& value_span(line) == Some(
                (
                    (indent.len() + key.len() + 2) as int,
                    (indent.len() + key.len() + 2 + value.len()) as int,
                ),
            )
            &&& line.subrange(
                (indent.len() + key.len() + 2) as int,
                (indent.len() + key.len() + 2 + value.len()) as int,
            ) == value
        }),
{
    reveal_strlit("  ");
    reveal_strlit("    ");
    reveal_strlit(": ");
    reveal_strlit(" ");
    let none = Seq::<char>::empty();
    let line = indent + key + ": "@ + value;
    lemma_plain(key);
    assert(is_plain_char(key[0]) && is_plain_char(key[key.len() - 1]));
    lemma_plain_char(key[0]);
    lemma_plain_char(key.last());
    assert forall|j: int| 0 <= j < line.len() implies (#[trigger] line[j]) != '#' && line[j] != '"'
        && line[j] != '\'' by {
        if j < indent.len() {
            assert(line[j] == indent[j]);
        } else if j < indent.len() + key.len() {
            assert(line[j] == key[j - indent.len()]);
            lemma_plain_char(key[j - indent.len()]);
        } else if j >= indent.len() + key.len() + 2 {
            assert(line[j] == value[j - indent.len() - key.len() - 2]);
        }
    }
    lemma_uncommented(line);
    let solid = key + ": "@ + value;
    assert(line =~= indent + solid);
    assert(solid[0] == key[0] && solid.last() == value.last());
    assert(all_in(indent, Class::Space));
    lemma_leading_at(indent, solid, Class::Space);
    lemma_trimmed_around(indent, solid, none);
    assert(indent + solid + none =~= line);
    assert(byte_len(indent) == indent.len()) by {
        lemma_spaces(indent);
    }
    let head = indent + key;
    assert forall|j: int| 0 <= j < head.len() implies #[trigger] head[j] != ':' by {
        if j < indent.len() {
            assert(head[j] == indent[j]);
        } else {
            assert(head[j] == key[j - indent.len()]);
            lemma_plain_char(key[j - indent.len()]);
        }
    }
    assert(line =~= head + seq![':'] + (" "@ + value));
    lemma_first_at(head, ':', " "@ + value, Class::Is(':'));
    lemma_trimmed_around(indent, key, none);
    assert(indent + key + none =~= head);
    let after = line.skip(head.len() as int + 1);
    assert(after =~= " "@ + value);
    lemma_leading_at(" "@, value, Class::Space);
    lemma_trimmed_spaces(value);
    let from = (head.len() + 2) as int;
    assert(line.subrange(from, from + value.len()) =~= value);
}

#[verifier::rlimit(60)]
proof fn lemma_spaces(s: Seq<char>)
    requires
        forall|i: int| 0 <= i < s.len() ==> #[trigger] s[i] == ' ',
    ensures
        byte_len(s) == s.len(),
    decreases s.len(),
{
    reveal_with_fuel(byte_len, 2);
    if s.len() > 0 {
        let t = s.drop_last();
        assert forall|i: int| 0 <= i < t.len() implies #[trigger] t[i] == ' ' by {
            assert(t[i] == s[i]);
        }
        lemma_spaces(t);
        assert(s[s.len() - 1] == ' ');
    }
}

/// An entry of a section is a dependency on its key with its value as the constraint, of
/// the kind of the section; in a `pubspec.yaml` only where it is indented by two and its
/// value is a version; outside of a section it is none.
pub proof fn law_yaml_entries(lines: Seq<Seq<char>>, key: Seq<char>, value: Seq<char>)
    requires
        is_plain(key),
        is_solid(value),
        forall|j: int|
            0 <= j < value.len() ==> (#[trigger] value[j]) != '#' && value[j] != '"' && value[j]
                != '\'',
    ensures
        ({
            let two = lines.push("  "@ + key + ": "@ + value);
            let four = lines.push("    "@ + key + ": "@ + value);
            let pub_kind = Dialect::Pubspec.section(lines);
            let pnpm_kind = Dialect::Pnpm.section(lines);
            &&& pub_kind matches Some(k) ==> {
                &&& looks_like_version(value) ==> (Dialect::Pubspec.last_entry(two) matches Some(i)
                    && i.name == key && i.version_constraint == value && i.kind == k && i.source
                    == PackageSource::Registry && i.version_line == lines.len() as usize)
                &&& !looks_like_version(value) ==> Dialect::Pubspec.last_entry(two) is None
                &&& Dialect::Pubspec.last_entry(four) is None
            }
            &&& pub_kind is None ==> Dialect::Pubspec.last_entry(two) is None
            &&& pnpm_kind matches Some(k) ==> {
                &&& Dialect::Pnpm.last_entry(two) matches Some(i) && i.name == key
                    && i.version_constraint == value && i.kind == k
                &&& Dialect::Pnpm.last_entry(four) matches Some(i) && i.name == key
                    && i.version_constraint == value && i.kind == k
            }
            &&& pnpm_kind is None ==> Dialect::Pnpm.last_entry(two) is None
            &&& Dialect::Pubspec.section(two) == pub_kind
            &&& Dialect::Pnpm.section(two) == pnpm_kind
        }),
{
    reveal_strlit("  ");
    reveal_strlit("    ");
    lemma_entry("  "@, key, value);
    lemma_entry("    "@, key, value);
    assert(lines.push("  "@ + key + ": "@ + value).drop_last() =~= lines);
    assert(lines.push("    "@ + key + ": "@ + value).drop_last() =~= lines);
}

/// One more line adds the entry it declares after the others.
pub proof fn law_yaml_one_more(dialect: Dialect, lines: Seq<Seq<char>>, line: Seq<char>)
    ensures
        dialect.items(lines.push(line)) == match dialect.last_entry(lines.push(line)) {
            Some(item) => dialect.items(lines).push(item),
            None => dialect.items(lines),
        },
{
    assert(lines.push(line).drop_last() =~= lines);
}

/// A version in a `pubspec.yaml` is `any`, or dotted numbers, alone or after a sign or two;
/// a word is none.
#[verifier::rlimit(60)]
pub proof fn law_pubspec_versions(nums: Seq<u64>, word: Seq<char>)
    requires
        nums.len() > 0,
        word.len() > 0,
        is_alpha(word[0]),
        word != "any"@,
    ensures
        looks_like_version("any"@),
        looks_like_version(dotted(nums)),
        looks_like_version("^"@ + dotted(nums)),
        looks_like_version(">="@ + dotted(nums)),
        looks_like_version("<"@ + dotted(nums)),
        !looks_like_version(word),
{
    let none = Seq::<char>::empty();
    reveal_strlit("^");
    reveal_strlit(">=");
    reveal_strlit("<");
    lemma_signed_version(none, nums);
    assert(none + dotted(nums) =~= dotted(nums));
    lemma_signed_version("^"@, nums);
    lemma_signed_version(">="@, nums);
    lemma_signed_version("<"@, nums);
    lemma_leading_at(none, word, Class::AsciiSpace);
    assert(none + word =~= word);
    assert(word.skip(0) =~= word);
}

proof fn lemma_digit_or_point(c: char)
    ensures
        Class::In("0123456789.").has(c) <==> is_digit(c) || c == '.',
{
    reveal_strlit("0123456789.");
    let s = "0123456789."@;
    assert(s[0] == '0' && s[1] == '1' && s[2] == '2' && s[3] == '3' && s[4] == '4' && s[5] == '5'
        && s[6] == '6' && s[7] == '7' && s[8] == '8' && s[9] == '9' && s[10] == '.');
}

#[verifier::rlimit(60)]
proof fn lemma_signed_version(op: Seq<char>, nums: Seq<u64>)
    requires
        nums.len() > 0,
        op.len() == 0 || op == "^"@ || op == ">="@ || op == "<"@,
    ensures
        looks_like_version(op + dotted(nums)),
{
    reveal_strlit("^");
    reveal_strlit(">=");
    reveal_strlit("<");
    let none = Seq::<char>::empty();
    let d = dotted(nums);
    let v = op + d;
    let n = op.len() as int;
    lemma_dotted(nums);
    assert(v[n] == d[0]);
    assert(n > 0 ==> v[0] == op[0]);
    assert(n > 1 ==> v[1] == '=');
    assert(v.skip(n) =~= d);
    lemma_leading_at(none, d, Class::AsciiSpace);
    assert(none + d =~= d);
    assert(clause_start(v) == n);
    let k = Class::In("0123456789.");
    assert forall|i: int| 0 <= i < d.len() implies k.has(#[trigger] d[i]) by {
        lemma_digit_or_point(d[i]);
        assert(is_digit(d[i]) || d[i] == '.');
    }
    lemma_leading_at(d, none, k);
    assert(d + none =~= d);
    lemma_points(nums);
    assert forall|j: int| n <= j < v.len() implies #[trigger] fits_at(v, v.len() as int, j) by {
        assert(v[j] == d[j - n]);
        assert(is_digit(d[j - n]) || d[j - n] == '.');
        if d[j - n] == '.' {
            assert(j - n + 1 < d.len() && is_digit(d[j - n + 1]));
            assert(v[j + 1] == d[j - n + 1]);
        }
    }
}

/// Each point of dotted numbers has a digit after it.
#[verifier::rlimit(60)]
proof fn lemma_points(nums: Seq<u64>)
    requires
        nums.len() > 0,
    ensures
        forall|i: int|
            0 <= i < dotted(nums).len() && (#[trigger] dotted(nums)[i]) == '.' ==> i + 1 < dotted(
                nums,
            ).len() && is_digit(dotted(nums)[i + 1]),
    decreases nums.len(),
{
    reveal_strlit(".");
    let d = crate::number::decimal(nums[0] as nat);
    crate::number::law_decimal_reads_back(nums[0] as nat);
    let s = dotted(nums);
    if nums.len() == 1 {
        assert forall|i: int| 0 <= i < s.len() && (#[trigger] s[i]) == '.' implies i + 1 < s.len()
            && is_digit(s[i + 1]) by {
            assert(Class::Digit.has(d[i]));
        }
    } else {
        let rest = nums.drop_first();
        let t = dotted(rest);
        lemma_points(rest);
        lemma_dotted(rest);
        assert forall|i: int| 0 <= i < s.len() && (#[trigger] s[i]) == '.' implies i + 1 < s.len()
            && is_digit(s[i + 1]) by {
            if i < d.len() {
                assert(s[i] == d[i]);
                assert(Class::Digit.has(d[i]));
            } else if i == d.len() {
                assert(s[i + 1] == t[0]);
            } else {
                let k = i - d.len() - 1;
                assert(s[i] == t[k]);
                assert(k + 1 < t.len() && is_digit(t[k + 1]));
                assert(s[i + 1] == t[k + 1]);
            }
        }
    }
}

/// The packages of a `pubspec.lock`: a name indented by two under `packages:`, and the
/// version indented by four under the name, without its quotes.
pub proof fn law_pubspec_lock(lines: Seq<Seq<char>>, name: Seq<char>, version: Seq<char>)
    requires
        is_plain(name),
        is_plain(version),
    ensures
        pubspec_scan(lines.push("packages:"@)).listing,
        pubspec_scan(lines.push("packages:"@)).pairs == pubspec_scan(lines).pairs,
        !pubspec_scan(lines.push("sdks:"@)).listing,
        pubspec_scan(lines).listing ==> pubspec_scan(lines.push("  "@ + (name + ":"@))).name == Some(
            name,
        ) && pubspec_scan(lines.push("  "@ + (name + ":"@))).listing && pubspec_scan(
            lines.push("  "@ + (name + ":"@)),
        ).pairs == pubspec_scan(lines).pairs,
        pubspec_scan(lines).listing && pubspec_scan(lines).name == Some(name) ==> pubspec_scan(
            lines.push("    "@ + ("version: "@ + ("\""@ + version + "\""@))),
        ).pairs == pubspec_scan(lines).pairs.push((name, version)),
        !pubspec_scan(lines).listing ==> pubspec_scan(
            lines.push("    "@ + ("version: "@ + ("\""@ + version + "\""@))),
        ).pairs == pubspec_scan(lines).pairs,
{
    lemma_lock_header(lines);
    lemma_lock_name(lines, name);
    lemma_lock_version(lines, version);
}

#[verifier::rlimit(60)]
proof fn lemma_lock_header(lines: Seq<Seq<char>>)
    ensures
        pubspec_scan(lines.push("packages:"@)).listing,
        pubspec_scan(lines.push("packages:"@)).pairs == pubspec_scan(lines).pairs,
        !pubspec_scan(lines.push("sdks:"@)).listing,
{
    reveal_strlit("packages:");
    reveal_strlit("sdks:");
    reveal_strlit("#");
    lemma_trimmed_same("packages:"@);
    lemma_trimmed_same("sdks:"@);
    lemma_not_begins("packages:"@, "#"@, 0);
    lemma_not_begins("sdks:"@, "#"@, 0);
    assert(leading("packages:"@, Class::Is(' ')) == 0);
    assert(leading("sdks:"@, Class::Is(' ')) == 0);
    assert("packages:"@.len() == 9 && "sdks:"@.len() == 5);
    assert(lines.push("packages:"@).drop_last() =~= lines);
    assert(lines.push("sdks:"@).drop_last() =~= lines);
}

proof fn lemma_quotes(c: char)
    ensures
        Class::In("\"'").has(c) <==> c == '"' || c == '\'',
{
    reveal_strlit("\"'");
    let s = "\"'"@;
    assert(s.len() == 2 && s[0] == '"' && s[1] == '\'');
}

#[verifier::rlimit(60)]
proof fn lemma_lock_name(lines: Seq<Seq<char>>, name: Seq<char>)
    requires
        is_plain(name),
    ensures
        pubspec_scan(lines).listing ==> pubspec_scan(lines.push("  "@ + (name + ":"@))).name == Some(
            name,
        ) && pubspec_scan(lines.push("  "@ + (name + ":"@))).listing && pubspec_scan(
            lines.push("  "@ + (name + ":"@)),
        ).pairs == pubspec_scan(lines).pairs,
{
    reveal_strlit("  ");
    reveal_strlit(":");
    reveal_strlit("#");
    let none = Seq::<char>::empty();
    let t = name + ":"@;
    let line = "  "@ + t;
    lemma_plain(name);
    assert(is_plain_char(name[0]) && is_plain_char(name[name.len() - 1]));
    lemma_plain_char(name[0]);
    lemma_plain_char(name.last());
    assert(t[0] == name[0] && t.last() == ':');
    lemma_trimmed_around("  "@, t, none);
    assert("  "@ + t + none =~= line);
    lemma_leading_at("  "@, t, Class::Is(' '));
    lemma_not_begins(t, "#"@, 0);
    lemma_ahead(name, ":"@);
    lemma_unquoted(name);
    assert(lines.push(line).drop_last() =~= lines);
}

#[verifier::rlimit(60)]
proof fn lemma_unquoted(name: Seq<char>)
    requires
        is_plain(name),
    ensures
        scalar(name) == name,
        scalar(" "@ + ("\""@ + name + "\""@)) == name,
{
    reveal_strlit(" ");
    reveal_strlit("\"");
    let none = Seq::<char>::empty();
    let k = Class::In("\"'");
    lemma_plain(name);
    assert(is_plain_char(name[0]) && is_plain_char(name[name.len() - 1]));
    lemma_plain_char(name[0]);
    lemma_plain_char(name.last());
    lemma_quotes(name[0]);
    lemma_quotes(name.last());
    lemma_quotes('"');
    lemma_leading_at(none, name, k);
    assert(none + name =~= name);
    lemma_trailing_at(name, none, k);
    assert(name + none =~= name);
    let q = "\""@ + name + "\""@;
    assert(q[0] == '"' && q.last() == '"');
    lemma_trimmed_spaces(q);
    assert("\""@ =~= seq!['"']);
    lemma_leading_at("\""@, name + "\""@, k);
    assert((name + "\""@)[0] == name[0]);
    assert(q =~= "\""@ + (name + "\""@));
    lemma_trailing_at(name, "\""@, k);
}

#[verifier::rlimit(60)]
proof fn lemma_lock_version(lines: Seq<Seq<char>>, version: Seq<char>)
    requires
        is_plain(version),
    ensures
        ({
            let next = pubspec_scan(
                lines.push("    "@ + ("version: "@ + ("\""@ + version + "\""@))),
            );
            let before = pubspec_scan(lines);
            &&& before.listing ==> (before.name matches Some(name) ==> next.pairs
                == before.pairs.push((name, version)))
            &&& !before.listing ==> next.pairs == before.pairs
        }),
{
    reveal_strlit("    ");
    reveal_strlit("version: ");
    reveal_strlit("version:");
    reveal_strlit(" ");
    reveal_strlit("#");
    reveal_strlit("\"");
    let none = Seq::<char>::empty();
    let q = "\""@ + version + "\""@;
    let t = "version: "@ + q;
    let line = "    "@ + t;
    assert(t[0] == 'v' && t.last() == '"');
    lemma_trimmed_around("    "@, t, none);
    assert("    "@ + t + none =~= line);
    lemma_leading_at("    "@, t, Class::Is(' '));
    lemma_not_begins(t, "#"@, 0);
    assert(t =~= "version:"@ + (" "@ + q));
    lemma_after("version:"@, " "@ + q);
    lemma_unquoted(version);
    assert(lines.push(line).drop_last() =~= lines);
}

} // verus!
