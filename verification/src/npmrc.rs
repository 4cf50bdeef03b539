//! Reader of npm's `.npmrc` configuration (registries and auth tokens).
//!
//! `.npmrc` is an INI-like `key = value` file. What is read are the three things a
//! private-registry version check needs: the default `registry`, per-scope
//! (`@scope:registry`) registries, and per-registry `_authToken`s. The caller reads the
//! files and expands `${VAR}`.
use crate::parsers::cargo_package::opt_str;
use crate::parsers::cargo_workspace::text_map;
use crate::split::{lines, lines_of, push_all, push_str, texts};
use crate::table::TextTable;
use crate::text::{
    before_suffix, begins, chars_of, cut, find, find_str, has_any, is_str, lemma_trailing, opt_string, skip,
    split_once, starts_with, string_of, strip_suffix, take, trailing, trim, trim_class, trim_end,
    trim_end_of, trim_of, trimmed, Class,
};
use crate::writing::{
    is_solid, lemma_ahead, lemma_first_at, lemma_first_none, lemma_leading_at, lemma_not_begins,
    lemma_trailing_at, lemma_trimmed_same, lemma_trimmed_spaces,
};
use vstd::prelude::*;

verus! {

/// The relevant contents of one or more merged `.npmrc` files.
///
/// Build via [`parse_npmrc`].
#[derive(Debug, Clone, PartialEq, Eq)]
#[non_exhaustive]
pub struct NpmrcConfig {
    /// The default `registry = <url>`, if set.
    pub default_registry: Option<String>,
    /// `@scope` → registry URL, from `@scope:registry = <url>` lines.
    pub scope_registries: TextTable<String>,
    /// Auth tokens keyed by canonical nerf-dart (`//host/path/`), from
    /// `//host/path/:_authToken = <token>` lines.
    pub tokens: TextTable<String>,
}

/// What an [`NpmrcConfig`] says.
pub ghost struct NpmrcView {
    /// The default registry.
    pub default_registry: Option<Seq<char>>,
    /// The registry of each scope.
    pub scope_registries: Map<Seq<char>, Seq<char>>,
    /// The token of each registry.
    pub tokens: Map<Seq<char>, Seq<char>>,
}

impl View for NpmrcConfig {
    type V = NpmrcView;

    open spec fn view(&self) -> NpmrcView {
        NpmrcView {
            default_registry: opt_string(self.default_registry),
            scope_registries: text_map(self.scope_registries),
            tokens: text_map(self.tokens),
        }
    }
}

impl NpmrcView {
    /// A configuration that says nothing.
    pub open spec fn blank() -> NpmrcView {
        NpmrcView { default_registry: None, scope_registries: Map::empty(), tokens: Map::empty() }
    }

    /// This configuration under one of higher precedence.
    pub open spec fn under(self, higher: NpmrcView) -> NpmrcView {
        NpmrcView {
            default_registry: if higher.default_registry is Some {
                higher.default_registry
            } else {
                self.default_registry
            },
            scope_registries: self.scope_registries.union_prefer_right(higher.scope_registries),
            tokens: self.tokens.union_prefer_right(higher.tokens),
        }
    }

    /// The token for a registry.
    pub open spec fn token_of(self, registry: Seq<char>) -> Option<Seq<char>> {
        let key = nerfed(registry);
        if self.tokens.contains_key(key) {
            Some(self.tokens[key])
        } else {
            None
        }
    }
}

impl Default for NpmrcConfig {
    fn default() -> (r: Self)
        ensures
            r@ == NpmrcView::blank(),
    {
        let r = NpmrcConfig {
            default_registry: None,
            scope_registries: TextTable::new(),
            tokens: TextTable::new(),
        };
        assert(r@.scope_registries =~= Map::empty());
        assert(r@.tokens =~= Map::empty());
        r
    }
}

/// Set every entry of one table in another.
fn extend(table: &mut TextTable<String>, more: &TextTable<String>)
    ensures
        text_map(*final(table)) == text_map(*old(table)).union_prefer_right(text_map(*more)),
{
    let ghost start = text_map(*table);
    let ghost extra = text_map(*more);
    let ghost names = more.names();
    let n: usize = more.len();
    let mut i: usize = 0;
    while i < n
        invariant
            i <= n,
            n == names.len(),
            names == more.names(),
            extra == text_map(*more),
            forall|k: Seq<char>| #[trigger]
                text_map(*table).contains_key(k) <==> start.contains_key(k) || names.take(
                    i as int,
                ).contains(k),
            forall|k: Seq<char>| #[trigger]
                text_map(*table).contains_key(k) ==> text_map(*table)[k] == (if names.take(
                    i as int,
                ).contains(k) {
                    extra[k]
                } else {
                    start[k]
                }),
        decreases n - i,
    {
        let ghost before = text_map(*table);
        let ghost key = names[i as int];
        let name = more.key_at(i).clone();
        let value = more.value_at(i).clone();
        let ghost text = value@;
        table.insert(name, value);
        proof {
            let now = text_map(*table);
            assert(now =~= before.insert(key, text));
            assert(names.take(i + 1) =~= names.take(i as int).push(key));
            assert(more@.contains_key(key) && extra[key] == text);
            assert forall|k: Seq<char>| #[trigger] names.take(i + 1).contains(k) <==> names.take(
                i as int,
            ).contains(k) || k == key by {
                let a = names.take(i + 1);
                let b = names.take(i as int);
                if b.contains(k) {
                    let j = choose|j: int| 0 <= j < b.len() && b[j] == k;
                    assert(a[j] == k);
                }
                if a.contains(k) && k != key {
                    let j = choose|j: int| 0 <= j < a.len() && a[j] == k;
                    assert(b[j] == k);
                }
                assert(a[i as int] == key);
            }
            assert forall|k: Seq<char>| #[trigger] now.contains_key(k) <==> start.contains_key(k)
                || names.take(i + 1).contains(k) by {
                assert(before.contains_key(k) <==> start.contains_key(k) || names.take(
                    i as int,
                ).contains(k));
            }
            assert forall|k: Seq<char>| #[trigger] now.contains_key(k) implies now[k] == (
            if names.take(i + 1).contains(k) {
                extra[k]
            } else {
                start[k]
            }) by {
                assert(names.take(i + 1).contains(k) <==> names.take(i as int).contains(k) || k
                    == key);
                if k != key {
                    assert(before.contains_key(k));
                }
            }
        }
        i = i + 1;
    }
    proof {
        assert(names.take(n as int) =~= names);
        assert forall|k: Seq<char>| extra.contains_key(k) <==> names.contains(k) by {
            assert(more@.contains_key(k) <==> names.contains(k));
        }
        let now = text_map(*table);
        assert forall|k: Seq<char>| now.contains_key(k) <==> start.union_prefer_right(
            extra,
        ).contains_key(k) by {}
        assert(now =~= start.union_prefer_right(extra));
    }
}

impl NpmrcConfig {
    /// The bearer token configured for `registry_url`, matched by nerf-dart: the
    /// scheme-less `//host/path/` form npm keys `_authToken` on.
    #[must_use]
    pub fn token_for(&self, registry_url: &str) -> (r: Option<&str>)
        ensures
            opt_str(r) == self@.token_of(registry_url@),
    {
        let key = nerf_dart(registry_url);
        match self.tokens.get(key.as_str()) {
            Some(t) => Some(t.as_str()),
            None => None,
        }
    }

    /// Merge a `higher`-precedence config over `self` (e.g. project over user):
    /// a present `default_registry` and any map entries in `higher` win; the rest
    /// fall through to `self`.
    #[must_use]
    pub fn merge(self, higher: NpmrcConfig) -> (r: NpmrcConfig)
        ensures
            r@ == self@.under(higher@),
    {
        let mut scope_registries = self.scope_registries;
        let mut tokens = self.tokens;
        extend(&mut scope_registries, &higher.scope_registries);
        extend(&mut tokens, &higher.tokens);
        let default_registry = if higher.default_registry.is_some() {
            higher.default_registry
        } else {
            self.default_registry
        };
        NpmrcConfig { default_registry, scope_registries, tokens }
    }
}

/// A text without the pairs of slashes it begins with.
pub open spec fn without_pairs(s: Seq<char>) -> Seq<char>
    decreases s.len(),
{
    if s.len() >= 2 && s[0] == '/' && s[1] == '/' {
        without_pairs(s.skip(2))
    } else {
        s
    }
}

/// What follows the scheme of a URL, or the slashes that a text begins with.
pub open spec fn schemeless(s: Seq<char>) -> Seq<char> {
    let n = find(s, "://"@);
    if n >= 0 {
        s.skip(n + "://"@.len())
    } else {
        without_pairs(s)
    }
}

/// A registry URL in the form that tokens are keyed on: no scheme, exactly one trailing
/// slash.
pub open spec fn nerfed(s: Seq<char>) -> Seq<char> {
    "//"@ + trim_end_of(schemeless(s), Class::Is('/')) + "/"@
}

/// Drop the pairs of slashes a text begins with.
fn strip_pairs(s: &[char]) -> (r: &[char])
    ensures
        r@ == without_pairs(s@),
{
    let mut rest: &[char] = s;
    while rest.len() >= 2 && rest[0] == '/' && rest[1] == '/'
        invariant
            without_pairs(rest@) == without_pairs(s@),
        decreases rest@.len(),
    {
        rest = skip(rest, 2);
    }
    rest
}

/// Canonicalize a registry URL or nerf-dart to npm's `//host/path/` form (no
/// scheme, exactly one trailing slash) so registries and token keys compare equal.
pub fn nerf_dart(s: &str) -> (r: String)
    ensures
        r@ == nerfed(s@),
{
    let chars = chars_of(s);
    let all = chars.as_slice();
    let scheme = chars_of("://");
    let rest = match find_str(all, "://") {
        Some(n) => {
            assert(all@.len() == all.len());
            skip(all, n + scheme.len())
        },
        None => strip_pairs(all),
    };
    let mut out = chars_of("//");
    push_all(&mut out, trim_end(rest, Class::Is('/')));
    push_str(&mut out, "/");
    string_of(out.as_slice())
}

/// The key and the value of a line of a configuration; `None` for a blank line, a
/// comment, and a line without a value.
pub open spec fn setting(line: Seq<char>) -> Option<(Seq<char>, Seq<char>)> {
    let t = trimmed(line);
    if begins(t, "#"@) || begins(t, ";"@) {
        None
    } else {
        match cut(t, Class::Is('=')) {
            Some((key, value)) => {
                let v = trim_of(trimmed(value), Class::Is('"'));
                if v.len() == 0 {
                    None
                } else {
                    Some((trimmed(key), v))
                }
            },
            None => None,
        }
    }
}

/// A configuration with one more setting.
pub open spec fn with_setting(c: NpmrcView, key: Seq<char>, value: Seq<char>) -> NpmrcView {
    let scope = before_suffix(key, ":registry"@);
    let dart = before_suffix(key, ":_authToken"@);
    if key == "registry"@ {
        NpmrcView { default_registry: Some(value), ..c }
    } else if scope matches Some(s) && begins(s, "@"@) {
        NpmrcView { scope_registries: c.scope_registries.insert(scope->0, value), ..c }
    } else if dart matches Some(d) && begins(d, "//"@) {
        NpmrcView { tokens: c.tokens.insert(nerfed(dart->0), value), ..c }
    } else {
        c
    }
}

/// What the lines of a configuration come to, a later one prevailing.
pub open spec fn settings_of(lines: Seq<Seq<char>>) -> NpmrcView
    decreases lines.len(),
{
    if lines.len() == 0 {
        NpmrcView::blank()
    } else {
        let front = settings_of(lines.drop_last());
        match setting(lines.last()) {
            Some((key, value)) => with_setting(front, key, value),
            None => front,
        }
    }
}

/// Read one line of a configuration.
fn read_setting<'a>(line: &'a [char]) -> (r: Option<(&'a [char], &'a [char])>)
    ensures
        match r {
            Some((k, v)) => setting(line@) == Some((k@, v@)),
            None => setting(line@) is None,
        },
{
    let t = trim(line);
    if starts_with(t, "#") || starts_with(t, ";") {
        return None;
    }
    match split_once(t, Class::Is('=')) {
        Some((key, value)) => {
            let v = trim_class(trim(value), Class::Is('"'));
            if v.len() == 0 {
                None
            } else {
                Some((trim(key), v))
            }
        },
        None => None,
    }
}

/// Parse `.npmrc` content into an [`NpmrcConfig`]. Unknown keys are ignored; blank
/// lines and `#`/`;` comments are skipped; quoted values are unquoted. The caller reads
/// the file and performs any `${VAR}` expansion beforehand.
#[must_use]
pub fn parse_npmrc(content: &str) -> (r: NpmrcConfig)
    ensures
        r@ == settings_of(lines_of(content@)),
{
    let chars = chars_of(content);
    let all_lines = lines(chars.as_slice());
    let ghost all = texts(all_lines@);
    let mut config = NpmrcConfig::default();
    let mut i: usize = 0;
    while i < all_lines.len()
        invariant
            i <= all_lines.len(),
            all == texts(all_lines@),
            config@ == settings_of(all.take(i as int)),
        decreases all_lines.len() - i,
    {
        proof {
            assert(all.take(i + 1).drop_last() =~= all.take(i as int));
            assert(all.take(i + 1).last() == all_lines@[i as int]@);
        }
        if let Some((key, value)) = read_setting(all_lines[i]) {
            apply(&mut config, key, value);
        }
        i = i + 1;
    }
    assert(all.take(i as int) =~= all);
    config
}

/// Apply one setting.
fn apply(config: &mut NpmrcConfig, key: &[char], value: &[char])
    ensures
        final(config)@ == with_setting(old(config)@, key@, value@),
{
    let ghost before = config@;
    let text = string_of(value);
    if is_str(key, "registry") {
        config.default_registry = Some(text);
        return;
    }
    if let Some(scope) = strip_suffix(key, ":registry") {
        if starts_with(scope, "@") {
            config.scope_registries.insert(string_of(scope), text);
            assert(config@.scope_registries =~= before.scope_registries.insert(scope@, value@));
            return;
        }
    }
    if let Some(dart) = strip_suffix(key, ":_authToken") {
        if starts_with(dart, "//") {
            let name = string_of(dart);
            let k = nerf_dart(name.as_str());
            config.tokens.insert(k, text);
            assert(config@.tokens =~= before.tokens.insert(nerfed(dart@), value@));
        }
    }
}

/// In a merge the higher configuration prevails wherever it says something, and the
/// lower one holds everywhere else.
pub proof fn law_merge_precedence(lower: NpmrcView, higher: NpmrcView, key: Seq<char>)
    ensures
        ({
            let m = lower.under(higher);
            &&& higher.default_registry is Some ==> m.default_registry == higher.default_registry
            &&& higher.default_registry is None ==> m.default_registry == lower.default_registry
            &&& higher.scope_registries.contains_key(key) ==> m.scope_registries.contains_key(key)
                && m.scope_registries[key] == higher.scope_registries[key]
            &&& !higher.scope_registries.contains_key(key) && lower.scope_registries.contains_key(
                key,
            ) ==> m.scope_registries.contains_key(key) && m.scope_registries[key]
                == lower.scope_registries[key]
            &&& higher.tokens.contains_key(key) ==> m.tokens.contains_key(key) && m.tokens[key]
                == higher.tokens[key]
            &&& !higher.tokens.contains_key(key) && lower.tokens.contains_key(key)
                ==> m.tokens.contains_key(key) && m.tokens[key] == lower.tokens[key]
        }),
{
}

/// Merging is associative: it does not matter in which order three configurations are
/// laid over each other, only which is over which.
pub proof fn law_merge_associative(a: NpmrcView, b: NpmrcView, c: NpmrcView)
    ensures
        a.under(b).under(c) == a.under(b.under(c)),
        a.under(NpmrcView::blank()) == a,
        NpmrcView::blank().under(a) == a,
{
    let l = a.under(b).under(c);
    let r = a.under(b.under(c));
    assert(l.scope_registries =~= r.scope_registries);
    assert(l.tokens =~= r.tokens);
    assert(a.under(NpmrcView::blank()).scope_registries =~= a.scope_registries);
    assert(a.under(NpmrcView::blank()).tokens =~= a.tokens);
    assert(NpmrcView::blank().under(a).scope_registries =~= a.scope_registries);
    assert(NpmrcView::blank().under(a).tokens =~= a.tokens);
}

/// A registry URL is keyed on `//`, what follows its scheme without trailing slashes, and
/// `/`: the same whatever the scheme is, and however many slashes it ends with.
pub proof fn law_key_of_url(scheme: Seq<char>, rest: Seq<char>)
    requires
        !scheme.contains(':'),
    ensures
        nerfed(scheme + "://"@ + rest) == "//"@ + trim_end_of(rest, Class::Is('/')) + "/"@,
        nerfed(scheme + "://"@ + rest.push('/')) == nerfed(scheme + "://"@ + rest),
{
    lemma_scheme(scheme, rest);
    lemma_scheme(scheme, rest.push('/'));
    lemma_trim_pushed(rest);
}

/// A text without a scheme is keyed on `//`, what follows its leading pairs of slashes
/// without trailing slashes, and `/`, however many slashes it ends with.
#[verifier::rlimit(60)]
pub proof fn law_key_of_bare(s: Seq<char>)
    requires
        find(s, "://"@) < 0,
    ensures
        nerfed(s) == "//"@ + trim_end_of(without_pairs(s), Class::Is('/')) + "/"@,
        find(s.push('/'), "://"@) < 0 ==> nerfed(s.push('/')) == nerfed(s),
{
    lemma_pairs_pushed(s);
    lemma_trim_pushed(without_pairs(s));
    if without_pairs(s) == seq!['/'] {
        assert(trailing(seq!['/'], Class::Is('/')) == 1) by {
            assert(seq!['/'].drop_last() =~= seq![]);
            assert(trailing(Seq::<char>::empty(), Class::Is('/')) == 0);
        }
        assert(trim_end_of(seq!['/'], Class::Is('/')) =~= seq![]);
        assert(trim_end_of(Seq::<char>::empty(), Class::Is('/')) =~= seq![]);
    }
}

/// A host and path is keyed the same with any scheme and with none.
pub proof fn law_one_key_per_registry(scheme: Seq<char>, host: Seq<char>)
    requires
        !scheme.contains(':'),
        !begins(host, "//"@),
        find(host, "://"@) < 0,
    ensures
        nerfed(scheme + "://"@ + host) == nerfed("//"@ + host),
{
    lemma_scheme(scheme, host);
    lemma_bare(host);
}

/// A token that is set for a registry is found for its URL, whatever the scheme is, and
/// no other setting is changed.
#[verifier::rlimit(60)]
pub proof fn law_token_found(c: NpmrcView, scheme: Seq<char>, host: Seq<char>, token: Seq<char>)
    requires
        !scheme.contains(':'),
        !begins(host, "//"@),
        find(host, "://"@) < 0,
    ensures
        ({
            let d = with_setting(c, "//"@ + host + ":_authToken"@, token);
            &&& d.token_of(scheme + "://"@ + host) == Some(token)
            &&& d.default_registry == c.default_registry
            &&& d.scope_registries == c.scope_registries
            &&& forall|url: Seq<char>|
                nerfed(url) != nerfed("//"@ + host) ==> #[trigger] d.token_of(url) == c.token_of(
                    url,
                )
        }),
{
    reveal_strlit("//");
    reveal_strlit("@");
    reveal_strlit("registry");
    reveal_strlit(":registry");
    reveal_strlit(":_authToken");
    law_one_key_per_registry(scheme, host);
    let key = "//"@ + host + ":_authToken"@;
    assert(key[0] == '/');
    assert(key != "registry"@) by {
        assert("registry"@[0] == 'r');
    }
    let dart = before_suffix(key, ":_authToken"@);
    assert(key.skip(key.len() - ":_authToken"@.len()) =~= ":_authToken"@);
    assert(key.take(key.len() - ":_authToken"@.len()) =~= "//"@ + host);
    assert(dart == Some("//"@ + host));
    assert(("//"@ + host).take(2) =~= "//"@);
    if let Some(scope) = before_suffix(key, ":registry"@) {
        if begins(scope, "@"@) {
            assert(scope.take(1)[0] == scope[0]);
            assert("@"@[0] == '@');
        }
    }
}

/// A trailing slash is trimmed with the others.
proof fn lemma_trim_pushed(s: Seq<char>)
    ensures
        trim_end_of(s.push('/'), Class::Is('/')) == trim_end_of(s, Class::Is('/')),
{
    assert(s.push('/').drop_last() =~= s);
    lemma_trailing(s, Class::Is('/'));
    let t = trailing(s, Class::Is('/'));
    assert(trailing(s.push('/'), Class::Is('/')) == t + 1);
    assert(s.push('/').take(s.len() - t) =~= s.take(s.len() - t));
}

/// A slash after a text stays after its pairs are gone, unless it makes one of them.
#[verifier::rlimit(60)]
proof fn lemma_pairs_pushed(s: Seq<char>)
    ensures
        without_pairs(s) != seq!['/'] ==> without_pairs(s.push('/')) == without_pairs(s).push('/'),
        without_pairs(s) == seq!['/'] ==> without_pairs(s.push('/')) == Seq::<char>::empty(),
    decreases s.len(),
{
    let t = s.push('/');
    if s.len() >= 2 && s[0] == '/' && s[1] == '/' {
        lemma_pairs_pushed(s.skip(2));
        assert(t.skip(2) =~= s.skip(2).push('/'));
    } else if s.len() == 1 && s[0] == '/' {
        assert(s =~= seq!['/']);
        assert(t[0] == '/' && t[1] == '/');
        assert(t.skip(2) =~= Seq::<char>::empty());
        assert(without_pairs(Seq::<char>::empty()) == Seq::<char>::empty());
    } else if s.len() <= 1 {
        assert(without_pairs(t) == t);
        assert(without_pairs(s) == s);
        assert(seq!['/'][0] == '/');
    } else {
        assert(t[0] == s[0] && t[1] == s[1]);
        assert(without_pairs(s) == s);
        assert(seq!['/'].len() == 1);
    }
}

#[verifier::rlimit(60)]
proof fn lemma_scheme(scheme: Seq<char>, host: Seq<char>)
    requires
        !scheme.contains(':'),
    ensures
        find(scheme + "://"@ + host, "://"@) == scheme.len(),
        schemeless(scheme + "://"@ + host) == host,
    decreases scheme.len(),
{
    reveal_strlit("://");
    let s = scheme + "://"@ + host;
    if scheme.len() == 0 {
        assert(s.take(3) =~= "://"@);
    } else {
        assert(scheme[0] != ':');
        assert(s[0] == scheme[0]);
        assert(s.drop_first() =~= scheme.drop_first() + "://"@ + host);
        assert(!scheme.drop_first().contains(':')) by {
            if scheme.drop_first().contains(':') {
                let i = choose|i: int|
                    0 <= i < scheme.drop_first().len() && scheme.drop_first()[i] == ':';
                assert(scheme[i + 1] == ':');
            }
        }
        lemma_scheme(scheme.drop_first(), host);
        assert("://"@[0] == ':');
        assert(!begins(s, "://"@)) by {
            if begins(s, "://"@) {
                assert(s.take(3)[0] == s[0]);
            }
        }
    }
    assert(s.skip(scheme.len() as int + 3) =~= host);
}

#[verifier::rlimit(60)]
proof fn lemma_bare(host: Seq<char>)
    requires
        !begins(host, "//"@),
        find(host, "://"@) < 0,
    ensures
        schemeless("//"@ + host) == host,
{
    reveal_strlit("://");
    reveal_strlit("//");
    let s = "//"@ + host;
    let t = s.drop_first();
    assert(s[0] == '/' && s[1] == '/');
    assert(t[0] == '/');
    assert(t.drop_first() =~= host);
    assert(!begins(s, "://"@)) by {
        if begins(s, "://"@) {
            assert(s.take(3)[0] == s[0]);
        }
    }
    assert(!begins(t, "://"@)) by {
        if begins(t, "://"@) {
            assert(t.take(3)[0] == t[0]);
        }
    }
    assert(find(t, "://"@) < 0);
    assert(find(s, "://"@) < 0);
    assert(s.skip(2) =~= host);
    assert(without_pairs(host) == host) by {
        if host.len() >= 2 && host[0] == '/' && host[1] == '/' {
            assert(host.take(2) =~= "//"@);
        }
    }
}

/// A line is a key and a value around the first `=`, with white space around either and
/// quotes around the value left out; a comment and a line without a value are no setting.
pub proof fn law_settings(key: Seq<char>, value: Seq<char>, rest: Seq<char>)
    requires
        is_solid(key),
        !has_any(key, Class::Is('=')),
        key[0] != '#' && key[0] != ';',
        is_solid(value),
        value[0] != '"' && value.last() != '"',
    ensures
        setting(key + "="@ + value) == Some((key, value)),
        setting(key + " = "@ + value) == Some((key, value)),
        setting(key + "="@ + ("\""@ + value + "\""@)) == Some((key, value)),
        setting("#"@ + rest) is None,
        setting(";"@ + rest) is None,
        setting(key) is None,
        setting(key + "="@) is None,
{
    lemma_pair(key, value);
    lemma_spaced_pair(key, value);
    lemma_quoted_pair(key, value);
    lemma_remark('#', rest);
    lemma_remark(';', rest);
    lemma_lone_key(key);
}

/// A key is no comment.
proof fn lemma_no_remark(t: Seq<char>)
    requires
        t.len() > 0,
        t[0] != '#' && t[0] != ';',
    ensures
        !begins(t, "#"@),
        !begins(t, ";"@),
{
    reveal_strlit("#");
    reveal_strlit(";");
    lemma_not_begins(t, "#"@, 0);
    lemma_not_begins(t, ";"@, 0);
}

/// A value without quotes at its ends is not changed by stripping them.
#[verifier::rlimit(60)]
proof fn lemma_unquoted(value: Seq<char>)
    requires
        value.len() > 0,
        value[0] != '"' && value.last() != '"',
    ensures
        trim_of(value, Class::Is('"')) == value,
        trim_of("\""@ + value + "\""@, Class::Is('"')) == value,
{
    reveal_strlit("\"");
    let none = Seq::<char>::empty();
    let k = Class::Is('"');
    lemma_leading_at(none, value, k);
    assert(none + value =~= value);
    lemma_trailing_at(value, none, k);
    assert(value + none =~= value);
    let q = "\""@ + value + "\""@;
    assert(q =~= "\""@ + (value + "\""@));
    assert((value + "\""@)[0] == value[0]);
    lemma_leading_at("\""@, value + "\""@, k);
    lemma_trailing_at(value, "\""@, k);
}

#[verifier::rlimit(60)]
proof fn lemma_pair(key: Seq<char>, value: Seq<char>)
    requires
        is_solid(key),
        !has_any(key, Class::Is('=')),
        key[0] != '#' && key[0] != ';',
        is_solid(value),
        value[0] != '"' && value.last() != '"',
    ensures
        setting(key + "="@ + value) == Some((key, value)),
{
    reveal_strlit("=");
    assert("="@ =~= seq!['=']);
    let s = key + "="@ + value;
    assert(s[0] == key[0] && s.last() == value.last());
    lemma_trimmed_same(s);
    lemma_no_remark(s);
    lemma_first_at(key, '=', value, Class::Is('='));
    lemma_trimmed_same(key);
    lemma_trimmed_same(value);
    lemma_unquoted(value);
}

#[verifier::rlimit(60)]
proof fn lemma_spaced_pair(key: Seq<char>, value: Seq<char>)
    requires
        is_solid(key),
        !has_any(key, Class::Is('=')),
        key[0] != '#' && key[0] != ';',
        is_solid(value),
        value[0] != '"' && value.last() != '"',
    ensures
        setting(key + " = "@ + value) == Some((key, value)),
{
    reveal_strlit(" = ");
    reveal_strlit(" ");
    let s = key + " = "@ + value;
    assert(s =~= (key + " "@) + seq!['='] + (" "@ + value));
    assert(s[0] == key[0] && s.last() == value.last());
    lemma_trimmed_same(s);
    lemma_no_remark(s);
    let k = key + " "@;
    assert forall|i: int| 0 <= i < k.len() implies #[trigger] k[i] != '=' by {
        if i < key.len() {
            assert(k[i] == key[i]);
        }
    }
    assert(!has_any(k, Class::Is('=')));
    lemma_first_at(k, '=', " "@ + value, Class::Is('='));
    lemma_trimmed_spaces(key);
    lemma_trimmed_spaces(value);
    lemma_unquoted(value);
}

#[verifier::rlimit(60)]
proof fn lemma_quoted_pair(key: Seq<char>, value: Seq<char>)
    requires
        is_solid(key),
        !has_any(key, Class::Is('=')),
        key[0] != '#' && key[0] != ';',
        is_solid(value),
        value[0] != '"' && value.last() != '"',
    ensures
        setting(key + "="@ + ("\""@ + value + "\""@)) == Some((key, value)),
{
    reveal_strlit("=");
    reveal_strlit("\"");
    assert("="@ =~= seq!['=']);
    let q = "\""@ + value + "\""@;
    let s = key + "="@ + q;
    assert(s[0] == key[0] && s.last() == '"');
    assert(q[0] == '"' && q.last() == '"');
    lemma_trimmed_same(s);
    lemma_no_remark(s);
    lemma_first_at(key, '=', q, Class::Is('='));
    lemma_trimmed_same(key);
    lemma_trimmed_same(q);
    lemma_unquoted(value);
}

#[verifier::rlimit(60)]
proof fn lemma_remark(c: char, rest: Seq<char>)
    requires
        c == '#' || c == ';',
    ensures
        setting(seq![c] + rest) is None,
        "#"@ == seq!['#'],
        ";"@ == seq![';'],
{
    reveal_strlit("#");
    reveal_strlit(";");
    assert("#"@ =~= seq!['#']);
    assert(";"@ =~= seq![';']);
    let s = seq![c] + rest;
    let t = trimmed(s);
    let none = Seq::<char>::empty();
    assert(s[0] == c);
    lemma_leading_at(none, s, Class::Space);
    assert(none + s =~= s);
    crate::text::lemma_trailing(s, Class::Space);
    let n = crate::text::trailing(s, Class::Space);
    assert(n < s.len()) by {
        lemma_trailing_below(s);
    }
    assert(t[0] == c);
    assert(t.take(1) =~= seq![c]);
}

proof fn lemma_trailing_below(s: Seq<char>)
    requires
        s.len() > 0,
        !crate::text::is_space(s[0]),
    ensures
        crate::text::trailing(s, Class::Space) < s.len(),
    decreases s.len(),
{
    if s.len() > 1 {
        assert(s.drop_last()[0] == s[0]);
        lemma_trailing_below(s.drop_last());
    }
}

#[verifier::rlimit(60)]
proof fn lemma_lone_key(key: Seq<char>)
    requires
        is_solid(key),
        !has_any(key, Class::Is('=')),
    ensures
        setting(key) is None,
        setting(key + "="@) is None,
{
    reveal_strlit("=");
    assert("="@ =~= seq!['=']);
    let none = Seq::<char>::empty();
    lemma_trimmed_same(key);
    lemma_first_none(key, Class::Is('='));
    let s = key + "="@;
    assert(s[0] == key[0] && s.last() == '=');
    lemma_trimmed_same(s);
    lemma_first_at(key, '=', none, Class::Is('='));
    assert(key + seq!['='] + none =~= s);
    lemma_trimmed_same(none);
    assert(trim_of(none, Class::Is('"')).len() == 0) by {
        lemma_leading_at(none, none, Class::Is('"'));
        lemma_trailing_at(none, none, Class::Is('"'));
        assert(none + none =~= none);
    }
}

/// `registry` sets the default registry, a scope's `registry` that of the scope, and any
/// other key that is no token sets nothing. What is set last holds.
#[verifier::rlimit(60)]
pub proof fn law_registries(c: NpmrcView, scope: Seq<char>, url: Seq<char>)
    ensures
        with_setting(c, "registry"@, url) == (NpmrcView { default_registry: Some(url), ..c }),
        with_setting(c, "@"@ + scope + ":registry"@, url) == (NpmrcView {
            scope_registries: c.scope_registries.insert("@"@ + scope, url),
            ..c
        }),
        with_setting(c, "save-exact"@, url) == c,
{
    reveal_strlit("registry");
    reveal_strlit(":registry");
    reveal_strlit(":_authToken");
    reveal_strlit("@");
    reveal_strlit("save-exact");
    let s = "@"@ + scope;
    let key = s + ":registry"@;
    lemma_ahead(s, ":registry"@);
    assert(s.take(1) =~= "@"@);
    assert(key[0] == '@' && "registry"@[0] == 'r');
    let e = "save-exact"@;
    assert(e[0] == 's' && e.last() == 't');
    if before_suffix(e, ":registry"@) is Some {
        assert(e.skip(e.len() - 9)[8] == e.last());
    }
    if before_suffix(e, ":_authToken"@) is Some {
        assert(e.len() == 10 && ":_authToken"@.len() == 11);
    }
}

/// One more line applies its setting over the others.
pub proof fn law_settings_one_more(lines: Seq<Seq<char>>, line: Seq<char>)
    ensures
        settings_of(lines.push(line)) == match setting(line) {
            Some((key, value)) => with_setting(settings_of(lines), key, value),
            None => settings_of(lines),
        },
{
    assert(lines.push(line).drop_last() =~= lines);
}

} // verus!
