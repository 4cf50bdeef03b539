//! What a `Package.resolved` says of the packages it pins.
use super::swift_package_resolved::{
    field_of, host_start, is_local, is_path, item_of, items_at, name_of, pin_of, swift_name,
    with_host_lowered, without_git, without_scheme, without_user, PinView,
};
use crate::item::{DependencyKind, PackageSource};
use crate::number::{decimal, law_decimal_reads_back};
use crate::parsers::json_scan::StringView;
use crate::text::{begins, ends, first, has_any, is_space, lowered, Class};
use crate::writing::{
    is_plain, is_plain_char, lemma_after, lemma_ahead, lemma_first_at, lemma_first_none,
    lemma_not_begins, lemma_plain, lemma_plain_char, lemma_trailing_at,
    lemma_trimmed_same,
};
use vstd::prelude::*;

verus! {

/// Whether a text is a scheme that a repository is reached by.
pub open spec fn is_scheme(s: Seq<char>) -> bool {
    s == "https://"@ || s == "http://"@ || s == "ssh://"@ || s == "git://"@ || s == "git+https://"@
        || s == "git+ssh://"@
}

/// Whether a text is a host.
pub open spec fn is_host(h: Seq<char>) -> bool {
    is_plain(h)
}

/// Whether a text is a path within a host, with neither a slash nor `.git` at its end.
pub open spec fn is_repository(p: Seq<char>) -> bool {
    &&& p.len() > 0
    &&& forall|i: int|
        0 <= i < p.len() ==> is_plain_char(#[trigger] p[i]) || p[i] == '/'
    &&& p.last() != '/'
    &&& !ends(p, ".git"@)
}

#[verifier::rlimit(60)]
proof fn lemma_schemes(scheme: Seq<char>, rest: Seq<char>)
    requires
        is_scheme(scheme),
    ensures
        without_scheme(scheme + rest) == (rest, true),
        scheme.len() > 0,
        !is_space(scheme[0]),
{
    reveal_strlit("https://");
    reveal_strlit("http://");
    reveal_strlit("ssh://");
    reveal_strlit("git://");
    reveal_strlit("git+https://");
    reveal_strlit("git+ssh://");
    lemma_after(scheme, rest);
    let s = scheme + rest;
    assert(forall|i: int| 0 <= i < scheme.len() ==> s[i] == scheme[i]);
    assert(s.skip(scheme.len() as int) =~= rest);
    if scheme == "https://"@ {
        lemma_not_begins(s, "git+https://"@, 0);
        lemma_not_begins(s, "git+ssh://"@, 0);
    } else if scheme == "http://"@ {
        lemma_not_begins(s, "git+https://"@, 0);
        lemma_not_begins(s, "git+ssh://"@, 0);
        assert(s[4] == ':');
        lemma_not_begins(s, "https://"@, 4);
    } else if scheme == "ssh://"@ {
        lemma_not_begins(s, "git+https://"@, 0);
        lemma_not_begins(s, "git+ssh://"@, 0);
        lemma_not_begins(s, "https://"@, 0);
        lemma_not_begins(s, "http://"@, 0);
    } else if scheme == "git://"@ {
        assert(s[3] == ':');
        lemma_not_begins(s, "git+https://"@, 3);
        lemma_not_begins(s, "git+ssh://"@, 3);
        lemma_not_begins(s, "https://"@, 0);
        lemma_not_begins(s, "http://"@, 0);
        lemma_not_begins(s, "ssh://"@, 0);
    } else if scheme == "git+ssh://"@ {
        assert(s[4] == 's');
        lemma_not_begins(s, "git+https://"@, 4);
    }
}

/// A host and a path, with what may follow them.
#[verifier::rlimit(60)]
proof fn lemma_host_and_path(host: Seq<char>, path: Seq<char>, has_scheme: bool)
    requires
        is_host(host),
        is_repository(path),
    ensures
        ({
            let s = host + "/"@ + path;
            &&& with_host_lowered(s, has_scheme) == lowered(host) + "/"@ + path
            &&& without_user(s) == s
            &&& without_git(s) == s
            &&& without_git(s + ".git"@) == s
            &&& without_git(s + "/"@) == s
            &&& without_user(s + ".git"@) == s + ".git"@
            &&& without_user(s + "/"@) == s + "/"@
        }),
{
    reveal_strlit("/");
    reveal_strlit("[");
    reveal_strlit(".git");
    assert("/"@ =~= seq!['/']);
    let none = Seq::<char>::empty();
    let s = host + "/"@ + path;
    let n = host.len() as int;
    lemma_plain(host);
    assert(is_plain_char(host[0]));
    lemma_plain_char(host[0]);
    assert forall|i: int| 0 <= i < s.len() implies #[trigger] s[i] != '@' && s[i] != ':' by {
        if i < n {
            assert(s[i] == host[i]);
            lemma_plain_char(host[i]);
        } else if i > n {
            assert(s[i] == path[i - n - 1]);
            if s[i] != '/' {
                lemma_plain_char(path[i - n - 1]);
            }
        }
    }
    assert forall|i: int| 0 <= i < n implies #[trigger] host[i] != '/' by {
        lemma_plain_char(host[i]);
    }
    // The authority.
    assert(s[0] == host[0]);
    lemma_not_begins(s, "["@, 0);
    assert(host_start(s) == 0);
    assert(s.skip(0) =~= s);
    assert(!has_any(host, Class::Is('/')));
    lemma_first_at(host, '/', path, Class::Is('/'));
    assert(!has_any(s, Class::Is(':')));
    lemma_first_none(s, Class::Is(':'));
    assert(s.take(n) =~= host);
    assert(s.skip(n + 1) =~= path);
    // No user.
    assert(!has_any(s, Class::Is('@')));
    lemma_first_none(s, Class::Is('@'));
    let g = s + ".git"@;
    let t = s + "/"@;
    assert forall|i: int| 0 <= i < g.len() implies #[trigger] g[i] != '@' by {
        if i < s.len() {
            assert(g[i] == s[i]);
        }
    }
    assert forall|i: int| 0 <= i < t.len() implies #[trigger] t[i] != '@' by {
        if i < s.len() {
            assert(t[i] == s[i]);
        }
    }
    assert(!has_any(g, Class::Is('@')) && !has_any(t, Class::Is('@')));
    lemma_first_none(g, Class::Is('@'));
    lemma_first_none(t, Class::Is('@'));
    // What ends them.
    assert(s.last() == path.last());
    lemma_trailing_at(s, none, Class::Is('/'));
    assert(s + none =~= s);
    lemma_trailing_at(s, "/"@, Class::Is('/'));
    assert(g.last() == 't');
    lemma_trailing_at(g, none, Class::Is('/'));
    assert(g + none =~= g);
    lemma_ahead(s, ".git"@);
    if ends(s, ".git"@) {
        let e = s.skip(s.len() - 4);
        assert(e[0] == '.' && e[1] == 'g' && e[2] == 'i' && e[3] == 't');
        assert(s[s.len() - 4] == '.' && s[s.len() - 3] == 'g' && s[s.len() - 2] == 'i' && s[s.len()
            - 1] == 't');
        assert(s[n] == '/');
        if path.len() < 4 {
            assert(s[n] == e[n - (s.len() - 4)]);
        } else {
            assert(path.skip(path.len() - 4) =~= e);
        }
    }
}

/// A repository has one name, its host in small letters and its path as it is, whatever
/// the scheme is, and with or without a `.git` or a slash at its end.
#[verifier::rlimit(60)]
pub proof fn law_swift_names(scheme: Seq<char>, host: Seq<char>, path: Seq<char>)
    requires
        is_scheme(scheme),
        is_host(host),
        is_repository(path),
    ensures
        swift_name(scheme + (host + "/"@ + path)) == lowered(host) + "/"@ + path,
        swift_name(scheme + (host + "/"@ + path + ".git"@)) == lowered(host) + "/"@ + path,
        swift_name(scheme + (host + "/"@ + path + "/"@)) == lowered(host) + "/"@ + path,
{
    reveal_strlit("/");
    reveal_strlit(".git");
    let s = host + "/"@ + path;
    lemma_schemes(scheme, s);
    lemma_schemes(scheme, s + ".git"@);
    lemma_schemes(scheme, s + "/"@);
    lemma_host_and_path(host, path, true);
    assert(is_plain_char(path[path.len() - 1]) || path[path.len() - 1] == '/');
    lemma_plain_char(path.last());
    let (a, b, c) = (scheme + s, scheme + (s + ".git"@), scheme + (s + "/"@));
    assert(a[0] == scheme[0] && b[0] == scheme[0] && c[0] == scheme[0]);
    assert(a.last() == path.last() && b.last() == 't' && c.last() == '/');
    lemma_trimmed_same(a);
    lemma_trimmed_same(b);
    lemma_trimmed_same(c);
}

/// A user before an `@` is no scheme.
#[verifier::rlimit(60)]
proof fn lemma_no_scheme(user: Seq<char>, rest: Seq<char>)
    requires
        is_plain(user),
    ensures
        without_scheme(user + seq!['@'] + rest) == (user + seq!['@'] + rest, false),
{
    reveal_strlit("https://");
    reveal_strlit("http://");
    reveal_strlit("ssh://");
    reveal_strlit("git://");
    reveal_strlit("git+https://");
    reveal_strlit("git+ssh://");
    lemma_not_scheme(user, rest, "https://"@, 5);
    lemma_not_scheme(user, rest, "http://"@, 4);
    lemma_not_scheme(user, rest, "ssh://"@, 3);
    lemma_not_scheme(user, rest, "git://"@, 3);
    lemma_not_scheme(user, rest, "git+https://"@, 9);
    lemma_not_scheme(user, rest, "git+ssh://"@, 7);
}

#[verifier::rlimit(60)]
proof fn lemma_not_scheme(user: Seq<char>, rest: Seq<char>, scheme: Seq<char>, colon: int)
    requires
        is_plain(user),
        0 <= colon < scheme.len(),
        scheme[colon] == ':',
        forall|i: int| 0 <= i < scheme.len() ==> #[trigger] scheme[i] != '@',
    ensures
        !begins(user + seq!['@'] + rest, scheme),
{
    let s = user + seq!['@'] + rest;
    let n = user.len() as int;
    assert(s[n] == '@');
    if n < scheme.len() {
        lemma_not_begins(s, scheme, n);
    } else {
        assert(s[colon] == user[colon]);
        assert(is_plain_char(user[colon]));
        lemma_plain_char(user[colon]);
        lemma_not_begins(s, scheme, colon);
    }
}

/// The user and the colon of an `scp`-like location are no part of the name either.
#[verifier::rlimit(60)]
pub proof fn law_swift_scp_name(user: Seq<char>, host: Seq<char>, path: Seq<char>)
    requires
        is_plain(user),
        is_host(host),
        is_repository(path),
    ensures
        swift_name(user + "@"@ + host + ":"@ + path) == lowered(host) + "/"@ + path,
{
    reveal_strlit("@");
    reveal_strlit(":");
    reveal_strlit("/");
    reveal_strlit("[");
    reveal_strlit(".git");
    assert("@"@ =~= seq!['@']);
    assert(":"@ =~= seq![':']);
    assert("/"@ =~= seq!['/']);
    let none = Seq::<char>::empty();
    let s = host + ":"@ + path;
    let full = user + "@"@ + host + ":"@ + path;
    let n = host.len() as int;
    lemma_plain(user);
    lemma_plain(host);
    assert(is_plain_char(user[0]) && is_plain_char(host[0]));
    lemma_plain_char(user[0]);
    lemma_plain_char(host[0]);
    assert(is_plain_char(path[path.len() - 1]) || path[path.len() - 1] == '/');
    lemma_plain_char(path.last());
    assert(full =~= user + seq!['@'] + s);
    lemma_no_scheme(user, s);
    assert(full[0] == user[0] && full.last() == path.last());
    lemma_trimmed_same(full);
    lemma_first_at(user, '@', s, Class::Is('@'));
    assert forall|i: int| 0 <= i < user.len() implies #[trigger] user[i] != '/' by {
        lemma_plain_char(user[i]);
    }
    assert(full.take(user.len() as int) =~= user);
    assert(full.skip(user.len() as int + 1) =~= s);
    assert(without_user(full) == s);
    assert(s.last() == path.last());
    lemma_trailing_at(s, none, Class::Is('/'));
    assert(s + none =~= s);
    if ends(s, ".git"@) {
        let e = s.skip(s.len() - 4);
        assert(e[0] == '.' && e[1] == 'g' && e[2] == 'i' && e[3] == 't');
        assert(s[n] == ':');
        if path.len() < 4 {
            assert(s[n] == e[n - (s.len() - 4)]);
        } else {
            assert(path.skip(path.len() - 4) =~= e);
        }
    }
    assert(without_git(s) == s);
    assert(s[0] == host[0]);
    lemma_not_begins(s, "["@, 0);
    assert(s.skip(0) =~= s);
    assert forall|i: int| 0 <= i < n implies #[trigger] host[i] != '/' && host[i] != ':' by {
        lemma_plain_char(host[i]);
    }
    assert(!has_any(host, Class::Is(':')));
    lemma_first_at(host, ':', path, Class::Is(':'));
    crate::text::lemma_first(s, Class::Is('/'));
    let slash = first(s, Class::Is('/'));
    if slash <= n {
        if slash < n {
            assert(s[slash] == host[slash]);
        } else {
            assert(s[n] == ':');
        }
    }
    assert(s.take(n) =~= host);
    assert(s.skip(n + 1) =~= path);
}

/// The user and the port of a URL are no part of the name.
pub proof fn law_swift_user_and_port(
    scheme: Seq<char>,
    user: Seq<char>,
    host: Seq<char>,
    port: u64,
    path: Seq<char>,
)
    requires
        is_scheme(scheme),
        is_plain(user),
        is_host(host),
        is_repository(path),
    ensures
        swift_name(scheme + (user + "@"@ + (host + "/"@ + path))) == lowered(host) + "/"@ + path,
        swift_name(scheme + (host + ":"@ + decimal(port as nat) + "/"@ + path)) == lowered(host)
            + "/"@ + path,
{
    lemma_with_user(scheme, user, host, path);
    lemma_with_port(scheme, host, port, path);
}

#[verifier::rlimit(60)]
proof fn lemma_with_user(scheme: Seq<char>, user: Seq<char>, host: Seq<char>, path: Seq<char>)
    requires
        is_scheme(scheme),
        is_plain(user),
        is_host(host),
        is_repository(path),
    ensures
        swift_name(scheme + (user + "@"@ + (host + "/"@ + path))) == lowered(host) + "/"@ + path,
{
    reveal_strlit("@");
    assert("@"@ =~= seq!['@']);
    let s = host + "/"@ + path;
    let rest = user + "@"@ + s;
    let full = scheme + rest;
    lemma_schemes(scheme, rest);
    lemma_host_and_path(host, path, true);
    assert(is_plain_char(path[path.len() - 1]) || path[path.len() - 1] == '/');
    lemma_plain_char(path.last());
    assert(full[0] == scheme[0] && full.last() == path.last());
    lemma_trimmed_same(full);
    lemma_plain(user);
    lemma_first_at(user, '@', s, Class::Is('@'));
    assert forall|i: int| 0 <= i < user.len() implies #[trigger] user[i] != '/' by {
        lemma_plain_char(user[i]);
    }
    assert(!has_any(user, Class::Is('/')));
    assert(rest.take(user.len() as int) =~= user);
    assert(rest.skip(user.len() as int + 1) =~= s);
}

#[verifier::rlimit(60)]
proof fn lemma_with_port(scheme: Seq<char>, host: Seq<char>, port: u64, path: Seq<char>)
    requires
        is_scheme(scheme),
        is_host(host),
        is_repository(path),
    ensures
        swift_name(scheme + (host + ":"@ + decimal(port as nat) + "/"@ + path)) == lowered(host)
            + "/"@ + path,
{
    reveal_strlit(":");
    reveal_strlit("/");
    assert(":"@ =~= seq![':']);
    assert("/"@ =~= seq!['/']);
    let none = Seq::<char>::empty();
    let d = decimal(port as nat);
    let authority = host + ":"@ + d;
    let s = authority + "/"@ + path;
    let full = scheme + s;
    lemma_schemes(scheme, s);
    law_decimal_reads_back(port as nat);
    assert(is_plain_char(path[path.len() - 1]) || path[path.len() - 1] == '/');
    lemma_plain_char(path.last());
    assert(full[0] == scheme[0] && full.last() == path.last());
    lemma_trimmed_same(full);
    let n = host.len() as int;
    let m = authority.len() as int;
    assert forall|i: int| 0 <= i < m implies #[trigger] authority[i] != '/' && authority[i]
        != '@' by {
        if i < n {
            assert(authority[i] == host[i]);
            lemma_plain_char(host[i]);
        } else if i > n {
            assert(authority[i] == d[i - n - 1]);
            assert(Class::Digit.has(d[i - n - 1]));
        }
    }
    assert forall|i: int| 0 <= i < s.len() implies #[trigger] s[i] != '@' by {
        if i < m {
            assert(s[i] == authority[i]);
        } else if i > m {
            assert(s[i] == path[i - m - 1]);
            if s[i] != '/' {
                lemma_plain_char(path[i - m - 1]);
            }
        }
    }
    assert(!has_any(s, Class::Is('@')));
    lemma_first_none(s, Class::Is('@'));
    assert(without_user(s) == s);
    lemma_ending(authority, path);
    assert(without_git(s) == s);
    reveal_strlit("[");
    assert(is_plain_char(host[0]));
    lemma_plain_char(host[0]);
    assert(s[0] == host[0]);
    lemma_not_begins(s, "["@, 0);
    assert(s.skip(0) =~= s);
    assert(!has_any(authority, Class::Is('/')));
    lemma_first_at(authority, '/', path, Class::Is('/'));
    assert forall|i: int| 0 <= i < n implies #[trigger] host[i] != ':' by {
        lemma_plain_char(host[i]);
    }
    assert(!has_any(host, Class::Is(':')));
    assert(s =~= host + seq![':'] + (d + "/"@ + path));
    lemma_first_at(host, ':', d + "/"@ + path, Class::Is(':'));
    assert(s.take(n) =~= host);
    assert(s.skip(m + 1) =~= path);
}

/// A path that ends with neither a slash nor `.git` makes a name that does not either.
#[verifier::rlimit(60)]
proof fn lemma_ending(head: Seq<char>, path: Seq<char>)
    requires
        is_repository(path),
    ensures
        without_git(head + "/"@ + path) == head + "/"@ + path,
{
    reveal_strlit("/");
    reveal_strlit(".git");
    let none = Seq::<char>::empty();
    let s = head + "/"@ + path;
    let n = head.len() as int;
    assert(s.last() == path.last());
    lemma_trailing_at(s, none, Class::Is('/'));
    assert(s + none =~= s);
    if ends(s, ".git"@) {
        let e = s.skip(s.len() - 4);
        assert(e[0] == '.' && e[1] == 'g' && e[2] == 'i' && e[3] == 't');
        assert(s[n] == '/');
        if path.len() < 4 {
            assert(s[n] == e[n - (s.len() - 4)]);
        } else {
            assert(path.skip(path.len() - 4) =~= e);
        }
    }
}

/// A pin at a version is locked at it; one at a branch or revision is a git dependency at
/// that; a local one is local, under its identity; and a remote one goes by its location.
pub proof fn law_pins(pin: PinView, name: Seq<char>)
    requires
        name_of(pin) == Some(name),
    ensures
        ({
            item_of(pin) matches Some(i) && {
                &&& i.name == name
                &&& i.kind == DependencyKind::Indirect
                &&& is_local(pin) ==> i.source == PackageSource::Local && i.locked_version is None
                &&& !is_local(pin) ==> (pin.version matches Some(v) ==> i.source
                    == PackageSource::Locked && i.locked_version == Some(v) && i.version_constraint
                    == v)
                &&& !is_local(pin) && pin.version is None ==> i.source == PackageSource::Git
                    && i.locked_version is None
                &&& !is_local(pin) && pin.version is None ==> (pin.branch matches Some(b)
                    ==> i.version_constraint == b)
                &&& !is_local(pin) && pin.version is None && pin.branch is None ==> (
                pin.revision matches Some(r) ==> i.version_constraint == r)
            }
        }),
        is_local(pin) ==> pin.identity == Some(name),
        !is_local(pin) ==> (pin.location matches Some(l) ==> swift_name(l).len() > 0 ==> name
            == swift_name(l)),
        name_of(pin) is None ==> item_of(pin) is None,
{
}

/// A pin is local by its kind, or where its location is a file or a path.
pub proof fn law_local_pins(pin: PinView, rest: Seq<char>)
    requires
        is_plain(rest),
    ensures
        pin.kind == Some("fileSystem"@) ==> is_local(pin),
        pin.kind == Some("localSourceControl"@) ==> is_local(pin),
        is_path("file://"@ + rest),
        is_path("/"@ + rest),
        is_path("./"@ + rest),
        is_path("../"@ + rest),
        is_path("~/"@ + rest),
        !is_path("https://"@ + rest),
{
    lemma_local_path("file://"@, rest);
    lemma_local_path("/"@, rest);
    lemma_local_path("./"@, rest);
    lemma_local_path("../"@, rest);
    lemma_local_path("~/"@, rest);
    lemma_remote_path(rest);
}

#[verifier::rlimit(60)]
proof fn lemma_local_path(prefix: Seq<char>, rest: Seq<char>)
    requires
        is_plain(rest),
        prefix == "file://"@ || prefix == "/"@ || prefix == "./"@ || prefix == "../"@ || prefix
            == "~/"@,
    ensures
        is_path(prefix + rest),
{
    reveal_strlit("file://");
    reveal_strlit("/");
    reveal_strlit("./");
    reveal_strlit("../");
    reveal_strlit("~/");
    reveal_strlit(".");
    reveal_strlit("~");
    let s = prefix + rest;
    assert(is_plain_char(rest[rest.len() - 1]));
    lemma_plain_char(rest.last());
    assert(s[0] == prefix[0] && s.last() == rest.last());
    lemma_trimmed_same(s);
    lemma_after(prefix, rest);
    if prefix == "./"@ || prefix == "../"@ {
        assert(s.take(1) =~= "."@);
    }
    if prefix == "~/"@ {
        assert(s.take(1) =~= "~"@);
    }
}

#[verifier::rlimit(60)]
proof fn lemma_remote_path(rest: Seq<char>)
    requires
        is_plain(rest),
    ensures
        !is_path("https://"@ + rest),
{
    reveal_strlit("file://");
    reveal_strlit("/");
    reveal_strlit(".");
    reveal_strlit("~");
    reveal_strlit("https://");
    let s = "https://"@ + rest;
    assert(is_plain_char(rest[rest.len() - 1]));
    lemma_plain_char(rest.last());
    assert(s[0] == 'h' && s.last() == rest.last());
    lemma_trimmed_same(s);
    lemma_not_begins(s, "file://"@, 0);
    lemma_not_begins(s, "/"@, 0);
    lemma_not_begins(s, "."@, 0);
    lemma_not_begins(s, "~"@, 0);
}

/// Where the fields of a pin stand: under `pins` and the pin's index, in the old layout
/// within `object`.
#[verifier::rlimit(60)]
pub proof fn law_pin_fields(index: u64, field: Seq<char>)
    ensures
        field_of(seq!["pins"@, decimal(index as nat), field]) == Some((index, seq![field])),
        field_of(seq!["object"@, "pins"@, decimal(index as nat), field]) == Some(
            (index, seq![field]),
        ),
        field_of(seq!["pins"@, decimal(index as nat), "state"@, field]) == Some(
            (index, seq!["state"@, field]),
        ),
        field_of(seq!["version"@]) is None,
{
    law_decimal_reads_back(index as nat);
    reveal_strlit("pins");
    reveal_strlit("object");
    reveal_strlit("version");
    assert("pins"@.len() == 4 && "object"@.len() == 6 && "version"@.len() == 7);
    let a = seq!["pins"@, decimal(index as nat), field];
    let b = seq!["object"@, "pins"@, decimal(index as nat), field];
    let c = seq!["pins"@, decimal(index as nat), "state"@, field];
    assert(a.skip(2) =~= seq![field]);
    assert(b.skip(3) =~= seq![field]);
    assert(c.skip(2) =~= seq!["state"@, field]);
}

/// The fields of a pin: what is read under each name, the last value where there are
/// several.
pub proof fn law_pin_values(found: Seq<StringView>, v: StringView, index: u64)
    ensures
        ({
            let p = pin_of(found, index);
            let q = pin_of(found.push(v), index);
            let at = field_of(v.path);
            &&& at == Some((index, seq!["identity"@])) || at == Some((index, seq!["package"@]))
                ==> q.identity == Some(v.value)
            &&& at == Some((index, seq!["location"@])) || at == Some((index, seq!["repositoryURL"@]))
                ==> q.location == Some(v.value)
            &&& at == Some((index, seq!["kind"@])) ==> q.kind == Some(v.value)
            &&& at == Some((index, seq!["state"@, "version"@])) ==> q.version == Some(v.value)
            &&& at == Some((index, seq!["state"@, "branch"@])) ==> q.branch == Some(v.value)
            &&& at == Some((index, seq!["state"@, "revision"@])) ==> q.revision == Some(v.value)
            &&& at is None ==> q == p
        }),
{
    assert(found.push(v).drop_last() =~= found);
}

/// One more pin adds its item, if it has a name, after the others.
pub proof fn law_pins_one_more(found: Seq<StringView>, indices: Seq<u64>, index: u64)
    ensures
        items_at(found, indices.push(index)) == match item_of(pin_of(found, index)) {
            Some(i) => items_at(found, indices).push(i),
            None => items_at(found, indices),
        },
{
    assert(indices.push(index).drop_last() =~= indices);
}

} // verus!
