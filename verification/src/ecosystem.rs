//! The package ecosystems this crate understands.
use crate::split::{text2, text3, text5};
use crate::text::{chars_of, string_of};
use vstd::prelude::*;

verus! {

/// A package ecosystem.
///
/// Most variants are wired end-to-end: a reader, a registry, and an OSV mapping.
/// [`Ecosystem::has_registry`] names the exception: an ecosystem that publishes no
/// registry has an OSV mapping and nothing to compare a version against.
#[derive(Debug, Clone, Copy, PartialEq, Eq, Hash, Structural)]
#[non_exhaustive]
pub enum Ecosystem {
    /// Rust crates.
    Rust,
    /// Go modules.
    Go,
    /// npm packages.
    Npm,
    /// Python distributions.
    Python,
    /// Composer packages.
    Php,
    /// Dart packages.
    Dart,
    /// NuGet packages.
    CSharp,
    /// Hex packages.
    Elixir,
    /// Maven artifacts.
    Jvm,
    /// Swift packages, identified by their git URL.
    ///
    /// The one ecosystem here with no registry: versions are discovered by
    /// enumerating a repository's git tags.
    Swift,
}

/// A coordinate with its colons written as slashes.
pub open spec fn as_directories(name: Seq<char>) -> Seq<char> {
    name.map_values(
        |c: char|
            if c == ':' {
                '/'
            } else {
                c
            },
    )
}

/// Write the colons of a coordinate as slashes.
fn to_directories(name: &str) -> (r: String)
    ensures
        r@ == as_directories(name@),
{
    let chars = chars_of(name);
    let mut out: Vec<char> = Vec::new();
    let mut i: usize = 0;
    while i < chars.len()
        invariant
            i <= chars.len(),
            chars@ == name@,
            out@.len() == i,
            forall|j: int| 0 <= j < i ==> #[trigger] out@[j] == as_directories(name@)[j],
        decreases chars.len() - i,
    {
        let c = chars[i];
        out.push(
            if c == ':' {
                '/'
            } else {
                c
            },
        );
        i = i + 1;
    }
    assert(out@ =~= as_directories(name@));
    string_of(out.as_slice())
}

impl Ecosystem {
    /// The `package.ecosystem` string of an OSV query.
    pub open spec fn osv(self) -> &'static str {
        match self {
            Ecosystem::Rust => "crates.io",
            Ecosystem::Go => "Go",
            Ecosystem::Npm => "npm",
            Ecosystem::Python => "PyPI",
            Ecosystem::Php => "Packagist",
            Ecosystem::Dart => "Pub",
            Ecosystem::CSharp => "NuGet",
            Ecosystem::Elixir => "Hex",
            Ecosystem::Jvm => "Maven",
            Ecosystem::Swift => "SwiftURL",
        }
    }

    /// The name shown to people.
    pub open spec fn shown(self) -> &'static str {
        match self {
            Ecosystem::Rust => "Rust",
            Ecosystem::Go => "Go",
            Ecosystem::Npm => "npm",
            Ecosystem::Python => "Python",
            Ecosystem::Php => "PHP",
            Ecosystem::Dart => "Dart",
            Ecosystem::CSharp => "C#",
            Ecosystem::Elixir => "Elixir",
            Ecosystem::Jvm => "JVM",
            Ecosystem::Swift => "Swift",
        }
    }

    /// The registry fetched from by default; empty for an ecosystem without one.
    pub open spec fn registry(self) -> &'static str {
        match self {
            Ecosystem::Rust => "https://index.crates.io",
            Ecosystem::Go => "https://proxy.golang.org",
            Ecosystem::Npm => "https://registry.npmjs.org",
            Ecosystem::Python => "https://pypi.org/pypi",
            Ecosystem::Php => "https://repo.packagist.org",
            Ecosystem::Dart => "https://pub.dev",
            Ecosystem::CSharp => "https://api.nuget.org",
            Ecosystem::Elixir => "https://hex.pm",
            Ecosystem::Jvm => "https://repo1.maven.org/maven2",
            Ecosystem::Swift => "",
        }
    }

    /// How a page spells the name of a package.
    pub open spec fn path_of(self, name: Seq<char>) -> Seq<char> {
        if self == Ecosystem::Jvm {
            as_directories(name)
        } else {
            name
        }
    }

    /// The page of a package.
    pub open spec fn page(self, name: Seq<char>) -> Seq<char> {
        match self {
            Ecosystem::Rust => "https://crates.io/crates/"@ + name,
            Ecosystem::Go => "https://pkg.go.dev/"@ + name,
            Ecosystem::Npm => "https://www.npmjs.com/package/"@ + name,
            Ecosystem::Python => "https://pypi.org/project/"@ + name + "/"@,
            Ecosystem::Php => "https://packagist.org/packages/"@ + name,
            Ecosystem::Dart => "https://pub.dev/packages/"@ + name,
            Ecosystem::CSharp => "https://www.nuget.org/packages/"@ + name,
            Ecosystem::Elixir => "https://hex.pm/packages/"@ + name,
            Ecosystem::Jvm => "https://central.sonatype.com/artifact/"@ + as_directories(name),
            Ecosystem::Swift => "https://"@ + name,
        }
    }

    /// The page of one version of a package: the package's own where there is none.
    pub open spec fn version_page(self, name: Seq<char>, version: Seq<char>) -> Seq<char> {
        match self {
            Ecosystem::Rust => "https://crates.io/crates/"@ + name + "/"@ + version + ""@,
            Ecosystem::Go => "https://pkg.go.dev/"@ + name + "@"@ + version + ""@,
            Ecosystem::Npm => "https://www.npmjs.com/package/"@ + name + "/v/"@ + version + ""@,
            Ecosystem::Python => "https://pypi.org/project/"@ + name + "/"@ + version + "/"@,
            Ecosystem::Dart => "https://pub.dev/packages/"@ + name + "/versions/"@ + version + ""@,
            Ecosystem::CSharp => "https://www.nuget.org/packages/"@ + name + "/"@ + version + ""@,
            Ecosystem::Elixir => "https://hex.pm/packages/"@ + name + "/"@ + version + ""@,
            Ecosystem::Jvm => "https://central.sonatype.com/artifact/"@ + as_directories(name)
                + "/"@ + version + ""@,
            Ecosystem::Php => self.page(name),
            Ecosystem::Swift => self.page(name),
        }
    }

    /// The documentation page of one version, where the ecosystem builds one.
    pub open spec fn docs_page(self, name: Seq<char>, version: Seq<char>) -> Option<Seq<char>> {
        match self {
            Ecosystem::Rust => Some("https://docs.rs/"@ + name + "/"@ + version + ""@),
            Ecosystem::Elixir => Some("https://hexdocs.pm/"@ + name + "/"@ + version + ""@),
            Ecosystem::Dart => Some(
                "https://pub.dev/documentation/"@ + name + "/"@ + version + "/"@,
            ),
            _ => None,
        }
    }

    /// The `package.ecosystem` string used in OSV vulnerability queries.
    #[must_use]
    pub fn osv_name(self) -> (r: &'static str)
        ensures
            r == self.osv(),
    {
        match self {
            Ecosystem::Rust => "crates.io",
            Ecosystem::Go => "Go",
            Ecosystem::Npm => "npm",
            Ecosystem::Python => "PyPI",
            Ecosystem::Php => "Packagist",
            Ecosystem::Dart => "Pub",
            Ecosystem::CSharp => "NuGet",
            Ecosystem::Elixir => "Hex",
            Ecosystem::Jvm => "Maven",
            // OSV keys its Swift advisories by repository URL, not by a package
            // name any registry issued.
            Ecosystem::Swift => "SwiftURL",
        }
    }

    /// Whether this ecosystem publishes a registry a version can be compared
    /// against.
    ///
    /// `false` for exactly one ecosystem, [`Swift`](Self::Swift): a fact about the
    /// ecosystem rather than about any configuration. A `false` here means
    /// [`default_registry`](Self::default_registry) is empty and nothing will ever be
    /// fetched.
    #[must_use]
    pub fn has_registry(self) -> (r: bool)
        ensures
            r == (self != Ecosystem::Swift),
            r <==> self.registry()@.len() > 0,
    {
        proof {
            self.law_registry();
        }
        !matches!(self, Ecosystem::Swift)
    }

    /// A human-readable name for display.
    #[must_use]
    pub fn display_name(self) -> (r: &'static str)
        ensures
            r == self.shown(),
    {
        match self {
            Ecosystem::Rust => "Rust",
            Ecosystem::Go => "Go",
            Ecosystem::Npm => "npm",
            Ecosystem::Python => "Python",
            Ecosystem::Php => "PHP",
            Ecosystem::Dart => "Dart",
            Ecosystem::CSharp => "C#",
            Ecosystem::Elixir => "Elixir",
            Ecosystem::Jvm => "JVM",
            Ecosystem::Swift => "Swift",
        }
    }

    /// The default registry base URL for the ecosystem, or `""` for an ecosystem
    /// that has none.
    #[must_use]
    pub fn default_registry(self) -> (r: &'static str)
        ensures
            r == self.registry(),
    {
        match self {
            Ecosystem::Rust => "https://index.crates.io",
            Ecosystem::Go => "https://proxy.golang.org",
            Ecosystem::Npm => "https://registry.npmjs.org",
            Ecosystem::Python => "https://pypi.org/pypi",
            Ecosystem::Php => "https://repo.packagist.org",
            Ecosystem::Dart => "https://pub.dev",
            Ecosystem::CSharp => "https://api.nuget.org",
            Ecosystem::Elixir => "https://hex.pm",
            Ecosystem::Jvm => "https://repo1.maven.org/maven2",
            Ecosystem::Swift => "",
        }
    }

    /// The page a person would open to read about `name`.
    ///
    /// Distinct from [`Self::default_registry`], which is the API fetched from. It is
    /// derived rather than fetched, so it is available for a package nothing has been
    /// looked up for yet. `name` is used verbatim, except that a Maven coordinate is
    /// spelled with directories. The default registry is assumed.
    #[must_use]
    pub fn package_url(self, name: &str) -> (r: String)
        ensures
            r@ == self.page(name@),
    {
        match self {
            Ecosystem::Rust => text2("https://crates.io/crates/", name),
            Ecosystem::Go => text2("https://pkg.go.dev/", name),
            Ecosystem::Npm => text2("https://www.npmjs.com/package/", name),
            Ecosystem::Python => text3("https://pypi.org/project/", name, "/"),
            Ecosystem::Php => text2("https://packagist.org/packages/", name),
            Ecosystem::Dart => text2("https://pub.dev/packages/", name),
            Ecosystem::CSharp => text2("https://www.nuget.org/packages/", name),
            Ecosystem::Elixir => text2("https://hex.pm/packages/", name),
            Ecosystem::Jvm => text2(
                "https://central.sonatype.com/artifact/",
                to_directories(name).as_str(),
            ),
            Ecosystem::Swift => text2("https://", name),
        }
    }

    /// The page for one specific published version of `name`.
    ///
    /// Falls back to [`Self::package_url`] where the registry publishes no
    /// per-version page, so a caller always has somewhere to send the reader.
    #[must_use]
    pub fn version_url(self, name: &str, version: &str) -> (r: String)
        ensures
            r@ == self.version_page(name@, version@),
    {
        match self {
            Ecosystem::Rust => text5("https://crates.io/crates/", name, "/", version, ""),
            Ecosystem::Go => text5("https://pkg.go.dev/", name, "@", version, ""),
            Ecosystem::Npm => text5("https://www.npmjs.com/package/", name, "/v/", version, ""),
            Ecosystem::Python => text5("https://pypi.org/project/", name, "/", version, "/"),
            Ecosystem::Dart => text5(
                "https://pub.dev/packages/",
                name,
                "/versions/",
                version,
                "",
            ),
            Ecosystem::CSharp => text5("https://www.nuget.org/packages/", name, "/", version, ""),
            Ecosystem::Elixir => text5("https://hex.pm/packages/", name, "/", version, ""),
            Ecosystem::Jvm => text5(
                "https://central.sonatype.com/artifact/",
                to_directories(name).as_str(),
                "/",
                version,
                "",
            ),
            // Packagist renders every version on the package page itself.
            Ecosystem::Php => self.package_url(name),
            // A Swift version is a git tag whose spelling is not derivable from the
            // version. The repository is what can be named truthfully.
            Ecosystem::Swift => self.package_url(name),
        }
    }

    /// Where this ecosystem builds documentation for every package it publishes.
    ///
    /// `None` for the ecosystems with no such convention, where a package's
    /// documentation is wherever its author chose to put it.
    #[must_use]
    pub fn docs_url(self, name: &str, version: &str) -> (r: Option<String>)
        ensures
            crate::text::opt_string(r) == self.docs_page(name@, version@),
    {
        match self {
            Ecosystem::Rust => Some(text5("https://docs.rs/", name, "/", version, "")),
            Ecosystem::Elixir => Some(text5("https://hexdocs.pm/", name, "/", version, "")),
            Ecosystem::Dart => Some(
                text5("https://pub.dev/documentation/", name, "/", version, "/"),
            ),
            _ => None,
        }
    }

    /// Swift is the only ecosystem whose default registry is empty.
    pub proof fn law_registry(self)
        ensures
            self.registry()@.len() > 0 <==> self != Ecosystem::Swift,
    {
        reveal_strlit("https://index.crates.io");
        reveal_strlit("https://proxy.golang.org");
        reveal_strlit("https://registry.npmjs.org");
        reveal_strlit("https://pypi.org/pypi");
        reveal_strlit("https://repo.packagist.org");
        reveal_strlit("https://pub.dev");
        reveal_strlit("https://api.nuget.org");
        reveal_strlit("https://hex.pm");
        reveal_strlit("https://repo1.maven.org/maven2");
        reveal_strlit("");
    }

    /// Every page names the package it is about.
    pub proof fn law_page_names_package(self, name: Seq<char>)
        ensures
            exists|before: Seq<char>, after: Seq<char>|
                self.page(name) == #[trigger] (before + self.path_of(name) + after),
    {
        let shown = self.path_of(name);
        let n = self.page(name).len() - shown.len() - if self == Ecosystem::Python {
            "/"@.len()
        } else {
            0
        };
        let before = self.page(name).take(n);
        let after = self.page(name).skip(n + shown.len());
        assert(self.page(name) =~= before + shown + after);
    }

    /// Where a version has no page of its own, the package's page stands in.
    pub proof fn law_version_page_falls_back(self, name: Seq<char>, version: Seq<char>)
        requires
            self == Ecosystem::Php || self == Ecosystem::Swift,
        ensures
            self.version_page(name, version) == self.page(name),
    {
    }
}

} // verus!
