//! The decisions of the `tinys` command line: how trailing arguments split
//! into compiler flags and program arguments, how a file or package name
//! becomes a Cargo crate name, and the scratch Cargo package that backs one
//! `.sn` file (where it lives, what its `Cargo.toml` says, where the binary
//! lands). Running Cargo and touching the file system are the caller's part.

use vstd::prelude::*;
use vstd::slice::slice_subrange;
use crate::manifest::{
    cargo_sections_spec, crate_ident, crate_ident_exec, join_path, join_path_str, references_crate,
    references_crate_spec, search_panics_chars, starts_with, word_search_panics, Manifest,
    ManifestView,
};
use crate::text::{chars_of, is_ascii_alnum, is_digit, push_char, str_eq, string_of_range};

verus! {

/// Scanning trailing arguments from position `i`: `--release` sets the
/// flag, `--` ends the flags (and is dropped), another `--…` is an unknown
/// option; the first other argument starts the program's arguments.
pub open spec fn split_from(rest: Seq<Seq<char>>, i: int, release: bool) -> Result<(bool, int), Seq<char>>
    decreases rest.len() - i,
{
    if i < 0 || i >= rest.len() {
        Ok((release, i))
    } else if rest[i] == "--release"@ {
        split_from(rest, i + 1, true)
    } else if rest[i] == "--"@ {
        Ok((release, i + 1))
    } else if starts_with(rest[i], "--"@) {
        Err(rest[i])
    } else {
        Ok((release, i))
    }
}

pub open spec fn arg_views(rest: Seq<String>) -> Seq<Seq<char>> {
    rest.map_values(|s: String| s@)
}

/// Split trailing CLI arguments into compiler flags and program arguments.
///
/// Flags come first; everything after them (or after a `--` separator) is passed
/// to the compiled program by `tinys run`.
pub fn split_args(rest: &[String]) -> (r: Result<(bool, &[String]), String>)
    ensures
        match split_from(arg_views(rest@), 0, false) {
            Ok((release, k)) => r matches Ok((b, tail)) && b == release && 0 <= k <= rest@.len()
                && tail@ == rest@.subrange(k, rest@.len() as int),
            Err(flag) => r matches Err(f) && f@ == flag,
        },
{
    let ghost av = arg_views(rest@);
    let mut release = false;
    let mut i: usize = 0;
    while i < rest.len()
        invariant
            i <= rest@.len(),
            av == arg_views(rest@),
            split_from(av, 0, false) == split_from(av, i as int, release),
        decreases rest@.len() - i,
    {
        assert(av[i as int] == rest@[i as int]@);
        let a = rest[i].as_str();
        if str_eq(a, "--release") {
            release = true;
        } else if str_eq(a, "--") {
            let tail = slice_subrange(rest, i + 1, rest.len());
            return Ok((release, tail));
        } else if crate::text::starts_with_str(a, "--") {
            return Err(String::from_str(a));
        } else {
            let tail = slice_subrange(rest, i, rest.len());
            return Ok((release, tail));
        }
        i = i + 1;
    }
    let tail = slice_subrange(rest, i, rest.len());
    Ok((release, tail))
}

/// A file or package name as a Cargo crate name: characters other than ASCII
/// letters, digits and `-` become `_`; an empty name is `program`; a leading
/// digit or `-` gets a `_` before it.
pub open spec fn crate_name_spec(raw: Seq<char>) -> Seq<char> {
    let m = raw.map_values(|c: char| if is_ascii_alnum(c) || c == '-' { c } else { '_' });
    if m.len() == 0 {
        "program"@
    } else if is_digit(m[0]) || m[0] == '-' {
        seq!['_'] + m
    } else {
        m
    }
}

/// Turn a file or package name into a valid Cargo crate name.
pub fn crate_name(raw: &str) -> (r: String)
    ensures
        r@ == crate_name_spec(raw@),
{
    let cs = chars_of(raw);
    let ghost f = |c: char| if is_ascii_alnum(c) || c == '-' { c } else { '_' };
    let mut mapped: Vec<char> = Vec::new();
    let mut i: usize = 0;
    while i < cs.len()
        invariant
            i <= cs@.len(),
            f == (|c: char| if is_ascii_alnum(c) || c == '-' { c } else { '_' }),
            mapped@ == cs@.subrange(0, i as int).map_values(f),
        decreases cs@.len() - i,
    {
        let c = cs[i];
        let keep = ('a' <= c && c <= 'z') || ('A' <= c && c <= 'Z') || ('0' <= c && c <= '9') || c
            == '-';
        mapped.push(if keep { c } else { '_' });
        assert(cs@.subrange(0, i + 1).map_values(f) =~= cs@.subrange(0, i as int).map_values(f).push(
            f(cs@[i as int]),
        ));
        i = i + 1;
    }
    assert(cs@.subrange(0, cs@.len() as int) =~= cs@);
    if mapped.len() == 0 {
        return String::from_str("program");
    }
    let mut out = String::new();
    if ('0' <= mapped[0] && mapped[0] <= '9') || mapped[0] == '-' {
        push_char(&mut out, '_');
    }
    let rest = string_of_range(&mapped, 0, mapped.len());
    assert(mapped@.subrange(0, mapped@.len() as int) =~= mapped@);
    out.append(rest.as_str());
    out
}

/// A name Cargo accepts for a crate: ASCII letters, digits, `-` and `_`,
/// not empty and starting with neither a digit nor `-`.
pub open spec fn is_crate_name(s: Seq<char>) -> bool {
    &&& s.len() > 0
    &&& !is_digit(s[0])
    &&& s[0] != '-'
    &&& forall|i: int| 0 <= i < s.len() ==> is_ascii_alnum(#[trigger] s[i]) || s[i] == '-' || s[i] == '_'
}

/// Whatever a file or package is called, the crate gets a valid name.
pub proof fn law_crate_names_are_valid(raw: Seq<char>)
    ensures
        is_crate_name(crate_name_spec(raw)),
{
    reveal_strlit("program");
    let m = raw.map_values(|c: char| if is_ascii_alnum(c) || c == '-' { c } else { '_' });
    assert(forall|i: int| 0 <= i < m.len() ==> is_ascii_alnum(#[trigger] m[i]) || m[i] == '-' || m[i] == '_');
    if m.len() > 0 && (is_digit(m[0]) || m[0] == '-') {
        let r = seq!['_'] + m;
        assert forall|i: int| 0 <= i < r.len() implies is_ascii_alnum(#[trigger] r[i]) || r[i] == '-' || r[i] == '_' by {
            if i > 0 {
                assert(r[i] == m[i - 1]);
            }
        }
    }
}

/// A name that already is a valid crate name is kept as it is.
pub proof fn law_valid_crate_names_are_kept(raw: Seq<char>)
    requires
        is_crate_name(raw),
    ensures
        crate_name_spec(raw) == raw,
{
    let m = raw.map_values(|c: char| if is_ascii_alnum(c) || c == '-' { c } else { '_' });
    assert(m =~= raw);
}

/// The binary's name: a package's `src/main.sn` takes the package name;
/// anything else is named after its file.
pub open spec fn bin_name_spec(stem: Seq<char>, package_name: Option<Seq<char>>) -> Seq<char> {
    match package_name {
        Some(pkg) => if stem == "main"@ {
            crate_name_spec(pkg)
        } else {
            crate_name_spec(stem)
        },
        None => crate_name_spec(stem),
    }
}

pub fn bin_name_for(stem: &str, package_name: Option<&str>) -> (r: String)
    ensures
        r@ == bin_name_spec(
            stem@,
            match package_name {
                Some(p) => Some(p@),
                None => None,
            },
        ),
{
    match package_name {
        Some(pkg) => if str_eq(stem, "main") {
            crate_name(pkg)
        } else {
            crate_name(stem)
        },
        None => crate_name(stem),
    }
}

/// The scratch Cargo package that backs one `.sn` file.
pub struct Project {
    /// `<root>/target/tinys-generated/<stem>/`, holding `Cargo.toml` + `src/main.rs`.
    pub dir: String,
    /// Cargo's build directory, shared by every program in the package so that
    /// dependencies are compiled once.
    pub target_dir: String,
    pub bin_name: String,
    pub release: bool,
    /// The `.sn` file as the user spelled it, for diagnostics.
    pub source: String,
}

/// `<root>/target/tinys-generated`, where every generated package of a root lives.
pub open spec fn generated_dir(root: Seq<char>) -> Seq<char> {
    join_path(join_path(root, "target"@), "tinys-generated"@)
}

pub open spec fn profile_spec(release: bool) -> Seq<char> {
    if release {
        "release"@
    } else {
        "debug"@
    }
}

/// The first lines of a generated `Cargo.toml`: the package, its one binary,
/// and an empty workspace so that it stands alone.
pub open spec fn cargo_header(name: Seq<char>, version: Seq<char>, edition: Seq<char>) -> Seq<char> {
    "# Generated by tinys — this file is rewritten on every build.\n[package]\nname = \""@ + name
        + "\"\nversion = \""@ + version + "\"\nedition = \""@ + edition
        + "\"\n\n[[bin]]\nname = \""@ + name
        + "\"\npath = \"src/main.rs\"\n\n# Stand alone rather than joining a surrounding Cargo workspace.\n[workspace]\n"@
}

/// Whether each dependency of `m` is referenced by `rust`.
pub open spec fn referenced_flags(m: ManifestView, rust: Seq<char>) -> Seq<bool> {
    m.dependencies.map_values(|d: crate::manifest::DependencyView| references_crate_spec(rust, d.name))
}

/// The whole generated `Cargo.toml`: without a manifest, version `0.0.0` and
/// edition 2021; with one, its version and edition, then the tables of the
/// dependencies the program references and the pass-through sections.
pub open spec fn cargo_toml_spec(bin_name: Seq<char>, rust: Seq<char>, m: Option<ManifestView>) -> Seq<char> {
    match m {
        Some(m) => cargo_header(
            bin_name,
            match m.version {
                Some(v) => v,
                None => "0.0.0"@,
            },
            match m.edition {
                Some(e) => e,
                None => "2021"@,
            },
        ) + cargo_sections_spec(m, referenced_flags(m, rust)),
        None => cargo_header(bin_name, "0.0.0"@, "2021"@),
    }
}

/// Searching `rust` for each dependency of `m` stays inside characters.
pub open spec fn searchable(m: ManifestView, rust: Seq<char>) -> bool {
    forall|i: int|
        0 <= i < m.dependencies.len() ==> (crate_ident(#[trigger] m.dependencies[i].name).len() > 0
            ==> !word_search_panics(rust, crate_ident(m.dependencies[i].name)))
}

/// Whether `Project::cargo_toml` can search `rust` for every dependency of
/// `manifest`: where it cannot, the search would slice inside a character.
pub fn is_searchable(manifest: &Manifest, rust: &str) -> (r: bool)
    ensures
        r == searchable(manifest@, rust@),
{
    let t = chars_of(rust);
    let mut i: usize = 0;
    while i < manifest.dependencies.len()
        invariant
            i <= manifest@.dependencies.len(),
            t@ == rust@,
            forall|j: int|
                0 <= j < i ==> (crate_ident(#[trigger] manifest@.dependencies[j].name).len() > 0
                    ==> !word_search_panics(rust@, crate_ident(manifest@.dependencies[j].name))),
        decreases manifest@.dependencies.len() - i,
    {
        assert(manifest.dependencies@[i as int]@.name == manifest@.dependencies[i as int].name);
        let ident = crate_ident_exec(manifest.dependencies[i].name.as_str());
        if ident.len() > 0 && search_panics_chars(&t, &ident) {
            return false;
        }
        i = i + 1;
    }
    true
}

impl Project {
    /// The package for the `.sn` file `source` whose stem is `stem`, under the
    /// package root `root`.
    pub fn new(root: &str, stem: &str, bin_name: String, release: bool, source: &str) -> (p: Project)
        ensures
            p.dir@ == join_path(generated_dir(root@), stem@),
            p.target_dir@ == join_path(generated_dir(root@), "cargo-target"@),
            p.bin_name@ == bin_name@,
            p.release == release,
            p.source@ == source@,
    {
        let t = join_path_str(root, "target");
        let out = join_path_str(t.as_str(), "tinys-generated");
        Project {
            dir: join_path_str(out.as_str(), stem),
            target_dir: join_path_str(out.as_str(), "cargo-target"),
            bin_name,
            release,
            source: String::from_str(source),
        }
    }

    pub fn profile_dir(&self) -> (r: &'static str)
        ensures
            r@ == profile_spec(self.release),
    {
        if self.release {
            "release"
        } else {
            "debug"
        }
    }

    /// Where Cargo puts the binary.
    pub fn binary(&self) -> (r: String)
        ensures
            r@ == join_path(join_path(self.target_dir@, profile_spec(self.release)), self.bin_name@),
    {
        let d = join_path_str(self.target_dir.as_str(), self.profile_dir());
        join_path_str(d.as_str(), self.bin_name.as_str())
    }

    /// The generated `Cargo.toml` for the program whose Rust is `rust`.
    pub fn cargo_toml(&self, rust: &str, manifest: Option<&Manifest>) -> (r: String)
        requires
            manifest matches Some(m) ==> searchable(m@, rust@),
        ensures
            r@ == cargo_toml_spec(
                self.bin_name@,
                rust@,
                match manifest {
                    Some(m) => Some(m@),
                    None => None,
                },
            ),
    {
        let (version, edition) = match manifest {
            Some(m) => (
                match &m.package.version {
                    Some(v) => v.clone(),
                    None => String::from_str("0.0.0"),
                },
                match &m.package.edition {
                    Some(e) => e.clone(),
                    None => String::from_str("2021"),
                },
            ),
            None => (String::from_str("0.0.0"), String::from_str("2021")),
        };
        let mut toml = String::from_str("# Generated by tinys — this file is rewritten on every build.\n[package]\nname = \"");
        toml.append(self.bin_name.as_str());
        toml.append("\"\nversion = \"");
        toml.append(version.as_str());
        toml.append("\"\nedition = \"");
        toml.append(edition.as_str());
        toml.append("\"\n\n[[bin]]\nname = \"");
        toml.append(self.bin_name.as_str());
        toml.append(
            "\"\npath = \"src/main.rs\"\n\n# Stand alone rather than joining a surrounding Cargo workspace.\n[workspace]\n",
        );
        match manifest {
            Some(m) => {
                let mut flags: Vec<bool> = Vec::new();
                let mut i: usize = 0;
                while i < m.dependencies.len()
                    invariant
                        i <= m@.dependencies.len(),
                        searchable(m@, rust@),
                        flags@ == referenced_flags(m@, rust@).subrange(0, i as int),
                    decreases m@.dependencies.len() - i,
                {
                    assert(m.dependencies@[i as int]@.name == m@.dependencies[i as int].name);
                    let b = references_crate(rust, m.dependencies[i].name.as_str());
                    flags.push(b);
                    assert(flags@ =~= referenced_flags(m@, rust@).subrange(0, i + 1));
                    i = i + 1;
                }
                assert(flags@ =~= referenced_flags(m@, rust@));
                let s = m.cargo_sections_with(&flags);
                toml.append(s.as_str());
            },
            None => {},
        }
        toml
    }
}

} // verus!
