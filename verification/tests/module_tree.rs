//! Multi-file module discovery, driven over an in-memory package: the `src/`
//! tree becomes the module tree, with no `mod` keyword anywhere in TinyS
//! source. Directory listing is the only part played here; deciding what a
//! directory declares, compiling and rendering are the library's.

use std::collections::BTreeMap;

use tinys::compile_to_rust;
use tinys::manifest::Manifest;
use tinys::modules::{assemble_level, path_within_dir, ListedDir, ListedFile, Module, Sources};

/// A package on an imaginary disk: absolute file path → contents.
struct Package {
    files: BTreeMap<String, String>,
}

const ROOT: &str = "/pkg";

impl Package {
    fn new() -> Package {
        Package { files: BTreeMap::new() }
    }

    fn write(&mut self, rel: &str, contents: &str) {
        self.files.insert(format!("{}/{}", ROOT, rel), contents.to_string());
    }

    fn is_file(&self, path: &str) -> bool {
        self.files.contains_key(path)
    }

    fn is_dir(&self, path: &str) -> bool {
        let prefix = format!("{}/", path);
        self.files.keys().any(|k| k.starts_with(&prefix))
    }

    /// The `.sn` files and the subdirectories directly inside `dir`, sorted.
    fn list(&self, dir: &str) -> (Vec<String>, Vec<String>) {
        let prefix = format!("{}/", dir);
        let mut files = Vec::new();
        let mut dirs: Vec<String> = Vec::new();
        for key in self.files.keys() {
            if let Some(rest) = key.strip_prefix(&prefix) {
                match rest.split_once('/') {
                    Some((sub, _)) => {
                        if !dirs.iter().any(|d| d == sub) {
                            dirs.push(sub.to_string());
                        }
                    }
                    None => {
                        if rest.ends_with(".sn") {
                            files.push(rest.to_string());
                        }
                    }
                }
            }
        }
        files.sort();
        dirs.sort();
        (files, dirs)
    }

    fn walk(&self, dir: &str, rel: &str, entry: &str, exclude: &[String]) -> Result<Vec<Module>, String> {
        let (file_names, dir_names) = self.list(dir);
        let files: Vec<ListedFile> = file_names
            .iter()
            .map(|name| {
                let path = format!("{}/{}", dir, name);
                ListedFile { file_name: name.clone(), is_entry: path == entry, path }
            })
            .collect();
        let mut dirs = Vec::new();
        for name in &dir_names {
            let path = format!("{}/{}", dir, name);
            let child_rel = if rel.is_empty() { name.clone() } else { format!("{}/{}", rel, name) };
            let children = if tinys::modules::is_excluded(&child_rel, exclude) {
                Vec::new()
            } else {
                self.walk(&path, &child_rel, entry, exclude)?
            };
            let mod_sn = format!("{}/mod.sn", path);
            let (mod_sn, mod_is_entry) = if self.is_file(&mod_sn) {
                let is_entry = mod_sn == entry;
                (Some(mod_sn), is_entry)
            } else {
                (None, false)
            };
            dirs.push(ListedDir { name: name.clone(), children, mod_sn, mod_is_entry });
        }
        assemble_level(dir, rel, &files, dirs, exclude)
    }

    /// What `tinys emit-rust <entry>` prints, or the error it reports.
    fn emit(&self, entry_rel: &str) -> Result<String, String> {
        let entry = format!("{}/{}", ROOT, entry_rel);
        let manifest_path = format!("{}/tinys.toml", ROOT);
        let manifest = match self.files.get(&manifest_path) {
            Some(text) => Some(Manifest::parse(text, &manifest_path, ROOT)?),
            None => None,
        };
        let src = format!("{}/src", ROOT);
        let tree = match &manifest {
            Some(m) if self.is_dir(&src) && path_within_dir(&entry, &src) => {
                self.walk(&src, "", &entry, &m.exclude)?
            }
            _ => Vec::new(),
        };
        let source = self.files.get(&entry).expect("entry exists");
        let sources = Sources::compile(&entry, source, &tree, |path: &str| {
            self.files
                .get(path)
                .cloned()
                .ok_or_else(|| format!("error: cannot read `{}`", path))
        })?;
        Ok(sources.render())
    }
}

const MAIN: &str = "def main() -> void:\n    print(\"hi\")\n";

/// A package with `tinys.toml` but no `src/` is a directory of single-file
/// programs — which is what keeps the flat `examples/` layout working.
#[test]
fn no_src_directory_means_no_modules() {
    let mut pkg = Package::new();
    pkg.write("tinys.toml", "[package]\nname = \"flat\"\n");
    pkg.write("app.sn", MAIN);
    pkg.write("sibling.sn", "pub def helper() -> void:\n    print(\"x\")\n");

    let rust = pkg.emit("app.sn").unwrap();
    assert!(!rust.contains("pub mod"), "{rust}");
    assert!(!rust.contains("sibling"), "{rust}");
    // A single-file program prints exactly its own Rust.
    assert_eq!(rust, compile_to_rust(MAIN, "/pkg/app.sn").unwrap());
}

#[test]
fn src_tree_becomes_the_module_tree() {
    let mut pkg = Package::new();
    pkg.write("tinys.toml", "[package]\nname = \"tree\"\n");
    pkg.write("src/app.sn", MAIN);
    pkg.write("src/models.sn", "pub def one() -> i32:\n    return 1\n");
    pkg.write("src/services/mod.sn", "pub def two() -> i32:\n    return 2\n");
    pkg.write("src/services/store.sn", "pub def three() -> i32:\n    return 3\n");

    let rust = pkg.emit("src/app.sn").unwrap();
    assert!(rust.contains("pub mod models;"), "{rust}");
    assert!(rust.contains("pub mod services;"), "{rust}");
    // `store` is declared by `services`, not by the crate root.
    assert!(rust.contains("// ---- services/mod.rs"), "{rust}");
    assert!(rust.contains("pub mod store;"), "{rust}");
    assert!(rust.contains("// ---- services/store.rs"), "{rust}");
    // The entry file is the crate root, never also a module.
    assert!(!rust.contains("pub mod app;"), "{rust}");
}

/// `main.sn` is not required: the file you build is the crate root.
#[test]
fn any_file_can_be_the_crate_root() {
    let mut pkg = Package::new();
    pkg.write("tinys.toml", "[package]\nname = \"roots\"\n");
    pkg.write("src/first.sn", MAIN);
    pkg.write("src/second.sn", MAIN);

    let rust = pkg.emit("src/first.sn").unwrap();
    assert!(rust.contains("pub mod second;"), "{rust}");
    assert!(!rust.contains("pub mod first;"), "{rust}");

    // Building the other one flips which is the root.
    let rust = pkg.emit("src/second.sn").unwrap();
    assert!(rust.contains("pub mod first;"), "{rust}");
    assert!(!rust.contains("pub mod second;"), "{rust}");
}

#[test]
fn test_files_are_declared_cfg_test() {
    let mut pkg = Package::new();
    pkg.write("tinys.toml", "[package]\nname = \"tested\"\n");
    pkg.write("src/app.sn", MAIN);
    pkg.write("src/models.sn", "pub def one() -> i32:\n    return 1\n");
    pkg.write("src/models_test.sn", "#[test]\ndef works() -> void:\n    print(\"ok\")\n");

    let rust = pkg.emit("src/app.sn").unwrap();
    assert!(rust.contains("#[cfg(test)]\npub mod models_test;"), "{rust}");
    // A plain module is not gated.
    assert!(rust.contains("pub mod models;"), "{rust}");
    assert!(!rust.contains("#[cfg(test)]\npub mod models;"), "{rust}");
}

/// A directory with no `mod.sn` still exists as a module holding its children.
#[test]
fn directories_without_mod_sn_are_synthesized() {
    let mut pkg = Package::new();
    pkg.write("tinys.toml", "[package]\nname = \"synth\"\n");
    pkg.write("src/app.sn", MAIN);
    pkg.write("src/util/text.sn", "pub def one() -> i32:\n    return 1\n");

    let rust = pkg.emit("src/app.sn").unwrap();
    assert!(rust.contains("pub mod util;"), "{rust}");
    assert!(rust.contains("// ---- util/mod.rs"), "{rust}");
    assert!(rust.contains("pub mod text;"), "{rust}");
}

#[test]
fn excluded_files_stay_out_of_the_tree() {
    let mut pkg = Package::new();
    pkg.write(
        "tinys.toml",
        "[package]\nname = \"skipping\"\nexclude = [\"scratch\", \"*_wip.sn\"]\n",
    );
    pkg.write("src/app.sn", MAIN);
    pkg.write("src/models.sn", "pub def one() -> i32:\n    return 1\n");
    pkg.write("src/draft_wip.sn", "this is not valid tinys at all\n");
    pkg.write("src/scratch/broken.sn", "neither is this\n");

    let rust = pkg.emit("src/app.sn").unwrap();
    assert!(rust.contains("pub mod models;"), "{rust}");
    assert!(!rust.contains("draft_wip"), "{rust}");
    assert!(!rust.contains("scratch"), "{rust}");
}

/// `foo.sn` beside `foo/` would declare one module name twice.
#[test]
fn conflicting_module_names_are_rejected() {
    let mut pkg = Package::new();
    pkg.write("tinys.toml", "[package]\nname = \"clash\"\n");
    pkg.write("src/app.sn", MAIN);
    pkg.write("src/models.sn", "pub def one() -> i32:\n    return 1\n");
    pkg.write("src/models/deep.sn", "pub def two() -> i32:\n    return 2\n");

    let err = pkg.emit("src/app.sn").unwrap_err();
    assert!(err.contains("declares the module `models` twice"), "{err}");
    assert_eq!(
        err,
        "error: `/pkg/src` declares the module `models` twice; rename one of the files"
    );
}

/// A module that does not lex or parse is reported against its own file.
#[test]
fn module_errors_name_the_module_file() {
    let mut pkg = Package::new();
    pkg.write("tinys.toml", "[package]\nname = \"broken\"\n");
    pkg.write("src/app.sn", MAIN);
    pkg.write("src/bad.sn", "def f(\n");

    let err = pkg.emit("src/app.sn").unwrap_err();
    assert!(err.contains("/pkg/src/bad.sn"), "{err}");
    assert!(err.contains("error:"), "{err}");
}

/// Files come out crate root first, then each module before its submodules,
/// and each file is labelled with the `.sn` file it came from.
#[test]
fn generated_files_are_labelled_in_tree_order() {
    let mut pkg = Package::new();
    pkg.write("tinys.toml", "[package]\nname = \"order\"\n");
    pkg.write("src/app.sn", MAIN);
    pkg.write("src/zeta.sn", "pub def z() -> i32:\n    return 1\n");
    pkg.write("src/alpha/inner.sn", "pub def i() -> i32:\n    return 2\n");

    let rust = pkg.emit("src/app.sn").unwrap();
    let main = rust.find("// ---- main.rs (from /pkg/src/app.sn) ----").expect(&rust);
    let alpha = rust.find("// ---- alpha/mod.rs ----").expect(&rust);
    let inner = rust.find("// ---- alpha/inner.rs (from /pkg/src/alpha/inner.sn) ----").expect(&rust);
    let zeta = rust.find("// ---- zeta.rs (from /pkg/src/zeta.sn) ----").expect(&rust);
    assert!(main < alpha && alpha < inner && inner < zeta, "{rust}");
}
