//! How errors and generated files are shown to the user.

use tinys::compile_to_rust;
use tinys::diagnostics::{Span, Stage};
use tinys::manifest::{find_key, references_crate, search_panics, Manifest};
use tinys::modules::{path_within_dir, GeneratedFile, Sources};
use tinys::TinysError;

#[test]
fn errors_render_with_stage_and_location() {
    let e = TinysError::new(Stage::Parse, "expected `:`".to_string(), "app.sn", Span::new(3, 14));
    assert_eq!(e.to_string(), "error: parse error: expected `:`\n  --> app.sn:3:14");
    let e = TinysError::new(Stage::Lex, "unterminated string".to_string(), "x.sn", Span::new(1, 1));
    assert_eq!(e.to_string(), "error: lex error: unterminated string\n  --> x.sn:1:1");
}

#[test]
fn a_lex_error_is_a_lex_error() {
    let err = compile_to_rust("x = \"open\n", "open.sn").unwrap_err();
    assert_eq!(err.stage, Stage::Lex);
    assert_eq!(err.file, "open.sn");
    assert!(err.to_string().starts_with("error: lex error: "), "{}", err.to_string());
}

#[test]
fn a_parse_error_is_a_parse_error() {
    let err = compile_to_rust("def f(\n", "bad.sn").unwrap_err();
    assert_eq!(err.stage, Stage::Parse);
    assert!(err.to_string().contains("--> bad.sn:"), "{}", err.to_string());
}

fn file(path: &str, source: Option<&str>, rust: &str) -> GeneratedFile {
    GeneratedFile {
        path: path.to_string(),
        source: source.map(|s| s.to_string()),
        rust: rust.to_string(),
    }
}

#[test]
fn a_single_file_renders_as_itself() {
    let s = Sources { files: vec![file("main.rs", Some("app.sn"), "fn main() {}\n")] };
    assert_eq!(s.render(), "fn main() {}\n");
    assert_eq!(s.all_rust(), "fn main() {}\n");
}

#[test]
fn a_package_labels_each_file() {
    let s = Sources {
        files: vec![
            file("main.rs", Some("src/app.sn"), "A"),
            file("util/mod.rs", None, "B"),
            file("util/text.rs", Some("src/util/text.sn"), "C"),
        ],
    };
    assert_eq!(
        s.render(),
        "// ---- main.rs (from src/app.sn) ----\n\nA\n\
         // ---- util/mod.rs ----\n\nB\n\
         // ---- util/text.rs (from src/util/text.sn) ----\n\nC\n"
    );
    assert_eq!(s.all_rust(), "A\nB\nC");
}

#[test]
fn a_manifest_line_that_is_not_key_value_is_refused() {
    let err = Manifest::parse("[package]\nname\n", "/pkg/tinys.toml", "/pkg").unwrap_err();
    assert_eq!(err, "/pkg/tinys.toml: cannot parse `name` (expected `key = value`)");
}

#[test]
fn exclude_patterns_are_read_from_the_package_table() {
    let m = Manifest::parse(
        "[package]\nname = \"p\"\nexclude = [\"scratch\", \"*_wip.sn\"]\n",
        "/pkg/tinys.toml",
        "/pkg",
    )
    .unwrap();
    assert_eq!(m.exclude, vec!["scratch".to_string(), "*_wip.sn".to_string()]);
}

#[test]
fn profile_and_patch_sections_pass_through() {
    let m = Manifest::parse(
        "[profile.release]\nlto = true\n\n[patch.crates-io]\nfoo = { path = \"/abs/foo\" }\n",
        "/pkg/tinys.toml",
        "/pkg",
    )
    .unwrap();
    assert!(m.ignored.is_empty());
    let rendered = m.cargo_sections(|_| true);
    assert!(rendered.contains("[profile.release]\nlto = true"), "{rendered}");
    assert!(rendered.contains("[patch.crates-io]"), "{rendered}");
    assert!(rendered.contains("/abs/foo"), "{rendered}");
}

#[test]
fn files_a_build_no_longer_writes_are_stale() {
    let s = Sources {
        files: vec![
            file("main.rs", Some("src/app.sn"), "A"),
            file("services/mod.rs", Some("src/services/mod.sn"), "B"),
        ],
    };
    let existing = vec![
        "main.rs".to_string(),
        "services.rs".to_string(),
        "services/mod.rs".to_string(),
        "notes.txt".to_string(),
        "old/gone.rs".to_string(),
    ];
    assert_eq!(s.stale_files(&existing), vec!["services.rs".to_string(), "old/gone.rs".to_string()]);
}

#[test]
fn discovery_needs_the_entry_inside_src() {
    assert!(path_within_dir("/pkg/src/app.sn", "/pkg/src"));
    assert!(path_within_dir("/pkg/src", "/pkg/src"));
    assert!(!path_within_dir("/pkg/srcs/app.sn", "/pkg/src"));
    assert!(!path_within_dir("/pkg/app.sn", "/pkg/src"));
    assert!(path_within_dir("/a", "/"));
}

#[test]
fn whole_word_search_and_its_panicking_case() {
    assert_eq!(find_key("a = 1\nabc = 2\nb = 3", "b"), Some(14));
    assert_eq!(find_key("abc", "b"), None);
    assert!(!search_panics("use serde;", "serde"));
    assert!(search_panics("xé é", "é"));
    assert!(search_panics("abc", ""));
    assert!(!search_panics("", ""));
}

#[test]
fn parse_errors_show_the_token_found() {
    let err = compile_to_rust("\"x\"\n", "p.sn").unwrap_err();
    assert_eq!(err.stage, Stage::Parse);
    assert!(err.message.contains("Str(\"x\")"), "{}", err.message);
    let err = compile_to_rust("def 5():\n    pass\n", "p.sn").unwrap_err();
    assert!(err.message.contains("Int(5)"), "{}", err.message);
}

#[test]
fn existing_dependency_paths_are_canonicalized() {
    let m = Manifest::parse("[dependencies]\nx = { path = \"tmp/..\" }\n", "/tinys.toml", "/").unwrap();
    let rendered = m.cargo_sections(|_| true);
    assert!(rendered.contains("path = \"/\""), "{rendered}");
}

#[test]
fn identifiers_may_use_any_letters() {
    let rust = compile_to_rust("def f() -> void:\n    größe = 1\n", "u.sn").unwrap();
    assert!(rust.contains("let größe = 1;"), "{rust}");
}

#[test]
fn searching_all_the_rust_is_searching_each_file() {
    let s = Sources {
        files: vec![
            file("main.rs", Some("app.sn"), "mod util;\nfn main() {}"),
            file("util.rs", Some("src/util.sn"), "use serde_json;\npub fn f() {}"),
        ],
    };
    let all = s.all_rust();
    assert!(references_crate(&all, "serde_json"));
    assert!(references_crate(&s.files[1].rust, "serde_json"));
    assert!(!references_crate(&all, "serde"));
    assert!(!s.files.iter().any(|f| references_crate(&f.rust, "serde")));
    assert!(!references_crate(&all, "util_x"));
}
