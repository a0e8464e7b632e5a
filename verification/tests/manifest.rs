//! Reading `tinys.toml`: the scenarios the manifest reader was written for.

use tinys::manifest::{references_crate, Manifest};

fn parse(text: &str) -> Manifest {
    Manifest::parse(text, "/pkg/tinys.toml", "/pkg").unwrap()
}

#[test]
fn reads_package_and_dependencies() {
    let m = parse(
        r#"
[package]
name = "example"      # trailing comment
version = "0.1.0"

[dependencies]
serde = { version = "1", features = ["derive"] }
serde_json = "1"
"#,
    );
    assert_eq!(m.package.name.as_deref(), Some("example"));
    assert_eq!(m.package.version.as_deref(), Some("0.1.0"));
    assert_eq!(m.dependencies.len(), 2);
    assert_eq!(m.dependencies[0].name, "serde");
    let rendered = m.cargo_sections(|_| true);
    assert!(rendered.contains("serde = { version = \"1\", features = [\"derive\"] }"));
    assert!(rendered.contains("serde_json = \"1\""));
}

#[test]
fn reads_dependency_sub_tables() {
    let m = parse(
        r#"
[dependencies.regex]
version = "1"
default-features = false
"#,
    );
    assert_eq!(m.dependencies.len(), 1);
    let rendered = m.cargo_sections(|_| true);
    assert!(rendered.contains("[dependencies.regex]"));
    assert!(rendered.contains("default-features = false"));
}

#[test]
fn joins_wrapped_inline_tables() {
    let m = parse(
        "[dependencies]\ntokio = { version = \"1\",\n  features = [\"full\"] }\nlog = \"0.4\"\n",
    );
    assert_eq!(m.dependencies.len(), 2);
    assert_eq!(m.dependencies[1].name, "log");
}

#[test]
fn keeps_only_referenced_dependencies() {
    let m = parse("[dependencies]\nserde_json = \"1\"\nregex = \"1\"\n");
    let rust = "use serde_json;\nfn main() {}\n";
    let rendered = m.cargo_sections(|name| references_crate(rust, name));
    assert!(rendered.contains("serde_json"));
    assert!(!rendered.contains("regex"));
}

#[test]
fn crate_references_match_whole_identifiers() {
    assert!(references_crate("use serde::Deserialize;", "serde"));
    assert!(!references_crate("use serde_json::from_str;", "serde"));
    assert!(references_crate("use serde_json::from_str;", "serde_json"));
    assert!(references_crate("#[tokio::main]", "tokio"));
    // Cargo names may use `-`; the Rust identifier uses `_`.
    assert!(references_crate(
        "use pretty_env_logger;",
        "pretty-env-logger"
    ));
}

#[test]
fn dependency_paths_become_absolute() {
    let m = parse("[dependencies]\nlocal = { path = \"../vendor/local\" }\n");
    let rendered = m.cargo_sections(|_| true);
    assert!(
        rendered.contains("path = \"/vendor/local\"")
            || rendered.contains("/pkg/../vendor/local")
    );
    assert!(!rendered.contains("\"../vendor/local\""));
}

#[test]
fn records_unsupported_sections() {
    let m = parse("[workspace]\nmembers = []\n");
    assert_eq!(m.ignored, vec!["workspace".to_string()]);
}

#[test]
fn discovery_walks_up_to_the_nearest_manifest() {
    let files = ["/work/pkg/tinys.toml", "/work/tinys.toml"];
    let read = |p: &str| -> Result<String, String> {
        if p == "/work/pkg/tinys.toml" {
            Ok("[package]\nname = \"inner\"\n".to_string())
        } else {
            Ok("[package]\nname = \"outer\"\n".to_string())
        }
    };
    let m = Manifest::discover("/work/pkg/src/deep", |p: &str| files.contains(&p), read)
        .unwrap()
        .unwrap();
    assert_eq!(m.package.name.as_deref(), Some("inner"));
    assert_eq!(m.path, "/work/pkg/tinys.toml");
    assert_eq!(m.dir, "/work/pkg");

    let none = Manifest::discover("/elsewhere/src", |p: &str| files.contains(&p), read).unwrap();
    assert!(none.is_none());
}

#[test]
fn a_manifest_that_cannot_be_read_or_parsed_is_an_error() {
    let unreadable = Manifest::discover(
        "/pkg",
        |p: &str| p == "/pkg/tinys.toml",
        |p: &str| Err(format!("cannot read `{}`: denied", p)),
    );
    assert_eq!(unreadable.unwrap_err(), "cannot read `/pkg/tinys.toml`: denied");
    let broken = Manifest::parse_file("/pkg/tinys.toml", |_: &str| Ok("oops\n".to_string()));
    assert_eq!(
        broken.unwrap_err(),
        "/pkg/tinys.toml: cannot parse `oops` (expected `key = value`)"
    );
}

#[test]
fn profile_like_header_is_reported_not_passed_through() {
    let m = parse("[profiler]\nx = 1\n");
    assert_eq!(m.ignored, vec!["profiler".to_string()]);
    assert!(m.passthrough.is_empty());
}

#[test]
fn path_inside_a_string_is_not_a_key() {
    let v = "{ git = \"https://h/path\", branch = \"main\" }";
    assert_eq!(tinys::manifest::rewrite_paths(v, "/pkg"), v);
}
