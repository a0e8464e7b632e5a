//! The command line's decisions: flags, crate names, the scratch package and
//! its generated `Cargo.toml`.

use tinys::cli::{bin_name_for, crate_name, is_searchable, split_args, Project};
use tinys::manifest::Manifest;

fn args(items: &[&str]) -> Vec<String> {
    items.iter().map(|s| s.to_string()).collect()
}

#[test]
fn flags_come_before_program_arguments() {
    let rest = args(&["--release", "a", "--release"]);
    let (release, tail) = split_args(&rest).unwrap();
    assert!(release);
    assert_eq!(tail, &rest[1..]);
}

#[test]
fn double_dash_ends_the_flags_and_is_dropped() {
    let rest = args(&["--", "--release", "x"]);
    let (release, tail) = split_args(&rest).unwrap();
    assert!(!release);
    assert_eq!(tail, &rest[1..]);
}

#[test]
fn unknown_option_is_reported() {
    let rest = args(&["--fast", "x"]);
    assert_eq!(split_args(&rest).unwrap_err(), "--fast");
}

#[test]
fn no_arguments_at_all() {
    let rest: Vec<String> = Vec::new();
    let (release, tail) = split_args(&rest).unwrap();
    assert!(!release);
    assert!(tail.is_empty());
}

#[test]
fn crate_names_are_cargo_friendly() {
    assert_eq!(crate_name("hello"), "hello");
    assert_eq!(crate_name("my-app"), "my-app");
    assert_eq!(crate_name("my app.v2"), "my_app_v2");
    assert_eq!(crate_name("2fast"), "_2fast");
    assert_eq!(crate_name(""), "program");
    assert_eq!(crate_name("-x"), "_-x");
    assert_eq!(crate_name(&crate_name("-x")), "_-x");
    assert_eq!(crate_name("héllo"), "h_llo");
}

#[test]
fn main_sn_takes_the_package_name() {
    assert_eq!(bin_name_for("main", Some("greeter")), "greeter");
    assert_eq!(bin_name_for("app", Some("greeter")), "app");
    assert_eq!(bin_name_for("main", None), "main");
    assert_eq!(bin_name_for("main", Some("1st tool")), "_1st_tool");
}

#[test]
fn project_layout_lives_under_the_root() {
    let p = Project::new("/pkg", "app", "app".to_string(), false, "src/app.sn");
    assert_eq!(p.dir, "/pkg/target/tinys-generated/app");
    assert_eq!(p.target_dir, "/pkg/target/tinys-generated/cargo-target");
    assert_eq!(p.profile_dir(), "debug");
    assert_eq!(p.binary(), "/pkg/target/tinys-generated/cargo-target/debug/app");
    assert_eq!(p.source, "src/app.sn");

    let r = Project::new("/pkg", "app", "tool".to_string(), true, "src/app.sn");
    assert_eq!(r.profile_dir(), "release");
    assert_eq!(r.binary(), "/pkg/target/tinys-generated/cargo-target/release/tool");
}

#[test]
fn cargo_toml_without_a_manifest() {
    let p = Project::new(".", "solo", "solo".to_string(), false, "solo.sn");
    let toml = p.cargo_toml("fn main() {}\n", None);
    assert_eq!(
        toml,
        "# Generated by tinys — this file is rewritten on every build.\n\
         [package]\n\
         name = \"solo\"\n\
         version = \"0.0.0\"\n\
         edition = \"2021\"\n\
         \n\
         [[bin]]\n\
         name = \"solo\"\n\
         path = \"src/main.rs\"\n\
         \n\
         # Stand alone rather than joining a surrounding Cargo workspace.\n\
         [workspace]\n"
    );
}

#[test]
fn cargo_toml_keeps_only_imported_crates() {
    let m = Manifest::parse(
        "[package]\nname = \"example\"\nversion = \"2.3.4\"\nedition = \"2018\"\n\n[dependencies]\nserde_json = \"1\"\nregex = \"1\"\n\n[profile.release]\nlto = true\n",
        "/pkg/tinys.toml",
        "/pkg",
    )
    .unwrap();
    let rust = "use serde_json;\nfn main() {}\n";
    assert!(is_searchable(&m, rust));
    let p = Project::new("/pkg", "main", bin_name_for("main", m.package.name.as_deref()), false, "src/main.sn");
    let toml = p.cargo_toml(rust, Some(&m));
    assert!(toml.contains("name = \"example\""), "{toml}");
    assert!(toml.contains("version = \"2.3.4\""), "{toml}");
    assert!(toml.contains("edition = \"2018\""), "{toml}");
    assert!(toml.contains("serde_json = \"1\""), "{toml}");
    assert!(!toml.contains("regex"), "{toml}");
    assert!(toml.contains("[profile.release]\nlto = true"), "{toml}");
}

#[test]
fn non_ascii_dependency_names_can_make_the_search_slice_a_character() {
    let m = Manifest::parse("[dependencies]\né = \"1\"\n", "/pkg/tinys.toml", "/pkg").unwrap();
    // The first `é` is inside the identifier `aé`, so the search would step
    // into the middle of the character.
    assert!(!is_searchable(&m, "let aé = 1; use é;"));
    // Found as a whole word at once, the search stops before that.
    assert!(is_searchable(&m, "use é;"));
}
