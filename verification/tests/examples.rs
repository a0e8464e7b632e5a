//! The interop showcase: a program that imports crates through the `rust` and
//! `macro` roots compiles to Rust that names those crates.

use tinys::compile_to_rust;

const JSON_USER: &str = r##"from macro import debug, format
from rust.serde import Deserialize
import rust.serde_json as json

#[derive(Debug, Deserialize)]
struct User:
    id: u64
    name: str
    active: bool

def parse_user(source: ref str) -> Result[User, json.Error]:
    return json.from_str[User](source)

def describe(user: ref User) -> str:
    return if user.active:
        format("{} is active", user.name)
    else:
        format("{} is inactive", user.name)

def main() -> Result[void, json.Error]:
    source = r#"{"id":1,"name":"Ada","active":true}"#
    user = parse_user(source)?
    debug(ref user)
    print(describe(ref user))
    return Ok()
"##;

#[test]
fn emit_rust_showcase_smoke() {
    let rust = compile_to_rust(JSON_USER, "examples/json_user.sn")
        .unwrap_or_else(|e| panic!("{}", e.to_string()));
    assert!(rust.contains("serde_json::from_str::<User>"));
    assert!(rust.contains("fn main() -> Result<(), serde_json::Error>"));
}
