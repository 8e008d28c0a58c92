use eager_const::{
    relative_paths, rewrite_entry, rewrite_entry_point, rewrite_manifest, starts_at_root,
    ConstDecl, EntryError, ManifestError, ResolvedPath, SourceFile, SourceItem,
};

fn decl(name: &str, init: &str) -> ConstDecl {
    ConstDecl {
        visibility: String::new(),
        name: name.to_string(),
        ty: "u8".to_string(),
        init: init.to_string(),
    }
}

fn item(text: &str, function: Option<&str>) -> SourceItem {
    SourceItem { text: text.to_string(), function: function.map(|f| f.to_string()) }
}

fn resolved(pairs: &[(&str, &str)]) -> Vec<ResolvedPath> {
    pairs
        .iter()
        .map(|(relative, absolute)| ResolvedPath {
            relative: relative.to_string(),
            absolute: absolute.to_string(),
        })
        .collect()
}

const MANIFEST: &str = r#"
[package]
name = "example"
version = "0.1.0"

[dependencies]
eager-const = { path = "../eager-const" }
helper = { path = "../helper", features = ["fast"] }
serde = "1.0"
rand = { version = "0.8" }
"#;

fn rewritten_example() -> toml::Value {
    let text = rewrite_manifest(
        MANIFEST,
        &resolved(&[("../helper", "/work/helper")]),
        "/opt/eager-const",
        "/opt/serde-rust",
    )
    .expect("the descriptor can be rewritten");
    text.parse().expect("the rewritten descriptor is a document")
}

#[test]
fn entry_file_is_written_line_by_line() {
    let file = SourceFile {
        shebang: Some("#!/usr/bin/env run".to_string()),
        attrs: vec!["#![allow(dead_code)]".to_string()],
        items: vec![
            item("use std::fmt;", None),
            item("fn main() { old(); }", Some("main")),
            item("fn helper() -> u8 { 1 }", Some("helper")),
        ],
    };
    let text = rewrite_entry(&file, &vec![decl("A", "helper()"), decl("B", "1 + 2")]);
    let expected = "#!/usr/bin/env run\n\
#![allow(dead_code)]\n\
use std::fmt;\n\
fn helper() -> u8 { 1 }\n\
fn main() {\n    \
println!(\"{}\", serde_rust::to_string(&(helper())).expect(\"serde_rust failed\"));\n    \
println!(\"{}\", serde_rust::to_string(&(1 + 2)).expect(\"serde_rust failed\"));\n\
}\n";
    assert_eq!(text, expected);
}

#[test]
fn entry_file_without_declarations_has_an_empty_entry_function() {
    let file = SourceFile { shebang: None, attrs: vec![], items: vec![] };
    assert_eq!(rewrite_entry(&file, &vec![]), "fn main() {\n}\n");
}

#[test]
fn every_entry_function_is_removed() {
    let file = SourceFile {
        shebang: None,
        attrs: vec![],
        items: vec![
            item("fn main() { a(); }", Some("main")),
            item("const main: u8 = 0;", None),
            item("fn main() { b(); }", Some("main")),
            item("fn mainly() {}", Some("mainly")),
        ],
    };
    let text = rewrite_entry(&file, &vec![]);
    assert_eq!(text, "const main: u8 = 0;\nfn mainly() {}\nfn main() {\n}\n");
}

#[test]
fn rewritten_entry_point_is_a_source_file() {
    let source = "#![allow(unused)]\n\
use std::collections::HashMap;\n\
fn push_number(s: &mut String, num: usize) { s.push_str(&num.to_string()); }\n\
fn main() { println!(\"the old entry\"); }\n";
    let decls = vec![decl("FOO", "{ let mut s = String::new(); push_number(&mut s, 3); s }")];
    let text = rewrite_entry_point(source, &decls).expect("the source parses");
    let file = syn::parse_file(&text).expect("the rewritten entry file parses");
    assert_eq!(file.attrs.len(), 1);
    assert_eq!(file.items.len(), 3);
    assert!(!text.contains("the old entry"));
    assert!(text.contains("push_number (s : & mut String"));
    assert!(text.ends_with(
        "fn main() {\n    println!(\"{}\", serde_rust::to_string(&({ let mut s = String::new(); push_number(&mut s, 3); s })).expect(\"serde_rust failed\"));\n}\n"
    ));
    let mains = file
        .items
        .iter()
        .filter(|item| matches!(item, syn::Item::Fn(f) if f.sig.ident == "main"))
        .count();
    assert_eq!(mains, 1);
}

#[test]
fn entry_point_without_an_entry_function_gets_one() {
    let text = rewrite_entry_point("fn helper() {}\n", &vec![decl("A", "1")]).expect("parses");
    let file = syn::parse_file(&text).expect("the rewritten entry file parses");
    assert_eq!(file.items.len(), 2);
}

#[test]
fn shebang_line_is_kept() {
    let text = rewrite_entry_point("#!/usr/bin/env run\nfn main() {}\n", &vec![]).expect("parses");
    assert_eq!(text, "#!/usr/bin/env run\nfn main() {\n}\n");
}

#[test]
fn entry_point_that_is_no_source_is_refused() {
    assert!(matches!(rewrite_entry_point("fn {", &vec![]), Err(EntryError::NotSource)));
    assert!(matches!(rewrite_entry_point("let x = ;", &vec![]), Err(EntryError::NotSource)));
}

#[test]
fn paths_to_resolve_are_those_of_the_other_dependencies() {
    let paths = relative_paths(MANIFEST).expect("the descriptor can be read");
    assert_eq!(paths, vec!["../helper".to_string()]);
}

#[test]
fn descriptor_without_dependencies_has_no_paths() {
    let paths = relative_paths("[package]\nname = \"bare\"\n").expect("can be read");
    assert!(paths.is_empty());
}

#[test]
fn path_dependency_becomes_absolute_and_keeps_the_rest() {
    let doc = rewritten_example();
    let helper = &doc["dependencies"]["helper"];
    assert_eq!(helper["path"].as_str(), Some("/work/helper"));
    assert_eq!(helper["features"][0].as_str(), Some("fast"));
    assert!(starts_at_root(helper["path"].as_str().unwrap()));
}

#[test]
fn self_dependency_is_pinned_and_switched_off() {
    let doc = rewritten_example();
    let own = doc["dependencies"]["eager-const"].as_table().expect("a table");
    assert_eq!(own.len(), 2);
    assert_eq!(own["path"].as_str(), Some("/opt/eager-const"));
    let features = own["features"].as_array().expect("an array");
    assert_eq!(features.len(), 1);
    assert_eq!(features[0].as_str(), Some("inside"));
}

#[test]
fn self_dependency_by_version_is_pinned_too() {
    let text = rewrite_manifest(
        "[dependencies]\neager-const = \"0.1\"\n",
        &vec![],
        "/opt/eager-const",
        "/opt/serde-rust",
    )
    .expect("can be rewritten");
    let doc: toml::Value = text.parse().expect("a document");
    assert_eq!(doc["dependencies"]["eager-const"]["path"].as_str(), Some("/opt/eager-const"));
    assert_eq!(doc["dependencies"]["eager-const"]["features"][0].as_str(), Some("inside"));
}

#[test]
fn serializer_is_added() {
    let doc = rewritten_example();
    let serializer = doc["dependencies"]["serde-rust"].as_table().expect("a table");
    assert_eq!(serializer.len(), 1);
    assert_eq!(serializer["path"].as_str(), Some("/opt/serde-rust"));
}

#[test]
fn registry_dependencies_and_the_rest_stay() {
    let doc = rewritten_example();
    assert_eq!(doc["dependencies"]["serde"].as_str(), Some("1.0"));
    assert_eq!(doc["dependencies"]["rand"]["version"].as_str(), Some("0.8"));
    assert!(doc["dependencies"]["rand"].get("path").is_none());
    assert_eq!(doc["package"]["name"].as_str(), Some("example"));
    assert_eq!(doc["package"]["version"].as_str(), Some("0.1.0"));
    assert_eq!(doc["dependencies"].as_table().unwrap().len(), 5);
}

#[test]
fn descriptor_without_dependencies_gets_the_serializer() {
    let text = rewrite_manifest("[package]\nname = \"bare\"\n", &vec![], "/m", "/s")
        .expect("can be rewritten");
    let doc: toml::Value = text.parse().expect("a document");
    assert_eq!(doc["dependencies"].as_table().unwrap().len(), 1);
    assert_eq!(doc["dependencies"]["serde-rust"]["path"].as_str(), Some("/s"));
    assert_eq!(doc["package"]["name"].as_str(), Some("bare"));
}

#[test]
fn first_resolution_of_a_path_counts() {
    let text = rewrite_manifest(
        "[dependencies]\na = { path = \"x\" }\nb = { path = \"x\" }\n",
        &resolved(&[("x", "/first"), ("x", "/second")]),
        "/m",
        "/s",
    )
    .expect("can be rewritten");
    let doc: toml::Value = text.parse().expect("a document");
    assert_eq!(doc["dependencies"]["a"]["path"].as_str(), Some("/first"));
    assert_eq!(doc["dependencies"]["b"]["path"].as_str(), Some("/first"));
}

#[test]
fn text_that_is_no_document_is_refused() {
    assert_eq!(relative_paths("[package"), Err(ManifestError::Parse));
    assert_eq!(rewrite_manifest("name = ", &vec![], "/m", "/s"), Err(ManifestError::Parse));
}

#[test]
fn dependencies_must_be_a_table() {
    assert_eq!(relative_paths("dependencies = 1\n"), Err(ManifestError::DependenciesNotATable));
    assert_eq!(
        rewrite_manifest("dependencies = \"none\"\n", &vec![], "/m", "/s"),
        Err(ManifestError::DependenciesNotATable)
    );
}

#[test]
fn path_must_be_a_string() {
    let manifest = "[dependencies]\nhelper = { path = 1 }\n";
    assert_eq!(relative_paths(manifest), Err(ManifestError::PathNotText));
    assert_eq!(rewrite_manifest(manifest, &vec![], "/m", "/s"), Err(ManifestError::PathNotText));
    let both = "[dependencies]\na = { path = \"x\" }\nb = { path = true }\n";
    assert_eq!(rewrite_manifest(both, &vec![], "/m", "/s"), Err(ManifestError::PathNotText));
}

#[test]
fn path_of_the_self_dependency_may_be_anything() {
    let manifest = "[dependencies]\neager-const = { path = 1 }\n";
    assert_eq!(relative_paths(manifest), Ok(vec![]));
    assert!(rewrite_manifest(manifest, &vec![], "/m", "/s").is_ok());
}

#[test]
fn every_path_must_have_been_resolved() {
    assert_eq!(
        rewrite_manifest(MANIFEST, &resolved(&[("../other", "/work/other")]), "/m", "/s"),
        Err(ManifestError::Unresolved)
    );
    assert_eq!(rewrite_manifest(MANIFEST, &vec![], "/m", "/s"), Err(ManifestError::Unresolved));
}

#[test]
fn resolved_paths_must_be_absolute() {
    assert_eq!(
        rewrite_manifest(MANIFEST, &resolved(&[("../helper", "work/helper")]), "/m", "/s"),
        Err(ManifestError::NotAbsolute)
    );
    assert_eq!(
        rewrite_manifest(MANIFEST, &resolved(&[("../helper", "/h"), ("unused", "")]), "/m", "/s"),
        Err(ManifestError::NotAbsolute)
    );
}

#[test]
fn absolute_paths_start_at_the_root() {
    assert!(starts_at_root("/"));
    assert!(starts_at_root("/tmp/.tmp-crate"));
    assert!(!starts_at_root(""));
    assert!(!starts_at_root("../helper"));
    assert!(!starts_at_root("helper/"));
}
