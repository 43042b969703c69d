use minicrates::config::{Manifest, Minicrates};
use minicrates::options::{BuildOptions, IGNORE_MARKER};
use minicrates::overrides::{select_overrides, OverrideError};
use minicrates::package::{
    base_manifest, identify, package_dir_name, package_manifest, prepare_target, Preparation,
    TargetConflict, TargetKind,
};
use minicrates::paths::{join_path, path_is_absolute, rebase_path, rewrite_dependency_paths};
use minicrates::probe::{probe_plan, workspace_lists_member};
use minicrates::value::{combine_tables, Table, Value};
use std::cell::Cell;
use std::collections::HashMap;

fn table(entries: Vec<(&str, Value)>) -> Table {
    Table {
        entries: entries.into_iter().map(|(k, v)| (k.to_string(), v)).collect(),
    }
}

fn s(x: &str) -> Value {
    Value::Str(x.to_string())
}

fn strings(xs: &[&str]) -> Vec<String> {
    xs.iter().map(|x| x.to_string()).collect()
}

#[test]
fn test() {
    let fragments = strings(&["/p/story/a.mini.rs", "/p/story/b/c.mini.rs"]);
    let ids = identify(&fragments);
    let map: HashMap<String, u64> = ids.iter().cloned().collect();
    let encoded = serde_json::to_string(&map).unwrap();
    let decoded: HashMap<String, u64> = serde_json::from_str(&encoded).unwrap();
    assert_eq!(decoded, map);
    println!("{:#?}", decoded);
}

#[test]
fn merge_precedence() {
    let base = table(vec![("a", Value::Int(1)), ("b", Value::Table(table(vec![("x", Value::Int(1))])))]);
    let o1 = table(vec![("b", Value::Table(table(vec![("y", Value::Int(2))])))]);
    let o2 = table(vec![("a", Value::Int(2))]);
    let merged = combine_tables(vec![base, o1, o2]);
    let expected = table(vec![
        ("a", Value::Int(2)),
        ("b", Value::Table(table(vec![("x", Value::Int(1)), ("y", Value::Int(2))]))),
    ]);
    assert_eq!(merged, expected);
}

#[test]
fn merge_later_scalar_replaces_table() {
    let t1 = table(vec![("k", Value::Table(table(vec![("x", Value::Int(1))])))]);
    let t2 = table(vec![("k", s("flat")), ("only", Value::Bool(true))]);
    let merged = combine_tables(vec![t1, t2]);
    assert_eq!(merged, table(vec![("k", s("flat")), ("only", Value::Bool(true))]));
}

#[test]
fn merge_later_table_replaces_scalar() {
    let t1 = table(vec![("k", s("flat"))]);
    let t2 = table(vec![("k", Value::Table(table(vec![("x", Value::Int(1))])))]);
    let merged = combine_tables(vec![t1, t2]);
    assert_eq!(merged, table(vec![("k", Value::Table(table(vec![("x", Value::Int(1))])))]));
}

#[test]
fn merge_of_nothing_is_empty() {
    assert_eq!(combine_tables(vec![]), Table::new());
}

#[test]
fn deep_clone_is_equal() {
    let t = table(vec![("a", Value::Array(vec![s("x"), Value::Table(table(vec![("b", Value::Int(3))]))]))]);
    assert_eq!(t.deep_clone(), t);
}

#[test]
fn identifiers_are_stable() {
    let fragments = strings(&["/p/story/a.mini.rs", "/p/story/b.mini.rs"]);
    let first = identify(&fragments);
    let second = identify(&fragments);
    assert_eq!(first, second);
    assert_eq!(first[0].0, "/p/story/a.mini.rs");
    assert_ne!(first[0].1, first[1].1);
    assert_eq!(identify(&vec![]), vec![]);
}

#[test]
fn base_manifest_names_package_by_identifier() {
    let expected = table(vec![
        ("package", Value::Table(table(vec![("name", s("minicrates-123"))]))),
        ("lib", Value::Table(table(vec![("crate-type", Value::Array(vec![s("dylib")]))]))),
    ]);
    assert_eq!(base_manifest(123), expected);
    let zero = base_manifest(0);
    assert_eq!(zero.entries[0].1, Value::Table(table(vec![("name", s("minicrates-0"))])));
}

#[test]
fn package_manifest_layers_overrides_and_rebases() {
    let o = table(vec![(
        "dependencies",
        Value::Table(table(vec![
            ("lib", Value::Table(table(vec![("path", s("../lib"))]))),
            ("serde", s("1")),
        ])),
    )]);
    let m = package_manifest(7, vec![o], "/proj", "/proj/minicrates/a").unwrap();
    assert_eq!(m.entries.len(), 3);
    assert_eq!(m.entries[0].1, Value::Table(table(vec![("name", s("minicrates-7"))])));
    assert_eq!(
        m.entries[2].1,
        Value::Table(table(vec![
            ("lib", Value::Table(table(vec![("path", s("../../../lib"))]))),
            ("serde", s("1")),
        ]))
    );
}

#[test]
fn package_dir_name_strips_suffix() {
    assert_eq!(package_dir_name("hello.mini.rs"), Some("hello".to_string()));
    assert_eq!(package_dir_name(".mini.rs"), Some("".to_string()));
    assert_eq!(package_dir_name("hello.rs"), None);
    assert_eq!(package_dir_name("mini.rs"), None);
}

#[test]
fn target_preparation() {
    assert_eq!(prepare_target(TargetKind::Missing), Ok(Preparation::Create));
    assert_eq!(prepare_target(TargetKind::Directory), Ok(Preparation::ReplaceDirectory));
    assert_eq!(prepare_target(TargetKind::File), Err(TargetConflict::OccupiedByFile));
    assert_eq!(prepare_target(TargetKind::Symlink), Err(TargetConflict::OccupiedBySymlink));
}

#[test]
fn empty_discovery_calls_hook_once() {
    let calls = Cell::new(0);
    let options = BuildOptions { no_minicrates: Some(|| calls.set(calls.get() + 1)) };
    assert!(options.short_circuit(0));
    assert_eq!(calls.get(), 1);
    assert!(!options.short_circuit(3));
    assert_eq!(calls.get(), 1);
    let silent: BuildOptions<fn()> = BuildOptions { no_minicrates: None };
    assert!(silent.short_circuit(0));
    assert_eq!(IGNORE_MARKER, "*/**");
}

#[test]
fn joining_paths() {
    assert_eq!(join_path("/proj", "../lib"), "/proj/../lib");
    assert_eq!(join_path("/proj/", "lib"), "/proj/lib");
    assert_eq!(join_path("/proj", "/abs"), "/abs");
    assert_eq!(join_path("", "lib"), "lib");
    assert!(path_is_absolute("/a"));
    assert!(!path_is_absolute("a"));
    assert!(!path_is_absolute(""));
}

#[test]
fn rebasing_round_trip() {
    let r = rebase_path("/proj", "/proj/a/b", "../lib").unwrap();
    assert_eq!(r, "../../../lib");
    let back = path_clean::clean(std::path::Path::new("/proj/a/b").join(&r));
    let orig = path_clean::clean(std::path::Path::new("/proj").join("../lib"));
    assert_eq!(back, orig);
    assert_eq!(rebase_path("/proj", "/proj/a", "/abs/x/../y").unwrap(), "../../abs/y");
    assert_eq!(rebase_path("/proj", "rel/pkg", "../lib"), Some("/lib".to_string()));
    assert_eq!(rebase_path("proj", "/pkg", "lib"), None);
}

#[test]
fn rewrite_leaves_other_entries() {
    let m = table(vec![
        ("package", Value::Table(table(vec![("path", s("keep"))]))),
        (
            "dependencies",
            Value::Table(table(vec![
                ("a", Value::Table(table(vec![("path", s("x")), ("version", s("1"))]))),
                ("b", Value::Table(table(vec![("path", Value::Int(1))]))),
                ("c", Value::Table(table(vec![("git", s("u"))]))),
            ])),
        ),
    ]);
    let r = rewrite_dependency_paths(m, "/proj", "/proj/m/x").unwrap();
    let expected = table(vec![
        ("package", Value::Table(table(vec![("path", s("keep"))]))),
        (
            "dependencies",
            Value::Table(table(vec![
                ("a", Value::Table(table(vec![("path", s("../../x")), ("version", s("1"))]))),
                ("b", Value::Table(table(vec![("path", Value::Int(1))]))),
                ("c", Value::Table(table(vec![("git", s("u"))]))),
            ])),
        ),
    ]);
    assert_eq!(r, expected);
    let bad = table(vec![(
        "dependencies",
        Value::Table(table(vec![("a", Value::Table(table(vec![("path", s("x"))])))])),
    )]);
    assert_eq!(rewrite_dependency_paths(bad, "proj", "/abs"), None);
}

#[test]
fn override_selection_is_scoped() {
    let overrides = table(vec![
        ("foo/*", Value::Table(table(vec![("a", Value::Int(1))]))),
        ("**/*.src", Value::Table(table(vec![("b", Value::Int(2))]))),
    ]);
    let hit = select_overrides("/proj", &overrides, "/proj/foo/bar.src").unwrap();
    assert_eq!(
        hit,
        vec![table(vec![("a", Value::Int(1))]), table(vec![("b", Value::Int(2))])]
    );
    let miss = select_overrides("/proj", &overrides, "/proj/baz/bar.src").unwrap();
    assert_eq!(miss, vec![table(vec![("b", Value::Int(2))])]);
}

#[test]
fn override_selection_errors() {
    let bad_pattern = table(vec![("a***", Value::Table(Table::new()))]);
    assert_eq!(
        select_overrides("/proj", &bad_pattern, "/proj/a"),
        Err(OverrideError::BadPattern("a***".to_string()))
    );
    let not_table = table(vec![("*", Value::Int(1))]);
    assert_eq!(
        select_overrides("/proj", &not_table, "/proj/a"),
        Err(OverrideError::NotATable("*".to_string()))
    );
    let unmatched = table(vec![("zzz", Value::Int(1))]);
    assert_eq!(select_overrides("/proj", &unmatched, "/proj/a"), Ok(vec![]));
}

#[test]
fn probe_plan_walks_up() {
    let plan = probe_plan(&strings(&["home", "u", "proj"]));
    assert_eq!(
        plan,
        strings(&["minicrates", "proj/minicrates", "u/proj/minicrates", "home/u/proj/minicrates"])
    );
    let deep = probe_plan(&strings(&["a", "b", "c", "d", "e", "f"]));
    assert_eq!(deep.len(), 5);
    assert_eq!(deep[4], "c/d/e/f/minicrates");
}

#[test]
fn probe_is_bounded_to_five() {
    let plan = probe_plan(&strings(&["a", "b", "c", "d", "e", "f"]));
    let mut declared: Vec<Option<Vec<String>>> = vec![None; 6];
    declared[5] = Some(strings(&["b/c/d/e/f/minicrates"]));
    assert!(!workspace_lists_member(&plan, &declared));
    declared[2] = Some(strings(&["x", "e/f/minicrates"]));
    assert!(workspace_lists_member(&plan, &declared));
    assert!(!workspace_lists_member(&plan, &vec![]));
}

#[test]
fn manifest_reads_workspace() {
    let with = table(vec![(
        "workspace",
        Value::Table(table(vec![("members", Value::Array(vec![s("minicrates"), s("x")]))])),
    )]);
    let m = Manifest::from_table(&with).unwrap();
    assert_eq!(m.workspace.unwrap().members, strings(&["minicrates", "x"]));
    assert!(Manifest::from_table(&Table::new()).unwrap().workspace.is_none());
    let bad = table(vec![("workspace", Value::Table(table(vec![("members", Value::Array(vec![Value::Int(1)]))])))]);
    assert!(Manifest::from_table(&bad).is_none());
    let no_members = table(vec![("workspace", Value::Table(Table::new()))]);
    assert!(Manifest::from_table(&no_members).is_none());
}

#[test]
fn minicrates_reads_overrides() {
    let file = table(vec![("minicrates", Value::Table(table(vec![("foo/*", Value::Table(Table::new()))])))]);
    let m = Minicrates::from_table(&file).unwrap();
    assert_eq!(m.minicrates, Some(table(vec![("foo/*", Value::Table(Table::new()))])));
    assert!(Minicrates::from_table(&Table::new()).unwrap().minicrates.is_none());
    assert!(Minicrates::from_table(&table(vec![("minicrates", Value::Int(3))])).is_none());
}
