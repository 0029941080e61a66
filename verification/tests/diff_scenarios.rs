//! End-to-end diff scenarios: building two package values and checking the
//! report the diff engine produces.

use breakpoint::contents::PkgContents;
use breakpoint::diff::get_diff_between;
use breakpoint::ecma::{DeclKind, DefaultDeclKind, ModuleAst, ModuleItem, Specifier};
use breakpoint::entries::PkgEntries;
use breakpoint::jsonval::JsonVal;
use breakpoint::pkg::Pkg;
use breakpoint::results::{exit_code, BreakType, PkgEntryType};
use breakpoint::strmap::StrMap;
use breakpoint::walker::{get_exports_in_module, ModuleMap, WalkError};

fn manifest(fields: Vec<(&str, JsonVal)>) -> JsonVal {
    let mut obj: Vec<(String, JsonVal)> = vec![
        ("name".to_string(), JsonVal::Str("pkg".to_string())),
        ("version".to_string(), JsonVal::Str("1.0.0".to_string())),
    ];
    for (k, v) in fields {
        obj.push((k.to_string(), v));
    }
    JsonVal::Obj(obj)
}

fn file_map(paths: &[&str]) -> StrMap<Vec<u8>> {
    let mut m: StrMap<Vec<u8>> = StrMap::new();
    for p in paths {
        m.insert(p.to_string(), b"x".to_vec());
    }
    m
}

fn export_fn(name: &str) -> ModuleItem {
    ModuleItem::ExportDecl(DeclKind::Func(name.to_string()))
}

fn mk_pkg(config: &JsonVal, files: &[&str], modules: Vec<(&str, ModuleAst)>) -> Pkg {
    let files_field = match config.obj_get("files") {
        Some(v) => v,
        None => &JsonVal::Null,
    };
    let contents = PkgContents::new(file_map(files), files_field, None, false)
        .expect("glob program builds");
    let entries = PkgEntries::new(config, &contents).expect("entries resolve");
    let mut module_map: ModuleMap = StrMap::new();
    for (path, ast) in modules {
        module_map.insert(path.to_string(), ast);
    }
    Pkg::new(
        String::new(),
        config,
        "https://registry.npmjs.org/".to_string(),
        contents,
        entries,
        module_map,
    )
}

#[test]
fn simple_rename_is_one_removed_or_renamed_export() {
    let config = manifest(vec![("main", JsonVal::Str("index.js".to_string()))]);
    let prev_ast = ModuleAst { body: vec![export_fn("foo"), export_fn("bar")] };
    let cur_ast = ModuleAst { body: vec![export_fn("foo"), export_fn("baz")] };
    let prev = mk_pkg(&config, &["index.js"], vec![("index.js", prev_ast)]);
    let cur = mk_pkg(&config, &["index.js"], vec![("index.js", cur_ast)]);
    let d = get_diff_between(&prev, &cur).expect("diff runs");
    assert_eq!(d.issue_count(), 1);
    let mut found = false;
    for rec in &d.broken_entries {
        if rec.issue_count() > 0 {
            assert!(matches!(rec.kind, PkgEntryType::Main));
            assert!(!rec.is_missing);
            assert_eq!(rec.broken_exports.len(), 1);
            assert_eq!(rec.broken_exports[0].label, "Named export 'bar'");
            assert!(matches!(rec.broken_exports[0].break_type, BreakType::RemovedOrRenamed));
            found = true;
        }
    }
    assert!(found);
    assert_eq!(exit_code(&d), 1);
}

#[test]
fn removed_default_is_reported() {
    let config = manifest(vec![("main", JsonVal::Str("index.js".to_string()))]);
    let prev_ast = ModuleAst {
        body: vec![ModuleItem::ExportDefaultDecl(DefaultDeclKind::Func(Some("f".to_string())))],
    };
    let cur_ast = ModuleAst { body: vec![] };
    let prev = mk_pkg(&config, &["index.js"], vec![("index.js", prev_ast)]);
    let cur = mk_pkg(&config, &["index.js"], vec![("index.js", cur_ast)]);
    let d = get_diff_between(&prev, &cur).expect("diff runs");
    assert_eq!(d.issue_count(), 1);
    let mut found = false;
    for rec in &d.broken_entries {
        if rec.issue_count() > 0 {
            assert_eq!(rec.broken_exports.len(), 1);
            assert_eq!(rec.broken_exports[0].label, "Default export");
            assert!(matches!(rec.broken_exports[0].break_type, BreakType::Removed));
            found = true;
        }
    }
    assert!(found);
    assert_eq!(exit_code(&d), 1);
}

#[test]
fn facade_reexport_change_is_reported() {
    let config = manifest(vec![("main", JsonVal::Str("index.ts".to_string()))]);
    let facade = ModuleAst { body: vec![ModuleItem::ExportAll("./impl".to_string())] };
    let facade2 = ModuleAst { body: vec![ModuleItem::ExportAll("./impl".to_string())] };
    let prev_impl = ModuleAst { body: vec![export_fn("a"), export_fn("b")] };
    let cur_impl = ModuleAst { body: vec![export_fn("a")] };
    let prev = mk_pkg(
        &config,
        &["index.ts", "impl.ts"],
        vec![("index.ts", facade), ("impl", prev_impl)],
    );
    let cur = mk_pkg(
        &config,
        &["index.ts", "impl.ts"],
        vec![("index.ts", facade2), ("impl", cur_impl)],
    );
    let d = get_diff_between(&prev, &cur).expect("diff runs");
    assert_eq!(d.issue_count(), 1);
    let mut labels: Vec<String> = Vec::new();
    for rec in &d.broken_entries {
        for ex in &rec.broken_exports {
            labels.push(ex.label.clone());
        }
    }
    assert_eq!(labels, vec!["Named export 'b'".to_string()]);
}

#[test]
fn asset_removal_is_reported() {
    let config = manifest(vec![("main", JsonVal::Str("index.js".to_string()))]);
    let prev = mk_pkg(
        &config,
        &["index.js", "README.md", "assets/logo.png"],
        vec![("index.js", ModuleAst { body: vec![] })],
    );
    let cur = mk_pkg(
        &config,
        &["index.js", "README.md"],
        vec![("index.js", ModuleAst { body: vec![] })],
    );
    let d = get_diff_between(&prev, &cur).expect("diff runs");
    assert_eq!(d.removed_assets.len(), 1);
    assert_eq!(d.removed_assets[0], "assets/logo.png");
    assert_eq!(d.issue_count(), 1);
    assert_eq!(exit_code(&d), 1);
}

#[test]
fn missing_browser_entry_is_reported() {
    let browser_prev = JsonVal::Obj(vec![
        ("./a.js".to_string(), JsonVal::Str("./a.js".to_string())),
        ("./b.js".to_string(), JsonVal::Str("./b.js".to_string())),
    ]);
    let browser_cur = JsonVal::Obj(vec![
        ("./a.js".to_string(), JsonVal::Str("./a.js".to_string())),
    ]);
    let config_prev = manifest(vec![
        ("main", JsonVal::Str("index.js".to_string())),
        ("browser", browser_prev),
    ]);
    let config_cur = manifest(vec![
        ("main", JsonVal::Str("index.js".to_string())),
        ("browser", browser_cur),
    ]);
    let empty = || ModuleAst { body: vec![] };
    let prev = mk_pkg(
        &config_prev,
        &["index.js", "a.js", "b.js"],
        vec![("index.js", empty()), ("a.js", empty()), ("b.js", empty())],
    );
    let cur = mk_pkg(
        &config_cur,
        &["index.js", "a.js", "b.js"],
        vec![("index.js", empty()), ("a.js", empty()), ("b.js", empty())],
    );
    let d = get_diff_between(&prev, &cur).expect("diff runs");
    assert_eq!(d.issue_count(), 1);
    let mut found = false;
    for rec in &d.broken_entries {
        if rec.is_missing {
            assert!(matches!(rec.kind, PkgEntryType::Browser));
            assert_eq!(rec.name, "./b.js");
            assert!(rec.broken_exports.is_empty());
            found = true;
        }
    }
    assert!(found);
    assert_eq!(exit_code(&d), 1);
}

#[test]
fn identical_versions_report_nothing() {
    let config = manifest(vec![("main", JsonVal::Str("index.js".to_string()))]);
    let ast = || ModuleAst { body: vec![export_fn("foo"), export_fn("bar")] };
    let prev = mk_pkg(&config, &["index.js", "README.md"], vec![("index.js", ast())]);
    let cur = mk_pkg(&config, &["index.js", "README.md"], vec![("index.js", ast())]);
    let d = get_diff_between(&prev, &cur).expect("diff runs");
    assert_eq!(d.removed_assets.len(), 0);
    assert_eq!(d.issue_count(), 0);
    assert_eq!(exit_code(&d), 0);
}

#[test]
fn renamed_and_namespace_reexports_resolve() {
    let entry = ModuleAst {
        body: vec![
            ModuleItem::ExportNamed {
                src: Some("./impl".to_string()),
                specifiers: vec![
                    Specifier::Named { orig: "a".to_string(), exported: Some("x".to_string()) },
                    Specifier::Named { orig: "default".to_string(), exported: Some("d".to_string()) },
                ],
            },
            ModuleItem::ExportNamed {
                src: Some("./impl".to_string()),
                specifiers: vec![Specifier::Namespace("ns".to_string())],
            },
        ],
    };
    let impl_ast = ModuleAst {
        body: vec![
            export_fn("a"),
            export_fn("b"),
            ModuleItem::ExportDefaultDecl(DefaultDeclKind::Class(Some("C".to_string()))),
        ],
    };
    let mut modules: ModuleMap = StrMap::new();
    modules.insert("index.js".to_string(), entry);
    modules.insert("impl".to_string(), impl_ast);
    let exports = get_exports_in_module(&modules, "index.js").expect("extracts");
    assert!(exports.default.is_none());
    assert!(exports.named.get("x").is_some());
    assert!(exports.named.get("d").is_some());
    // The rename claimed `a` out of the facade, so the namespace image
    // holds only what was left.
    assert!(exports.named.get("ns.a").is_none());
    assert!(exports.named.get("ns.b").is_some());
    assert!(exports.named.get("a").is_none());
}

#[test]
fn extraction_is_idempotent_on_the_same_map() {
    let entry = ModuleAst {
        body: vec![
            export_fn("one"),
            ModuleItem::Decl(DeclKind::Var(vec!["two".to_string()])),
            ModuleItem::ExportNamed {
                src: None,
                specifiers: vec![Specifier::Named { orig: "two".to_string(), exported: None }],
            },
            ModuleItem::ExportDefaultExpr(Some("one".to_string())),
        ],
    };
    let mut modules: ModuleMap = StrMap::new();
    modules.insert("index.js".to_string(), entry);
    let first = get_exports_in_module(&modules, "index.js").expect("extracts");
    let second = get_exports_in_module(&modules, "index.js").expect("extracts");
    assert_eq!(first.named.len(), second.named.len());
    for name in ["one", "two"] {
        let a = first.named.get(name).expect("present");
        let b = second.named.get(name).expect("present");
        assert_eq!(a.name(), b.name());
    }
    assert_eq!(first.default.is_some(), second.default.is_some());
}

#[test]
fn reexport_cycle_is_fatal() {
    let a = ModuleAst { body: vec![ModuleItem::ExportAll("./b".to_string())] };
    let b = ModuleAst { body: vec![ModuleItem::ExportAll("./a".to_string())] };
    let mut modules: ModuleMap = StrMap::new();
    modules.insert("a".to_string(), a);
    modules.insert("b".to_string(), b);
    let r = get_exports_in_module(&modules, "a");
    assert!(matches!(r, Err(WalkError::CyclicReExport(_))));
}

#[test]
fn unresolvable_import_is_reported() {
    let a = ModuleAst { body: vec![ModuleItem::ExportAll("./gone".to_string())] };
    let mut modules: ModuleMap = StrMap::new();
    modules.insert("a".to_string(), a);
    match get_exports_in_module(&modules, "a") {
        Err(WalkError::ImportNotFound(p)) => assert_eq!(p, "gone"),
        other => panic!("expected a missing-import fault, got {:?}", other.is_ok()),
    }
}
