use dimpact::impact::{
    build_project_graph, compute_impact, module_path_for_file, path_is_ignored, ImpactDirection,
    ImpactOptions,
};
use dimpact::mapping::{compute_changed_symbols, LanguageMode, SourceFile};
use dimpact::diff::parse_unified_diff;
use dimpact::ir::Symbol;

fn src(path: &str, text: &str) -> SourceFile {
    SourceFile { path: path.to_string(), text: text.to_string() }
}

fn opts(direction: ImpactDirection) -> ImpactOptions {
    ImpactOptions { direction, max_depth: Some(100), with_edges: Some(false), ignore_dirs: Vec::new() }
}

#[test]
fn impact_simple_callers() {
    let sources = vec![src("main.rs", "fn bar() {}\nfn foo() { bar(); }\n")];
    let (index, refs) = build_project_graph(&sources);
    let bar = index.symbols.iter().find(|s| s.name == "bar").unwrap().clone();
    let out = compute_impact(&vec![bar], &index, &refs, &opts(ImpactDirection::Callers));
    assert!(out.impacted_symbols.iter().any(|s| s.name == "foo"));
    assert_eq!(out.impacted_files, vec!["main.rs".to_string()]);
}

#[test]
fn impact_qualified_call_resolves_callee() {
    let sources = vec![
        src("utils.rs", "pub fn c() {}\n"),
        src("main.rs", "fn b() { crate::utils::c(); }\n"),
    ];
    let (index, refs) = build_project_graph(&sources);
    let b = index.symbols.iter().find(|s| s.name == "b").unwrap().clone();
    let out = compute_impact(&vec![b], &index, &refs, &opts(ImpactDirection::Callees));
    assert!(out.impacted_symbols.iter().any(|s| s.name == "c" && s.file == "utils.rs"));
}

#[test]
fn impact_aliased_import_resolves_callee() {
    let sources = vec![
        src("utils.rs", "pub fn c() {}\n"),
        src("main.rs", "use crate::utils::c;\nfn b() { c(); }\nfn a() {}\n"),
    ];
    let (index, refs) = build_project_graph(&sources);
    let b = index.symbols.iter().find(|s| s.name == "b").unwrap().clone();
    let out = compute_impact(&vec![b], &index, &refs, &opts(ImpactDirection::Callees));
    assert!(out.impacted_symbols.iter().any(|s| s.name == "c" && s.file == "utils.rs"));
}

#[test]
fn method_call_prefers_method_candidate() {
    let sources = vec![src(
        "main.rs",
        "struct S;\nimpl S {\n}\nfn m() {}\nfn caller(s: S) { s.m(); }\n",
    )];
    // a method and a free function share the name: the resolver must
    // prefer the method for a member-style call site
    let method = dimpact::ir::Symbol {
        id: dimpact::ir::SymbolId::new(
            "rust",
            "main.rs",
            &dimpact::ir::SymbolKind::Method,
            "m",
            2,
        ),
        name: "m".to_string(),
        kind: dimpact::ir::SymbolKind::Method,
        file: "main.rs".to_string(),
        range: dimpact::ir::TextRange { start_line: 2, end_line: 3 },
        language: "rust".to_string(),
    };
    let (index, _refs) = build_project_graph(&sources);
    let mut symbols = index.symbols;
    symbols.push(method.clone());
    let index2 = dimpact::ir::reference::SymbolIndex::build(symbols);
    let urefs = vec![dimpact::ir::reference::UnresolvedRef {
        name: "m".to_string(),
        kind: dimpact::ir::reference::RefKind::Call,
        file: "main.rs".to_string(),
        line: 5,
        qualifier: None,
        is_method: true,
    }];
    let refs2 = dimpact::impact::resolve_references(&index2, &urefs, &Vec::new());
    assert_eq!(refs2.len(), 1);
    assert_eq!(refs2[0].to.0, method.id.0);
}

#[test]
fn ignore_dir_drops_seed_and_filters_output() {
    let sources = vec![
        src("src/main.rs", "fn main_fn() { g(); }\n"),
        src("dist/generated.rs", "fn g() {}\n"),
    ];
    let (index, refs) = build_project_graph(&sources);
    let g = index.symbols.iter().find(|s| s.name == "g").unwrap().clone();

    let out = compute_impact(&vec![g.clone()], &index, &refs, &opts(ImpactDirection::Callers));
    assert!(out.impacted_symbols.iter().any(|s| s.name == "main_fn"));

    let with_ignore = ImpactOptions {
        direction: ImpactDirection::Callers,
        max_depth: Some(100),
        with_edges: Some(false),
        ignore_dirs: vec!["dist".to_string()],
    };
    let out2 = compute_impact(&vec![g], &index, &refs, &with_ignore);
    assert!(out2.impacted_symbols.is_empty(), "seed in ignored dir must contribute nothing");
}

#[test]
fn max_depth_bounds_expansion() {
    let sources = vec![src(
        "main.rs",
        "fn a() { b(); }\nfn b() { c(); }\nfn c() {}\n",
    )];
    let (index, refs) = build_project_graph(&sources);
    let a = index.symbols.iter().find(|s| s.name == "a").unwrap().clone();
    let shallow = ImpactOptions {
        direction: ImpactDirection::Callees,
        max_depth: Some(1),
        with_edges: Some(false),
        ignore_dirs: Vec::new(),
    };
    let out = compute_impact(&vec![a.clone()], &index, &refs, &shallow);
    assert!(out.impacted_symbols.iter().any(|s| s.name == "b"));
    assert!(!out.impacted_symbols.iter().any(|s| s.name == "c"));
    let deep = compute_impact(&vec![a], &index, &refs, &opts(ImpactDirection::Callees));
    assert!(deep.impacted_symbols.iter().any(|s| s.name == "c"));
}

#[test]
fn with_edges_emits_justifying_edges() {
    let sources = vec![src("main.rs", "fn bar() {}\nfn foo() { bar(); }\n")];
    let (index, refs) = build_project_graph(&sources);
    let bar = index.symbols.iter().find(|s| s.name == "bar").unwrap().clone();
    let o = ImpactOptions {
        direction: ImpactDirection::Callers,
        max_depth: Some(100),
        with_edges: Some(true),
        ignore_dirs: Vec::new(),
    };
    let out = compute_impact(&vec![bar], &index, &refs, &o);
    assert!(out.edges.iter().any(|e| e.from.0.contains("foo") && e.to.0.contains("bar")));
    for e in &out.edges {
        assert!(e.from.0.contains("foo") || e.from.0.contains("bar"));
    }
}

#[test]
fn changed_symbols_basic() {
    let code = "fn foo() {\n    println!(\"one\");\n}\n\nfn bar() {}\n";
    let diff = "diff --git a/main.rs b/main.rs\n--- a/main.rs\n+++ b/main.rs\n@@ -1,3 +1,4 @@\n fn foo() {\n-    println!(\"one\");\n+    println!(\"one\");\n+    println!(\"two\");\n }\n";
    let parsed = parse_unified_diff(diff).unwrap();
    let sources = vec![src("main.rs", code)];
    let out = compute_changed_symbols(&parsed, &sources, LanguageMode::Rust);
    assert!(out.changed_files.iter().any(|p| p.ends_with("main.rs")));
    assert!(out.changed_symbols.iter().any(|s| s.name == "foo"));
    assert!(!out.changed_symbols.iter().any(|s| s.name == "bar"));
}

#[test]
fn module_paths_follow_convention() {
    assert_eq!(module_path_for_file("a/b/mod.rs"), "a::b");
    assert_eq!(module_path_for_file("src/lib.rs"), "src");
    assert_eq!(module_path_for_file("a/util.rs"), "a::util");
    assert_eq!(module_path_for_file("x/index.ts"), "x");
}

#[test]
fn ignored_paths_match_by_prefix() {
    let dirs = vec!["dist".to_string()];
    assert!(path_is_ignored("dist/generated.js", &dirs));
    assert!(path_is_ignored("dist", &dirs));
    assert!(!path_is_ignored("distx/file.js", &dirs));
    assert!(!path_is_ignored("src/main.js", &dirs));
}

#[test]
fn mod_rs_module_resolution() {
    let sources = vec![
        src("a/b/mod.rs", "pub fn c() {}\n"),
        src("a.rs", "fn x(){ crate::a::b::c(); }\n"),
    ];
    let (index, refs) = build_project_graph(&sources);
    let x = index.symbols.iter().find(|s| s.name == "x").unwrap().clone();
    let out = compute_impact(&vec![x], &index, &refs, &opts(ImpactDirection::Callees));
    assert!(out.impacted_symbols.iter().any(|s| s.name == "c" && s.file == "a/b/mod.rs"));
}

#[test]
fn digest_is_hex_and_input_sensitive() {
    let a = dimpact::cache::file_digest_hex(&b"hello".to_vec());
    let b = dimpact::cache::file_digest_hex(&b"hellp".to_vec());
    assert_eq!(a.len(), 64);
    assert!(a.chars().all(|c| c.is_ascii_hexdigit()));
    assert_ne!(a, b);
    let a2 = dimpact::cache::file_digest_hex(&b"hello".to_vec());
    assert_eq!(a, a2);
}

#[test]
fn repo_key_shape() {
    let k = dimpact::cache::repo_key("/home/user/project");
    assert_eq!(k.len(), 10 + 1 + "project".len());
    assert!(k.ends_with("-project"));
}

#[test]
fn cache_paths_resolve() {
    let p = dimpact::cache::resolve_paths(
        dimpact::cache::CacheScope::Local,
        None,
        "/repo",
        "/home/u/.config",
        "",
    );
    assert_eq!(p.dir, "/repo/.dimpact/cache/v1");
    assert_eq!(p.db, "/repo/.dimpact/cache/v1/index.db");
    assert_eq!(p.lock, "/repo/.dimpact/cache/v1/.lock");
    let q = dimpact::cache::resolve_paths(
        dimpact::cache::CacheScope::Global,
        None,
        "/repo",
        "/home/u/.config",
        "abc-repo",
    );
    assert_eq!(q.dir, "/home/u/.config/dimpact/cache/v1/abc-repo");
    let o = dimpact::cache::resolve_paths(
        dimpact::cache::CacheScope::Local,
        Some("/tmp/cachedir"),
        "/repo",
        "/home/u/.config",
        "",
    );
    assert_eq!(o.dir, "/tmp/cachedir");
}

#[test]
fn enclosing_symbol_prefers_smallest_range() {
    let mk = |name: &str, kind: dimpact::ir::SymbolKind, s: u32, e: u32| Symbol {
        id: dimpact::ir::SymbolId::new("rust", "f.rs", &kind, name, s),
        name: name.to_string(),
        kind,
        file: "f.rs".to_string(),
        range: dimpact::ir::TextRange { start_line: s, end_line: e },
        language: "rust".to_string(),
    };
    let outer = mk("S", dimpact::ir::SymbolKind::Struct, 1, 10);
    let inner = mk("m", dimpact::ir::SymbolKind::Method, 3, 5);
    let index = dimpact::ir::reference::SymbolIndex::build(vec![outer, inner.clone()]);
    let got = index.enclosing_symbol("f.rs", 4).unwrap();
    assert_eq!(got.id.0, inner.id.0);
    assert!(index.enclosing_symbol("f.rs", 99).is_none());
}

#[test]
fn verify_plan_lists_disagreements_sorted() {
    let db = vec![
        dimpact::cache::DbFileRecord {
            path: "a.rs".to_string(),
            digest: "d1".to_string(),
            present: true,
            lang: "rust".to_string(),
        },
        dimpact::cache::DbFileRecord {
            path: "gone.rs".to_string(),
            digest: "d2".to_string(),
            present: true,
            lang: "rust".to_string(),
        },
    ];
    let fs = vec![
        dimpact::cache::FsFileState {
            path: "a.rs".to_string(),
            digest: "d1-changed".to_string(),
            lang: "rust".to_string(),
        },
        dimpact::cache::FsFileState {
            path: "new.rs".to_string(),
            digest: "d3".to_string(),
            lang: "rust".to_string(),
        },
    ];
    let plan = dimpact::cache::files_to_update(&db, &fs);
    assert_eq!(plan, vec!["a.rs".to_string(), "gone.rs".to_string(), "new.rs".to_string()]);
}
