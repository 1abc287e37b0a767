use dimpact::languages::rust::RustAnalyzer;
use dimpact::languages::LanguageAnalyzer;

#[test]
fn extract_basic_symbols() {
    let src = r#"pub struct S { x: i32 }

impl S { fn m(&self) {} }

fn foo() {
    println!("hi");
}

enum E { A, B }
"#;
    let ana = RustAnalyzer::new();
    let syms = LanguageAnalyzer::symbols_in_file(&ana, "lib.rs", src);
    let names: Vec<_> = syms.iter().map(|s| (&s.name, &s.kind)).collect();
    assert!(names.iter().any(|(n, _)| **n == "S"));
    assert!(names.iter().any(|(n, _)| **n == "foo"));
    assert!(names.iter().any(|(n, _)| **n == "E"));
    let foo = syms.iter().find(|s| s.name == "foo").unwrap();
    assert!(foo.range.end_line >= foo.range.start_line);
}

#[test]
fn extract_unresolved_refs_basic() {
    let src = r#"fn foo() { bar(); x.baz(); println!("ok"); }"#;
    let ana = RustAnalyzer::new();
    let refs = ana.unresolved_refs("lib.rs", src);
    let names: Vec<_> = refs.iter().map(|r| r.name.as_str()).collect();
    assert!(names.contains(&"bar"));
    assert!(names.contains(&"baz"));
    assert!(!names.contains(&"println"));
}

#[test]
fn extract_qualified_refs() {
    let src = r#"fn foo() { crate::utils::call(); a::b::c(); }"#;
    let ana = RustAnalyzer::new();
    let refs = ana.unresolved_refs("lib.rs", src);
    assert!(refs.iter().any(|r| r.name == "call" && r.qualifier.as_deref() == Some("crate::utils")));
    assert!(refs.iter().any(|r| r.name == "c" && r.qualifier.as_deref() == Some("a::b")));
}

#[test]
fn parse_imports_variants() {
    let src = r#"use a::b::c;
use x as y;
use a::b::{d, e as f};
"#;
    let ana = RustAnalyzer::new();
    let m = ana.imports_in_file("lib.rs", src);
    assert_eq!(m.lookup("c").unwrap(), "a::b::c");
    assert_eq!(m.lookup("y").unwrap(), "x");
    assert_eq!(m.lookup("d").unwrap(), "a::b::d");
    assert_eq!(m.lookup("f").unwrap(), "a::b::e");
}

#[test]
fn imports_cover_globs_and_mods() {
    let src = "use a::b::*;\nmod util;\n";
    let ana = RustAnalyzer::new();
    let m = ana.imports_in_file("src/lib.rs", src);
    assert_eq!(m.lookup("__glob__a::b").unwrap(), "a::b");
    assert_eq!(m.lookup("util").unwrap(), "src::util");
}

#[test]
fn symbol_id_is_stable() {
    let id = dimpact::ir::SymbolId::new(
        "rust",
        "src/lib.rs",
        &dimpact::ir::SymbolKind::Function,
        "foo",
        12,
    );
    assert_eq!(id.0, "rust:src/lib.rs:fn:foo:12");
    let id2 = dimpact::ir::SymbolId::new(
        "rust",
        "src/lib.rs",
        &dimpact::ir::SymbolKind::Function,
        "foo",
        12,
    );
    assert_eq!(id.0, id2.0);
}

#[test]
fn seed_symbol_grammar() {
    let s = dimpact::ir::parse_seed_symbol("rust:src/lib.rs:fn:foo:12").unwrap();
    assert_eq!(s.id.0, "rust:src/lib.rs:fn:foo:12");
    assert_eq!(s.name, "foo");
    assert_eq!(s.kind, dimpact::ir::SymbolKind::Function);
    assert_eq!(s.file, "src/lib.rs");
    assert_eq!(s.range.start_line, 12);
    assert_eq!(s.range.end_line, 12);
    assert_eq!(s.language, "rust");

    // tag aliases are canonicalized into the rebuilt id
    let f = dimpact::ir::parse_seed_symbol("rust:a.rs:function:foo:1").unwrap();
    assert_eq!(f.kind, dimpact::ir::SymbolKind::Function);
    assert_eq!(f.id.0, "rust:a.rs:fn:foo:1");
    let m = dimpact::ir::parse_seed_symbol("rust:a.rs:module:top:1").unwrap();
    assert_eq!(m.kind, dimpact::ir::SymbolKind::Module);
    assert_eq!(m.id.0, "rust:a.rs:mod:top:1");

    assert!(dimpact::ir::parse_seed_symbol("rust:a.rs:widget:foo:1").is_none());
    assert!(dimpact::ir::parse_seed_symbol("rust:a.rs:fn:foo:notaline").is_none());
    assert!(dimpact::ir::parse_seed_symbol("rust:a.rs:fn:foo").is_none());
}
