use dimpact::dfg::{DataFlowGraph, DependencyKind, DfgEdge, DfgNode};
use dimpact::impact::ImpactOutput;
use dimpact::ir::reference::{RefKind, Reference};
use dimpact::ir::{Symbol, SymbolId, SymbolKind, TextRange};
use dimpact::render::{dfg_to_dot, to_dot, to_html};

fn mk_sym(file: &str, name: &str, line: u32) -> Symbol {
    let kind = SymbolKind::Function;
    Symbol {
        id: SymbolId::new("rust", file, &kind, name, line),
        name: name.to_string(),
        kind,
        file: file.to_string(),
        range: TextRange { start_line: line, end_line: line },
        language: "rust".to_string(),
    }
}

#[test]
fn test_dfg_to_dot_empty() {
    let graph = DataFlowGraph { nodes: Vec::new(), edges: Vec::new() };
    let dot = dfg_to_dot(&graph);
    assert!(dot.starts_with("digraph pdg"));
}

#[test]
fn test_dfg_to_dot_simple() {
    let node = DfgNode {
        id: "n1".to_string(),
        name: "x".to_string(),
        file: "f.rs".to_string(),
        line: 1,
    };
    let edge = DfgEdge { from: "n1".to_string(), to: "n1".to_string(), kind: DependencyKind::Data };
    let graph = DataFlowGraph { nodes: vec![node.clone()], edges: vec![edge] };
    let dot = dfg_to_dot(&graph);
    assert!(dot.contains("\"n1\""));
    assert!(dot.contains("solid"));
}

#[test]
fn to_dot_highlights_path_edges() {
    let a = mk_sym("f.rs", "a", 1);
    let b = mk_sym("f.rs", "b", 2);
    let c = mk_sym("f.rs", "c", 3);
    let edges = vec![
        Reference {
            from: a.id.clone(),
            to: b.id.clone(),
            kind: RefKind::Call,
            file: "f.rs".into(),
            line: 2,
        },
        Reference {
            from: b.id.clone(),
            to: c.id.clone(),
            kind: RefKind::Call,
            file: "f.rs".into(),
            line: 3,
        },
    ];
    let out = ImpactOutput {
        changed_symbols: vec![a.clone()],
        impacted_symbols: vec![b.clone(), c.clone()],
        impacted_files: vec!["f.rs".into()],
        edges: edges.clone(),
        impacted_by_file: Vec::new(),
    };
    let dot = to_dot(&out);
    assert!(dot.contains("color=\"#e33\""), "expected highlighted path edges");
}

#[test]
fn to_html_embeds_assets() {
    let changed = mk_sym("src/lib.rs", "foo", 10);
    let out = ImpactOutput {
        changed_symbols: vec![changed.clone()],
        impacted_symbols: vec![],
        impacted_files: vec!["src/lib.rs".into()],
        edges: vec![],
        impacted_by_file: Vec::new(),
    };
    let html = to_html(&out);
    assert!(html.contains("<!doctype html>"));
    assert!(
        html.contains("const WORKER_SRC = \""),
        "expected worker script to be embedded as JSON string"
    );
    assert!(html.contains("class=\"symbol-select\""));
    assert!(html.contains("symbols-select-all"));
}
