use dimpact::dfg::{
    DataFlowGraph, DependencyKind, DfgBuilder, DfgNode, PdgBuilder, RubyDfgBuilder,
    RustDfgBuilder,
};
use dimpact::ir::reference::{RefKind, Reference};
use dimpact::ir::SymbolId;

#[test]
fn build_empty_pdg() {
    let dfg = DataFlowGraph { nodes: Vec::new(), edges: Vec::new() };
    let refs: Vec<Reference> = Vec::new();
    let pdg = PdgBuilder::build(&dfg, &refs);
    assert!(pdg.nodes.is_empty());
    assert!(pdg.edges.is_empty());
}

#[test]
fn build_pdg_with_refs() {
    let from_id = SymbolId::new("rust", "f.rs", &dimpact::ir::SymbolKind::Function, "foo", 1);
    let to_id = SymbolId::new("rust", "f.rs", &dimpact::ir::SymbolKind::Function, "bar", 5);
    let r = Reference {
        from: from_id.clone(),
        to: to_id.clone(),
        kind: RefKind::Call,
        file: "f.rs".to_string(),
        line: 10,
    };
    let dfg = DataFlowGraph { nodes: Vec::new(), edges: Vec::new() };
    let pdg = PdgBuilder::build(&dfg, &vec![r]);
    assert_eq!(pdg.edges.len(), 1);
    let e = &pdg.edges[0];
    assert_eq!(&e.from, &from_id.0);
    assert_eq!(&e.to, &to_id.0);
    assert_eq!(e.kind, DependencyKind::Data);
}

#[test]
fn pdg_includes_control_and_call_edges() {
    let mut dfg = DataFlowGraph { nodes: Vec::new(), edges: Vec::new() };
    dfg.nodes.push(DfgNode {
        id: "f.rs:ctrl:2:4".to_string(),
        name: "control".to_string(),
        file: "f.rs".to_string(),
        line: 2,
    });
    dfg.nodes.push(DfgNode {
        id: "f.rs:def: x:2".to_string(),
        name: "x".to_string(),
        file: "f.rs".to_string(),
        line: 2,
    });
    let ref_sym = Reference {
        from: SymbolId("rust:f.rs:fn:foo:1".to_string()),
        to: SymbolId("rust:f.rs:fn:bar:1".to_string()),
        kind: RefKind::Call,
        file: "f.rs".to_string(),
        line: 10,
    };
    let pdg = PdgBuilder::build(&dfg, &vec![ref_sym.clone()]);
    assert!(pdg.edges.iter().any(|e| e.from == ref_sym.from.0
        && e.to == ref_sym.to.0
        && e.kind == DependencyKind::Data));
    assert!(pdg.nodes.iter().any(|n| n.id == "f.rs:ctrl:2:4"));
}

#[test]
fn build_empty_graph() {
    let dfg = RustDfgBuilder::build("foo.rs", "");
    assert!(dfg.nodes.is_empty(), "expected no nodes in empty source");
    assert!(dfg.edges.is_empty(), "expected no edges in empty source");
}

#[test]
fn build_assignment_definitions() {
    let src = r#"
        let x = 1;
        x = 42;
        let y = x;
        "#;
    let dfg = RustDfgBuilder::build("f.rs", src);
    let defs: Vec<_> = dfg
        .nodes
        .iter()
        .filter(|n| n.name == "x" && n.id.contains(":def:"))
        .collect();
    assert!(
        defs.len() >= 2,
        "expected >=2 definitions of x, got {}",
        defs.len()
    );
    let uses: Vec<_> = dfg
        .edges
        .iter()
        .filter(|e| e.kind == DependencyKind::Data && e.to.contains(":use:x:"))
        .collect();
    assert!(!uses.is_empty(), "expected data dependency edges for x usage");
}

#[test]
fn build_return_dependency() {
    let src = r#"
        fn foo() {
            let a = compute();
            return a;
        }
        "#;
    let dfg = RustDfgBuilder::build("f.rs", src);
    let def_ids: Vec<&String> = dfg
        .nodes
        .iter()
        .filter(|n| n.name == "a" && n.id.contains(":def:"))
        .map(|n| &n.id)
        .collect();
    assert_eq!(def_ids.len(), 1, "expected one definition of a, got {}", def_ids.len());
    let use_ids: Vec<&String> = dfg
        .nodes
        .iter()
        .filter(|n| n.name == "a" && n.id.contains(":use:"))
        .map(|n| &n.id)
        .collect();
    assert_eq!(use_ids.len(), 1, "expected one use of a, got {}", use_ids.len());
    let edge_exists = dfg.edges.iter().any(|e| {
        e.kind == DependencyKind::Data && e.from == *def_ids[0] && e.to == *use_ids[0]
    });
    assert!(
        edge_exists,
        "expected data edge from '{}' to '{}'",
        def_ids[0], use_ids[0]
    );
}

#[test]
fn build_control_dependencies() {
    let src = r#"
        let x = 1;
        if x > 0 {
            let y = x;
            let z = y;
        }
        "#;
    let dfg = RustDfgBuilder::build("f.rs", src);
    let ctrl_nodes: Vec<_> = dfg.nodes.iter().filter(|n| n.id.contains(":ctrl:")).collect();
    assert!(!ctrl_nodes.is_empty(), "expected control nodes");
    let ctrl_edges: Vec<_> = dfg
        .edges
        .iter()
        .filter(|e| e.kind == DependencyKind::Control)
        .collect();
    assert!(!ctrl_edges.is_empty(), "expected control edges");
    for edge in ctrl_edges {
        assert!(
            edge.from.contains(":ctrl:"),
            "control edge should originate from control node"
        );
    }
}

#[test]
fn build_ruby_dfg_simple() {
    let src = r#"
        def foo(a)
            b = a
            if b > 0
                c = b
            end
            return c
        end
        "#;
    let path = "test.rb";
    let dfg = RubyDfgBuilder::build(path, src);
    assert!(
        dfg.nodes
            .iter()
            .any(|n| n.name == "a" && n.id.starts_with("test.rb:def:a:")),
        "expected definition node for 'a'"
    );
    assert!(dfg.nodes.iter().any(|n| n.id.contains(":def:b:")), "expected def node for 'b'");
    assert!(dfg.nodes.iter().any(|n| n.id.contains(":def:c:")), "expected def node for 'c'");
    assert!(
        dfg.edges
            .iter()
            .any(|e| e.from.contains(":def:a:") && e.to.contains(":use:a:")),
        "expected data edge from def:a to use:a"
    );
    assert!(
        dfg.edges
            .iter()
            .any(|e| e.from.contains(":def:b:") && e.to.contains(":use:b:")),
        "expected data edge from def:b to use:b"
    );
    assert!(dfg.nodes.iter().any(|n| n.id.contains(":ctrl:")), "expected control node");
    assert!(
        dfg.edges.iter().any(|e| e.kind == DependencyKind::Control),
        "expected control edges"
    );
}

#[test]
fn pdg_augmentation_only_adds_data_edges() {
    let mut pdg = RustDfgBuilder::build(
        "f.rs",
        "fn callee() {}\nfn caller() {\n    let v = callee();\n    return v;\n}\n",
    );
    let n_edges = pdg.edges.len();
    let refs = vec![Reference {
        from: SymbolId("rust:f.rs:fn:caller:2".to_string()),
        to: SymbolId("rust:f.rs:fn:callee:1".to_string()),
        kind: RefKind::Call,
        file: "f.rs".to_string(),
        line: 3,
    }];
    let sources = vec![dimpact::mapping::SourceFile {
        path: "f.rs".to_string(),
        text: "fn callee() {}\nfn caller() {\n    let v = callee();\n    return v;\n}\n"
            .to_string(),
    }];
    let (index, _edges) = dimpact::impact::build_project_graph(&sources);
    dimpact::dfg::PdgBuilder::augment_symbolic_propagation(&mut pdg, &refs, &index);
    assert!(pdg.edges.len() >= n_edges);
    for e in &pdg.edges[n_edges..] {
        assert_eq!(e.kind, DependencyKind::Data);
    }
    // the def node at the call site is fed by the callee
    assert!(pdg.edges[n_edges..]
        .iter()
        .any(|e| e.from == "rust:f.rs:fn:callee:1" && e.to == "f.rs:def:v:3"));
}
