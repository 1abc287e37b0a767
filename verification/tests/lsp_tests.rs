use dimpact::engine::lsp::{
    decode_jsonrpc_message, encode_jsonrpc_message, decide_changed_strategy,
    decide_impact_strategy, CapabilityMatrix, ChangedStrategy, ImpactStrategy,
};

#[test]
fn strategy_prefers_document_symbol() {
    let caps = CapabilityMatrix {
        document_symbol: true,
        workspace_symbol: false,
        call_hierarchy: false,
        references: false,
        definition: false,
    };
    assert_eq!(decide_changed_strategy(&caps), ChangedStrategy::DocumentSymbol);
}

#[test]
fn strategy_falls_back_workspace_symbol() {
    let caps = CapabilityMatrix {
        document_symbol: false,
        workspace_symbol: true,
        call_hierarchy: false,
        references: false,
        definition: false,
    };
    assert_eq!(decide_changed_strategy(&caps), ChangedStrategy::WorkspaceSymbol);
}

#[test]
fn strategy_ts_when_no_symbol_caps() {
    let caps = CapabilityMatrix::default();
    assert_eq!(decide_changed_strategy(&caps), ChangedStrategy::TsFallback);
}

#[test]
fn impact_prefers_call_hierarchy() {
    let caps = CapabilityMatrix { call_hierarchy: true, ..Default::default() };
    assert_eq!(decide_impact_strategy(&caps), ImpactStrategy::CallHierarchy);
}

#[test]
fn impact_uses_references_if_available() {
    let caps = CapabilityMatrix { references: true, ..Default::default() };
    assert_eq!(decide_impact_strategy(&caps), ImpactStrategy::References);
    let caps = CapabilityMatrix { definition: true, ..Default::default() };
    assert_eq!(decide_impact_strategy(&caps), ImpactStrategy::References);
}

#[test]
fn jsonrpc_framing_roundtrip() {
    let body: Vec<u8> =
        br#"{"jsonrpc":"2.0","id":1,"method":"initialize","params":{"capabilities":{}}}"#.to_vec();
    let buf = encode_jsonrpc_message(&body);
    let (body2, used) = decode_jsonrpc_message(&buf).expect("decode");
    assert_eq!(body2, body);
    let text = String::from_utf8(body2).unwrap();
    assert!(text.contains("initialize"));
    assert_eq!(used, buf.len());
}

#[test]
fn jsonrpc_decode_with_extra_data() {
    let body: Vec<u8> = br#"{"jsonrpc":"2.0","id":1,"result":{"ok":true}}"#.to_vec();
    let mut buf = encode_jsonrpc_message(&body);
    buf.extend_from_slice(b"trailing");
    let (body2, used) = decode_jsonrpc_message(&buf).expect("decode");
    assert!(String::from_utf8(body2).unwrap().contains("result"));
    assert!(used < buf.len());
}
