//! Engine selection data: which back-end runs an analysis and with
//! what options. The engines themselves perform I/O and live outside
//! the library; the decision logic they share is in the `lsp` module.

use vstd::prelude::*;

pub mod lsp;

verus! {

#[derive(Debug, Clone, Copy, PartialEq, Eq, Structural)]
pub enum EngineKind {
    Auto,
    Ts,
    Lsp,
}

/// A capability hint supplied for tests and probes.
#[derive(Debug, Clone, Copy, PartialEq, Eq, Structural)]
pub struct CapsHint {
    pub call_hierarchy: bool,
    pub references: bool,
    pub definition: bool,
    pub document_symbol: bool,
    pub workspace_symbol: bool,
}

/// Options of engine construction.
#[derive(Debug, Clone, Copy, PartialEq, Eq)]
pub struct EngineConfig {
    pub lsp_strict: bool,
    pub dump_capabilities: bool,
    pub mock_lsp: bool,
    pub mock_caps: Option<CapsHint>,
}

impl Default for EngineConfig {
    /// All options off.
    fn default() -> (r: EngineConfig)
        ensures
            !r.lsp_strict && !r.dump_capabilities && !r.mock_lsp && r.mock_caps is None,
    {
        EngineConfig { lsp_strict: false, dump_capabilities: false, mock_lsp: false, mock_caps: None }
    }
}

} // verus!
