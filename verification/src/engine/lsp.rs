//! The language-server back-end's decision logic: capability probing
//! outcomes, the strategies chosen from them, and the byte framing of
//! its wire messages. The session itself (spawning and talking to a
//! server) is outside the library.

use vstd::prelude::*;
use crate::ir::SymbolKind;

verus! {

/// The capabilities a probed server reported.
#[derive(Debug, Clone, Copy, PartialEq, Eq, Structural)]
pub struct CapabilityMatrix {
    pub call_hierarchy: bool,
    pub references: bool,
    pub definition: bool,
    pub document_symbol: bool,
    pub workspace_symbol: bool,
}

impl Default for CapabilityMatrix {
    /// Nothing reported.
    fn default() -> (r: CapabilityMatrix)
        ensures
            !r.call_hierarchy && !r.references && !r.definition && !r.document_symbol
                && !r.workspace_symbol,
    {
        CapabilityMatrix {
            call_hierarchy: false,
            references: false,
            definition: false,
            document_symbol: false,
            workspace_symbol: false,
        }
    }
}

/// Options of a server session.
#[derive(Debug, Clone, Copy, PartialEq, Eq)]
pub struct LspConfig {
    pub strict: bool,
    pub dump_capabilities: bool,
    pub mock: bool,
    pub mock_caps: Option<crate::engine::CapsHint>,
}

#[derive(Debug, Clone, Copy, PartialEq, Eq, Structural)]
pub enum ChangedStrategy {
    DocumentSymbol,
    WorkspaceSymbol,
    TsFallback,
}

#[derive(Debug, Clone, Copy, PartialEq, Eq, Structural)]
pub enum ImpactStrategy {
    CallHierarchy,
    References,
    TsFallback,
}

/// How changed symbols are found: document symbols when offered, else
/// workspace symbols, else the syntactic fallback.
pub open spec fn spec_changed_strategy(caps: CapabilityMatrix) -> ChangedStrategy {
    if caps.document_symbol {
        ChangedStrategy::DocumentSymbol
    } else if caps.workspace_symbol {
        ChangedStrategy::WorkspaceSymbol
    } else {
        ChangedStrategy::TsFallback
    }
}

pub fn decide_changed_strategy(caps: &CapabilityMatrix) -> (r: ChangedStrategy)
    ensures
        r == spec_changed_strategy(*caps),
{
    if caps.document_symbol {
        ChangedStrategy::DocumentSymbol
    } else if caps.workspace_symbol {
        ChangedStrategy::WorkspaceSymbol
    } else {
        ChangedStrategy::TsFallback
    }
}

/// How impact is traversed: the call hierarchy when offered, else
/// references or definitions, else the syntactic fallback.
pub open spec fn spec_impact_strategy(caps: CapabilityMatrix) -> ImpactStrategy {
    if caps.call_hierarchy {
        ImpactStrategy::CallHierarchy
    } else if caps.references || caps.definition {
        ImpactStrategy::References
    } else {
        ImpactStrategy::TsFallback
    }
}

pub fn decide_impact_strategy(caps: &CapabilityMatrix) -> (r: ImpactStrategy)
    ensures
        r == spec_impact_strategy(*caps),
{
    if caps.call_hierarchy {
        ImpactStrategy::CallHierarchy
    } else if caps.references || caps.definition {
        ImpactStrategy::References
    } else {
        ImpactStrategy::TsFallback
    }
}

/// The symbol kind a server's numeric kind denotes.
pub open spec fn spec_map_lsp_kind(k: u64) -> SymbolKind {
    if k == 6 {
        SymbolKind::Method
    } else if k == 12 {
        SymbolKind::Function
    } else if k == 5 || k == 23 {
        SymbolKind::Struct
    } else if k == 10 || k == 22 {
        SymbolKind::Enum
    } else if k == 9 {
        SymbolKind::Trait
    } else if k == 2 {
        SymbolKind::Module
    } else {
        SymbolKind::Function
    }
}

/// Map a server's numeric symbol kind.
pub fn map_lsp_symbol_kind(k: u64) -> (r: SymbolKind)
    ensures
        r == spec_map_lsp_kind(k),
{
    if k == 6 {
        SymbolKind::Method
    } else if k == 12 {
        SymbolKind::Function
    } else if k == 5 || k == 23 {
        SymbolKind::Struct
    } else if k == 10 || k == 22 {
        SymbolKind::Enum
    } else if k == 9 {
        SymbolKind::Trait
    } else if k == 2 {
        SymbolKind::Module
    } else {
        SymbolKind::Function
    }
}

/// A range intersects a set of changed lines.
#[verifier::loop_isolation(false)]
pub fn intersects_lines(start: u32, end: u32, lines: &Vec<u32>) -> (r: bool)
    ensures
        r == exists|q: int| 0 <= q < lines@.len() && start <= #[trigger] lines@[q] <= end,
{
    let mut i: usize = 0;
    while i < lines.len()
        invariant
            i <= lines@.len(),
            forall|q: int| 0 <= q < i ==> !(start <= #[trigger] lines@[q] <= end),
        decreases lines.len() - i,
    {
        let ln = lines[i];
        if start <= ln && ln <= end {
            return true;
        }
        i = i + 1;
    }
    false
}

/// The ASCII byte of a character.
pub open spec fn spec_ascii(c: char) -> u8 {
    (c as u8)
}

/// The header of a framed message: `Content-Length: N` and the blank
/// line, as bytes.
pub open spec fn spec_frame_header(n: nat) -> Seq<u8> {
    ("Content-Length: "@ + crate::strutil::spec_dec(n) + "\r\n\r\n"@).map_values(
        |c: char| spec_ascii(c),
    )
}

#[verifier::loop_isolation(false)]
fn chars_to_ascii(v: &Vec<char>) -> (r: Vec<u8>)
    ensures
        r@ == v@.map_values(|c: char| spec_ascii(c)),
{
    let mut out: Vec<u8> = Vec::new();
    let mut i: usize = 0;
    proof {
        assert(out@ =~= v@.subrange(0, 0).map_values(|c: char| spec_ascii(c)));
    }
    while i < v.len()
        invariant
            i <= v@.len(),
            out@ == v@.subrange(0, i as int).map_values(|c: char| spec_ascii(c)),
        decreases v.len() - i,
    {
        let c = v[i];
        out.push(#[verifier::truncate] (c as u8));
        proof {
            assert(out@ =~= v@.subrange(0, i as int + 1).map_values(|c: char| spec_ascii(c)));
        }
        i = i + 1;
    }
    proof {
        assert(v@.subrange(0, v@.len() as int) =~= v@);
    }
    out
}

/// Frame a message body with its `Content-Length` header.
#[verifier::loop_isolation(false)]
pub fn encode_jsonrpc_message(body: &Vec<u8>) -> (r: Vec<u8>)
    ensures
        r@ == spec_frame_header(body@.len() as nat) + body@,
{
    let mut head = crate::strutil::str_to_chars("Content-Length: ");
    let lenv = crate::strutil::u64_to_chars(body.len() as u64);
    crate::ir::append_chars(&mut head, &lenv);
    let crlf = crate::strutil::str_to_chars("\r\n\r\n");
    crate::ir::append_chars(&mut head, &crlf);
    let out0 = chars_to_ascii(&head);
    let mut out = out0;
    let ghost o0 = out@;
    let mut i: usize = 0;
    while i < body.len()
        invariant
            i <= body@.len(),
            out@ == o0 + body@.subrange(0, i as int),
        decreases body.len() - i,
    {
        out.push(body[i]);
        assert(out@ =~= o0 + body@.subrange(0, i as int + 1));
        i = i + 1;
    }
    proof {
        assert(body@.subrange(0, body@.len() as int) =~= body@);
        assert(head@ =~= "Content-Length: "@ + crate::strutil::spec_dec(body@.len() as nat)
            + "\r\n\r\n"@);
    }
    out
}

#[verifier::loop_isolation(false)]
fn find_blank_line(input: &Vec<u8>) -> (r: Option<usize>)
    ensures
        match r {
            Some(i) => i + 4 <= input@.len(),
            None => true,
        },
{
    if input.len() < 4 {
        return None;
    }
    let mut i: usize = 0;
    let last = input.len() - 4;
    while i <= last
        invariant
            i <= last + 1,
            last == input@.len() - 4,
        decreases last + 1 - i,
    {
        if input[i] == 13u8 && input[i + 1] == 10u8 && input[i + 2] == 13u8 && input[i + 3]
            == 10u8 {
            return Some(i);
        }
        i = i + 1;
    }
    None
}

/// The leading run of decimal digits.
#[verifier::loop_isolation(false)]
fn take_digits(v: &Vec<char>) -> (r: Vec<char>)
{
    let mut j: usize = 0;
    while j < v.len() && '0' <= v[j] && v[j] <= '9'
        invariant
            j <= v@.len(),
        decreases v.len() - j,
    {
        j = j + 1;
    }
    crate::strutil::subvec(v, 0, j)
}

/// Decode one framed message: the body bytes and the total bytes
/// consumed. `None` when the frame is incomplete or the header is
/// malformed.
#[verifier::loop_isolation(false)]
pub fn decode_jsonrpc_message(input: &Vec<u8>) -> (r: Option<(Vec<u8>, usize)>)
    ensures
        match r {
            Some(p) => p.1 <= input@.len() && p.0@.len() <= p.1 && p.0@ == input@.subrange(
                p.1 - p.0@.len(),
                p.1 as int,
            ),
            None => true,
        },
{
    let hdr_end = match find_blank_line(input) {
        Some(i) => i,
        None => {
            return None;
        },
    };
    // scan the header characters for the Content-Length field
    let mut header: Vec<char> = Vec::new();
    let mut i: usize = 0;
    while i < hdr_end
        invariant
            i <= hdr_end,
            hdr_end + 4 <= input@.len(),
        decreases hdr_end - i,
    {
        let b = input[i];
        if b < 128 {
            header.push(b as char);
        } else {
            header.push(' ');
        }
        i = i + 1;
    }
    let lit = crate::strutil::str_to_chars("Content-Length:");
    let len_val: Option<u32> = match crate::strutil::index_of_sub(&header, &lit, 0) {
        Some(p) => {
            proof {
                assert(crate::strutil::occurs_at(header@, lit@, p as int));
                reveal_strlit("Content-Length:");
            }
            let hn = header.len();
            assert(p + 15 <= hn);
            let rest = crate::strutil::subvec(&header, p + 15, hn);
            let t = crate::strutil::trim(&rest);
            let digits = take_digits(&t);
            if digits.len() == 0 {
                None
            } else {
                Some(crate::strutil::parse_u32_or_zero(&digits))
            }
        },
        None => None,
    };
    let n: usize = match len_val {
        Some(v) => v as usize,
        None => {
            return None;
        },
    };
    let in_len = input.len();
    assert(hdr_end + 4 <= in_len);
    let body_start = hdr_end + 4;
    if input.len() - body_start < n {
        return None;
    }
    let mut body: Vec<u8> = Vec::new();
    let mut j: usize = body_start;
    let stop = body_start + n;
    while j < stop
        invariant
            body_start <= j <= stop,
            stop <= input@.len(),
            body@ == input@.subrange(body_start as int, j as int),
        decreases stop - j,
    {
        body.push(input[j]);
        assert(body@ =~= input@.subrange(body_start as int, j as int + 1));
        j = j + 1;
    }
    Some((body, stop))
}

} // verus!
