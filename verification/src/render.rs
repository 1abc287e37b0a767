//! Renderers: GraphViz dot text for flow and impact graphs, and a
//! self-contained HTML report. Rendering is presentation only; the
//! contracts pin the escaping helpers and the document framing.

use vstd::prelude::*;
use crate::dfg::{DataFlowGraph, DependencyKind};
use crate::impact::ImpactOutput;
use crate::ir::{spec_kind_tag, SymbolKind};
use crate::strutil::{
    chars_to_string, is_prefix, spec_split, split_sub, str_to_chars, subvec, u32_to_chars,
    parse_u32_or_zero, valid_u32, dec_val, replace_sub, spec_replace,
};

verus! {

/// Dot escaping: a double quote becomes a backslash-quote pair and a
/// newline becomes a space.
pub open spec fn spec_esc_dot(s: Seq<char>) -> Seq<char>
    decreases s.len(),
{
    if s.len() == 0 {
        s
    } else {
        (if s[0] == '"' {
            seq!['\\', '"']
        } else if s[0] == '\n' {
            seq![' ']
        } else {
            seq![s[0]]
        }) + spec_esc_dot(s.drop_first())
    }
}

/// Escape a value for a dot attribute.
#[verifier::loop_isolation(false)]
pub fn esc_dot(s: &Vec<char>) -> (r: Vec<char>)
    ensures
        r@ == spec_esc_dot(s@),
{
    let mut out: Vec<char> = Vec::new();
    let mut i: usize = 0;
    proof {
        assert(s@.subrange(0, s@.len() as int) =~= s@);
        assert(out@ + spec_esc_dot(s@) =~= spec_esc_dot(s@));
    }
    while i < s.len()
        invariant
            i <= s@.len(),
            out@ + spec_esc_dot(s@.subrange(i as int, s@.len() as int)) == spec_esc_dot(s@),
        decreases s.len() - i,
    {
        let ghost tail = s@.subrange(i as int, s@.len() as int);
        let ghost o0 = out@;
        let c = s[i];
        if c == '"' {
            out.push('\\');
            out.push('"');
            proof {
                assert(out@ =~= o0 + seq!['\\', '"']);
            }
        } else if c == '\n' {
            out.push(' ');
            proof {
                assert(out@ =~= o0 + seq![' ']);
            }
        } else {
            out.push(c);
            proof {
                assert(out@ =~= o0 + seq![c]);
            }
        }
        proof {
            assert(tail.drop_first() =~= s@.subrange(i as int + 1, s@.len() as int));
            assert(tail[0] == s@[i as int]);
            assert((o0 + (if tail[0] == '"' {
                seq!['\\', '"']
            } else if tail[0] == '\n' {
                seq![' ']
            } else {
                seq![tail[0]]
            })) + spec_esc_dot(tail.drop_first()) =~= o0 + ((if tail[0] == '"' {
                seq!['\\', '"']
            } else if tail[0] == '\n' {
                seq![' ']
            } else {
                seq![tail[0]]
            }) + spec_esc_dot(tail.drop_first())));
        }
        i = i + 1;
    }
    proof {
        assert(s@.subrange(i as int, s@.len() as int) =~= Seq::<char>::empty());
        assert(out@ + Seq::<char>::empty() =~= out@);
    }
    out
}

/// HTML escaping of `&`, `<` and `>`.
pub open spec fn spec_h(s: Seq<char>) -> Seq<char>
    decreases s.len(),
{
    if s.len() == 0 {
        s
    } else {
        (if s[0] == '&' {
            "&amp;"@
        } else if s[0] == '<' {
            "&lt;"@
        } else if s[0] == '>' {
            "&gt;"@
        } else {
            seq![s[0]]
        }) + spec_h(s.drop_first())
    }
}

/// Escape text for HTML.
#[verifier::loop_isolation(false)]
pub fn h(s: &Vec<char>) -> (r: Vec<char>)
    ensures
        r@ == spec_h(s@),
{
    let amp = str_to_chars("&amp;");
    let lt = str_to_chars("&lt;");
    let gt = str_to_chars("&gt;");
    let mut out: Vec<char> = Vec::new();
    let mut i: usize = 0;
    proof {
        assert(s@.subrange(0, s@.len() as int) =~= s@);
        assert(out@ + spec_h(s@) =~= spec_h(s@));
    }
    while i < s.len()
        invariant
            i <= s@.len(),
            amp@ == "&amp;"@,
            lt@ == "&lt;"@,
            gt@ == "&gt;"@,
            out@ + spec_h(s@.subrange(i as int, s@.len() as int)) == spec_h(s@),
        decreases s.len() - i,
    {
        let ghost tail = s@.subrange(i as int, s@.len() as int);
        let ghost o0 = out@;
        let c = s[i];
        if c == '&' {
            crate::ir::append_chars(&mut out, &amp);
        } else if c == '<' {
            crate::ir::append_chars(&mut out, &lt);
        } else if c == '>' {
            crate::ir::append_chars(&mut out, &gt);
        } else {
            out.push(c);
            proof {
                assert(out@ =~= o0 + seq![c]);
            }
        }
        proof {
            assert(tail.drop_first() =~= s@.subrange(i as int + 1, s@.len() as int));
            assert(tail[0] == s@[i as int]);
            let piece: Seq<char> = if tail[0] == '&' {
                "&amp;"@
            } else if tail[0] == '<' {
                "&lt;"@
            } else if tail[0] == '>' {
                "&gt;"@
            } else {
                seq![tail[0]]
            };
            assert((o0 + piece) + spec_h(tail.drop_first()) =~= o0 + (piece + spec_h(
                tail.drop_first(),
            )));
        }
        i = i + 1;
    }
    proof {
        assert(s@.subrange(i as int, s@.len() as int) =~= Seq::<char>::empty());
        assert(out@ + Seq::<char>::empty() =~= out@);
    }
    out
}

/// Guard embedded script text against a closing tag.
pub fn escape_script(src: &Vec<char>) -> (r: Vec<char>)
    ensures
        r@ == spec_replace(src@, "</"@, "<\\/"@),
{
    let pat = str_to_chars("</");
    let repl = str_to_chars("<\\/");
    replace_sub(src, &pat, &repl)
}

/// The id tag of a symbol kind.
pub fn kind_code(k: &SymbolKind) -> (r: &'static str)
    ensures
        r@ == spec_kind_tag(*k),
{
    crate::ir::kind_tag_str(k)
}

/// The parsed form of a symbol id: language, file, kind tag, name and
/// start line, for ids with at least five `:`-separated fields.
pub open spec fn spec_parse_symbol_id(id: Seq<char>) -> Option<
    (Seq<char>, Seq<char>, Seq<char>, Seq<char>, u32),
> {
    let parts = spec_split(id, ":"@);
    if parts.len() < 5 {
        Option::None
    } else if !valid_u32(parts[4]) {
        Option::None
    } else {
        Option::Some((parts[0], parts[1], parts[2], parts[3], dec_val(parts[4]) as u32))
    }
}

/// Parse a symbol id into its five fields.
pub fn parse_symbol_id(id: &Vec<char>) -> (r: Option<
    (Vec<char>, Vec<char>, Vec<char>, Vec<char>, u32),
>)
    ensures
        match r {
            Some(t) => spec_parse_symbol_id(id@) matches Some(tv) && t.0@ == tv.0 && t.1@ == tv.1
                && t.2@ == tv.2 && t.3@ == tv.3 && t.4 == tv.4,
            None => spec_parse_symbol_id(id@) is None,
        },
{
    let colon = str_to_chars(":");
    proof {
        reveal_strlit(":");
    }
    let parts = split_sub(id, &colon);
    if parts.len() < 5 {
        proof {
            assert(parts.deep_view().len() == parts@.len());
        }
        return None;
    }
    proof {
        assert(parts.deep_view().len() == parts@.len());
        assert(parts.deep_view()[0] == parts@[0]@);
        assert(parts.deep_view()[1] == parts@[1]@);
        assert(parts.deep_view()[2] == parts@[2]@);
        assert(parts.deep_view()[3] == parts@[3]@);
        assert(parts.deep_view()[4] == parts@[4]@);
    }
    let linev = &parts[4];
    if !crate::strutil::is_valid_u32_chars(linev) {
        return None;
    }
    let n = parse_u32_or_zero(linev);
    let p0 = subvec(&parts[0], 0, parts[0].len());
    let p1 = subvec(&parts[1], 0, parts[1].len());
    let p2 = subvec(&parts[2], 0, parts[2].len());
    let p3 = subvec(&parts[3], 0, parts[3].len());
    proof {
        assert(parts@[0]@.subrange(0, parts@[0]@.len() as int) =~= parts@[0]@);
        assert(parts@[1]@.subrange(0, parts@[1]@.len() as int) =~= parts@[1]@);
        assert(parts@[2]@.subrange(0, parts@[2]@.len() as int) =~= parts@[2]@);
        assert(parts@[3]@.subrange(0, parts@[3]@.len() as int) =~= parts@[3]@);
    }
    Some((p0, p1, p2, p3, n))
}

/// Prefixes compose.
proof fn lemma_prefix_trans(p: Seq<char>, a: Seq<char>, b: Seq<char>)
    requires
        is_prefix(p, a),
        is_prefix(a, b),
    ensures
        is_prefix(p, b),
{
    assert(b.subrange(0, p.len() as int) =~= a.subrange(0, p.len() as int)) by {
        assert(forall|k: int|
            0 <= k < p.len() ==> b.subrange(0, a.len() as int)[k] == #[trigger] b[k]);
        assert(forall|k: int| 0 <= k < p.len() ==> a[k] == #[trigger] b[k]);
    }
}

/// An occurrence inside a prefix stays an occurrence.
proof fn lemma_contains_prefix(p: Seq<char>, a: Seq<char>, b: Seq<char>)
    requires
        crate::strutil::contains_seq(a, p),
        is_prefix(a, b),
    ensures
        crate::strutil::contains_seq(b, p),
{
    let i = choose|i: int| crate::strutil::occurs_at(a, p, i);
    assert(b.subrange(i, i + p.len() as int) =~= a.subrange(i, i + p.len() as int)) by {
        assert(forall|k: int|
            0 <= k < a.len() ==> b.subrange(0, a.len() as int)[k] == #[trigger] b[k]);
        assert(forall|k: int| 0 <= k < a.len() ==> a[k] == #[trigger] b[k]);
    }
    assert(crate::strutil::occurs_at(b, p, i));
}

/// A prefix of `a` is a prefix of `a + b`.
proof fn lemma_prefix_append(p: Seq<char>, a: Seq<char>, b: Seq<char>)
    requires
        is_prefix(p, a),
    ensures
        is_prefix(p, a + b),
{
    assert((a + b).subrange(0, p.len() as int) =~= a.subrange(0, p.len() as int));
}

/// Append a literal to the buffer.
fn push_lit(out: &mut Vec<char>, lit: &str)
    ensures
        final(out)@ == old(out)@ + lit@,
{
    let v = str_to_chars(lit);
    crate::ir::append_chars(out, &v);
}

/// Convert a flow graph to GraphViz dot text.
#[verifier::loop_isolation(false)]
pub fn dfg_to_dot(graph: &DataFlowGraph) -> (r: String)
    ensures
        is_prefix("digraph pdg {"@, r@),
        crate::strutil::is_suffix("}\n"@, r@),
{
    let mut out = str_to_chars("digraph pdg {\n  rankdir=LR;\n  node [shape=oval, fontname=\"monospace\"];\n");
    proof {
        reveal_strlit("digraph pdg {");
        reveal_strlit("digraph pdg {\n  rankdir=LR;\n  node [shape=oval, fontname=\"monospace\"];\n");
        assert(out@.subrange(0, "digraph pdg {"@.len() as int) =~= "digraph pdg {"@);
    }
    let mut i: usize = 0;
    while i < graph.nodes.len()
        invariant
            i <= graph.nodes@.len(),
            is_prefix("digraph pdg {"@, out@),
        decreases graph.nodes.len() - i,
    {
        let ghost o0 = out@;
        push_dfg_node_line(&mut out, &graph.nodes[i]);
        proof {
            lemma_prefix_trans("digraph pdg {"@, o0, out@);
        }
        i = i + 1;
    }
    let mut j: usize = 0;
    while j < graph.edges.len()
        invariant
            j <= graph.edges@.len(),
            is_prefix("digraph pdg {"@, out@),
        decreases graph.edges.len() - j,
    {
        let ghost o0 = out@;
        push_dfg_edge_line(&mut out, &graph.edges[j]);
        proof {
            lemma_prefix_trans("digraph pdg {"@, o0, out@);
        }
        j = j + 1;
    }
    let ghost o0 = out@;
    push_lit(&mut out, "}\n");
    proof {
        lemma_prefix_append("digraph pdg {"@, o0, "}\n"@);
        reveal_strlit("}\n");
        assert(out@.subrange(out@.len() - 2, out@.len() as int) =~= "}\n"@);
    }
    chars_to_string(&out)
}

/// Append one dot node statement of a flow graph.
fn push_dfg_node_line(out: &mut Vec<char>, n: &crate::dfg::DfgNode)
    ensures
        is_prefix(old(out)@, final(out)@),
{
    let ghost o0 = out@;
    push_lit(out, "  \"");
    let idv = esc_dot(&str_to_chars(n.id.as_str()));
    crate::ir::append_chars(out, &idv);
    push_lit(out, "\" [label=\"");
    let namev = esc_dot(&str_to_chars(n.name.as_str()));
    crate::ir::append_chars(out, &namev);
    push_lit(out, "\n");
    let filev = esc_dot(&str_to_chars(n.file.as_str()));
    crate::ir::append_chars(out, &filev);
    push_lit(out, ":");
    let linev = u32_to_chars(n.line);
    crate::ir::append_chars(out, &linev);
    push_lit(out, "\"];\n");
    proof {
        assert(out@.subrange(0, o0.len() as int) =~= o0);
    }
}

/// Append one dot edge statement of a flow graph.
fn push_dfg_edge_line(out: &mut Vec<char>, e: &crate::dfg::DfgEdge)
    ensures
        is_prefix(old(out)@, final(out)@),
{
    let ghost o0 = out@;
    push_lit(out, "  \"");
    let fromv = esc_dot(&str_to_chars(e.from.as_str()));
    crate::ir::append_chars(out, &fromv);
    push_lit(out, "\" -> \"");
    let tov = esc_dot(&str_to_chars(e.to.as_str()));
    crate::ir::append_chars(out, &tov);
    match e.kind {
        DependencyKind::Data => push_lit(out, "\" [style=solid];\n"),
        DependencyKind::Control => push_lit(out, "\" [style=dashed];\n"),
    }
    proof {
        assert(out@.subrange(0, o0.len() as int) =~= o0);
    }
}

/// An undirected pair of node ids on a shortest path.
struct PairRec {
    a: String,
    b: String,
}

#[verifier::loop_isolation(false)]
fn pairs_contain(pairs: &Vec<PairRec>, a: &str, b: &str) -> (r: bool)
{
    let mut i: usize = 0;
    while i < pairs.len()
        invariant
            i <= pairs@.len(),
        decreases pairs.len() - i,
    {
        if crate::strutil::str_eq(pairs[i].a.as_str(), a) && crate::strutil::str_eq(
            pairs[i].b.as_str(),
            b,
        ) {
            return true;
        }
        i = i + 1;
    }
    false
}

#[verifier::loop_isolation(false)]
fn id_list_contains(v: &Vec<String>, x: &str) -> (r: bool)
{
    let mut i: usize = 0;
    while i < v.len()
        invariant
            i <= v@.len(),
        decreases v.len() - i,
    {
        if crate::strutil::str_eq(v[i].as_str(), x) {
            return true;
        }
        i = i + 1;
    }
    false
}

/// A record of a breadth-first parent.
struct ParRec {
    child: String,
    parent: String,
}

#[verifier::loop_isolation(false)]
fn parent_of(par: &Vec<ParRec>, child: &str) -> (r: Option<String>)
{
    let mut i: usize = 0;
    while i < par.len()
        invariant
            i <= par@.len(),
        decreases par.len() - i,
    {
        if crate::strutil::str_eq(par[i].child.as_str(), child) {
            return Some(par[i].parent.clone());
        }
        i = i + 1;
    }
    None
}

/// The undirected edge pairs lying on one shortest path from a changed
/// symbol to each impacted symbol, computed breadth-first over the
/// emitted edge set.
#[verifier::loop_isolation(false)]
fn compute_path_pairs(out: &ImpactOutput) -> (r: Vec<PairRec>)
{
    let mut pairs: Vec<PairRec> = Vec::new();
    if out.edges.len() == 0 {
        return pairs;
    }
    let mut queue: Vec<String> = Vec::new();
    let mut seen: Vec<String> = Vec::new();
    let mut par: Vec<ParRec> = Vec::new();
    let mut roots: Vec<String> = Vec::new();
    let mut i: usize = 0;
    while i < out.changed_symbols.len()
        invariant
            i <= out.changed_symbols@.len(),
        decreases out.changed_symbols.len() - i,
    {
        let id = &out.changed_symbols[i].id.0;
        roots.push(id.clone());
        if !id_list_contains(&seen, id.as_str()) {
            seen.push(id.clone());
            queue.push(id.clone());
        }
        i = i + 1;
    }
    let mut head: usize = 0;
    let mut fuel: usize = usize::MAX;
    while head < queue.len() && fuel > 0
        invariant
            head <= queue@.len(),
        decreases fuel,
    {
        fuel = fuel - 1;
        let u = queue[head].clone();
        head = head + 1;
        let mut e: usize = 0;
        while e < out.edges.len()
            invariant
                e <= out.edges@.len(),
                head <= queue@.len(),
            decreases out.edges.len() - e,
        {
            let edge = &out.edges[e];
            if crate::strutil::str_eq(edge.from.0.as_str(), u.as_str()) {
                if !id_list_contains(&seen, edge.to.0.as_str()) {
                    seen.push(edge.to.0.clone());
                    par.push(ParRec { child: edge.to.0.clone(), parent: u.clone() });
                    queue.push(edge.to.0.clone());
                }
            }
            if crate::strutil::str_eq(edge.to.0.as_str(), u.as_str()) {
                if !id_list_contains(&seen, edge.from.0.as_str()) {
                    seen.push(edge.from.0.clone());
                    par.push(ParRec { child: edge.from.0.clone(), parent: u.clone() });
                    queue.push(edge.from.0.clone());
                }
            }
            e = e + 1;
        }
    }
    let mut t: usize = 0;
    while t < out.impacted_symbols.len()
        invariant
            t <= out.impacted_symbols@.len(),
        decreases out.impacted_symbols.len() - t,
    {
        let mut cur = out.impacted_symbols[t].id.0.clone();
        let mut fuel2: usize = usize::MAX;
        while fuel2 > 0
            invariant
                true,
            decreases fuel2,
        {
            fuel2 = fuel2 - 1;
            match parent_of(&par, cur.as_str()) {
                Some(p) => {
                    pairs.push(PairRec { a: cur.clone(), b: p.clone() });
                    pairs.push(PairRec { a: p.clone(), b: cur.clone() });
                    if id_list_contains(&roots, p.as_str()) {
                        fuel2 = 0;
                    } else {
                        cur = p;
                    }
                },
                None => {
                    fuel2 = 0;
                },
            }
        }
        t = t + 1;
    }
    pairs
}

/// Convert an impact result to GraphViz dot text: changed symbols
/// filled red-ish, impacted blue-ish, context grey, and edges on a
/// shortest path highlighted.
#[verifier::loop_isolation(false)]
#[verifier::rlimit(100)]
pub fn to_dot(out_impact: &ImpactOutput) -> (r: String)
    ensures
        is_prefix("digraph impact {"@, r@),
        crate::strutil::is_suffix("}\n"@, r@),
{
    let mut out = str_to_chars("digraph impact {\n  rankdir=LR;\n  node [shape=box, fontname=\"monospace\"];\n");
    proof {
        reveal_strlit("digraph impact {");
        reveal_strlit("digraph impact {\n  rankdir=LR;\n  node [shape=box, fontname=\"monospace\"];\n");
        assert(out@.subrange(0, "digraph impact {"@.len() as int) =~= "digraph impact {"@);
    }
    let pairs = compute_path_pairs(out_impact);
    let mut seen: Vec<String> = Vec::new();
    let mut i: usize = 0;
    while i < out_impact.changed_symbols.len()
        invariant
            i <= out_impact.changed_symbols@.len(),
            is_prefix("digraph impact {"@, out@),
        decreases out_impact.changed_symbols.len() - i,
    {
        let ghost o0 = out@;
        let s = &out_impact.changed_symbols[i];
        if !id_list_contains(&seen, s.id.0.as_str()) {
            seen.push(s.id.0.clone());
            push_node_line(&mut out, s, "#fee");
            proof {
                lemma_prefix_trans("digraph impact {"@, o0, out@);
            }
        }
        i = i + 1;
    }
    let mut j: usize = 0;
    while j < out_impact.impacted_symbols.len()
        invariant
            j <= out_impact.impacted_symbols@.len(),
            is_prefix("digraph impact {"@, out@),
        decreases out_impact.impacted_symbols.len() - j,
    {
        let ghost o0 = out@;
        let s = &out_impact.impacted_symbols[j];
        if !id_list_contains(&seen, s.id.0.as_str()) {
            seen.push(s.id.0.clone());
            push_node_line(&mut out, s, "#eef");
            proof {
                lemma_prefix_trans("digraph impact {"@, o0, out@);
            }
        }
        j = j + 1;
    }
    let mut k: usize = 0;
    while k < out_impact.edges.len()
        invariant
            k <= out_impact.edges@.len(),
            is_prefix("digraph impact {"@, out@),
        decreases out_impact.edges.len() - k,
    {
        let ghost o0 = out@;
        let e = &out_impact.edges[k];
        let mut w: usize = 0;
        while w < 2
            invariant
                w <= 2,
                is_prefix("digraph impact {"@, out@),
            decreases 2 - w,
        {
            let ghost o1 = out@;
            let id: &String = if w == 0 {
                &e.from.0
            } else {
                &e.to.0
            };
            if !id_list_contains(&seen, id.as_str()) {
                seen.push(id.clone());
                push_ctx_node_line(&mut out, id);
                proof {
                    lemma_prefix_trans("digraph impact {"@, o1, out@);
                }
            }
            w = w + 1;
        }
        k = k + 1;
    }
    let mut k2: usize = 0;
    while k2 < out_impact.edges.len()
        invariant
            k2 <= out_impact.edges@.len(),
            is_prefix("digraph impact {"@, out@),
        decreases out_impact.edges.len() - k2,
    {
        let ghost o0 = out@;
        let e = &out_impact.edges[k2];
        let hl = pairs_contain(&pairs, e.from.0.as_str(), e.to.0.as_str());
        push_impact_edge_line(&mut out, e, hl);
        proof {
            lemma_prefix_trans("digraph impact {"@, o0, out@);
        }
        k2 = k2 + 1;
    }
    let ghost o0 = out@;
    push_lit(&mut out, "}\n");
    proof {
        lemma_prefix_append("digraph impact {"@, o0, "}\n"@);
        reveal_strlit("}\n");
        assert(out@.subrange(out@.len() - 2, out@.len() as int) =~= "}\n"@);
    }
    chars_to_string(&out)
}

/// Append one dot node statement with a fill colour.
fn push_node_line(out: &mut Vec<char>, s: &crate::ir::Symbol, color: &str)
    ensures
        is_prefix(old(out)@, final(out)@),
{
    let ghost o0 = out@;
    push_lit(out, "  \"");
    let idv = esc_dot(&str_to_chars(s.id.0.as_str()));
    crate::ir::append_chars(out, &idv);
    push_lit(out, "\" [label=\"");
    let namev = esc_dot(&str_to_chars(s.name.as_str()));
    crate::ir::append_chars(out, &namev);
    push_lit(out, "\\n");
    let filev = esc_dot(&str_to_chars(s.file.as_str()));
    crate::ir::append_chars(out, &filev);
    push_lit(out, ":");
    let linev = u32_to_chars(s.range.start_line);
    crate::ir::append_chars(out, &linev);
    push_lit(out, "\", style=filled, fillcolor=\"");
    let colorv = str_to_chars(color);
    crate::ir::append_chars(out, &colorv);
    push_lit(out, "\"];\n");
    proof {
        assert(out@.subrange(0, o0.len() as int) =~= o0);
    }
}

/// Append one grey context node statement.
fn push_ctx_node_line(out: &mut Vec<char>, id: &String)
    ensures
        is_prefix(old(out)@, final(out)@),
{
    let ghost o0 = out@;
    push_lit(out, "  \"");
    let idv = esc_dot(&str_to_chars(id.as_str()));
    crate::ir::append_chars(out, &idv);
    push_lit(out, "\" [style=filled, fillcolor=\"#eee\"];\n");
    proof {
        assert(out@.subrange(0, o0.len() as int) =~= o0);
    }
}

/// Append one impact edge statement, highlighted when on a path.
fn push_impact_edge_line(out: &mut Vec<char>, e: &crate::ir::reference::Reference, hl: bool)
    ensures
        is_prefix(old(out)@, final(out)@),
{
    let ghost o0 = out@;
    push_lit(out, "  \"");
    let fromv = esc_dot(&str_to_chars(e.from.0.as_str()));
    crate::ir::append_chars(out, &fromv);
    push_lit(out, "\" -> \"");
    let tov = esc_dot(&str_to_chars(e.to.0.as_str()));
    crate::ir::append_chars(out, &tov);
    if hl {
        push_lit(out, "\" [color=\"#e33\",penwidth=2];\n");
    } else {
        push_lit(out, "\";\n");
    }
    proof {
        assert(out@.subrange(0, o0.len() as int) =~= o0);
    }
}

/// JSON string encoding of a character vector.
fn json_string(v: &Vec<char>) -> (r: Vec<char>)
{
    let mut out: Vec<char> = Vec::new();
    out.push('"');
    let body = json_escape_body(v);
    crate::ir::append_chars(&mut out, &body);
    out.push('"');
    out
}

/// The escaped body of a JSON string, without the quotes.
#[verifier::loop_isolation(false)]
fn json_escape_body(v: &Vec<char>) -> (r: Vec<char>)
{
    let mut out: Vec<char> = Vec::new();
    let mut i: usize = 0;
    while i < v.len()
        invariant
            i <= v@.len(),
        decreases v.len() - i,
    {
        let c = v[i];
        if c == '"' {
            out.push('\\');
            out.push('"');
        } else if c == '\\' {
            out.push('\\');
            out.push('\\');
        } else if c == '\n' {
            out.push('\\');
            out.push('n');
        } else if c == '\r' {
            out.push('\\');
            out.push('r');
        } else if c == '\t' {
            out.push('\\');
            out.push('t');
        } else {
            out.push(c);
        }
        i = i + 1;
    }
    out
}

/// Append one list item with a selectable checkbox.
fn push_symbol_item(out: &mut Vec<char>, s: &crate::ir::Symbol, role: &str)
    ensures
        is_prefix(old(out)@, final(out)@),
        crate::strutil::contains_seq(final(out)@, "class=\"symbol-select\""@),
{
    let ghost o0 = out@;
    push_lit(out, "<li><label><input type=\"checkbox\" ");
    let ghost m0 = out@.len() as int;
    push_lit(out, "class=\"symbol-select\"");
    proof {
        reveal_strlit("class=\"symbol-select\"");
        assert(out@.subrange(m0, out@.len() as int) =~= "class=\"symbol-select\""@);
        assert(crate::strutil::occurs_at(out@, "class=\"symbol-select\""@, m0));
    }
    let ghost mseen = out@;
    push_lit(out, " value=\"");
    let idv = h(&str_to_chars(s.id.0.as_str()));
    crate::ir::append_chars(out, &idv);
    push_lit(out, "\" data-role=\"");
    let rolev = str_to_chars(role);
    crate::ir::append_chars(out, &rolev);
    push_lit(out, "\" checked> <code>");
    let idv2 = h(&str_to_chars(s.id.0.as_str()));
    crate::ir::append_chars(out, &idv2);
    push_lit(out, "</code> - ");
    let namev = h(&str_to_chars(s.name.as_str()));
    crate::ir::append_chars(out, &namev);
    push_lit(out, " (");
    let filev = h(&str_to_chars(s.file.as_str()));
    crate::ir::append_chars(out, &filev);
    push_lit(out, ":");
    let linev = u32_to_chars(s.range.start_line);
    crate::ir::append_chars(out, &linev);
    push_lit(out, ")</label></li>\n");
    proof {
        assert(out@.subrange(0, o0.len() as int) =~= o0);
        assert(out@.subrange(0, mseen.len() as int) =~= mseen);
        lemma_contains_prefix("class=\"symbol-select\""@, mseen, out@);
    }
}

/// Append one graph-data JSON node record.
fn push_json_node(out: &mut Vec<char>, s: &crate::ir::Symbol, changed: bool, first: bool)
    ensures
        is_prefix(old(out)@, final(out)@),
{
    let ghost o0 = out@;
    if !first {
        push_lit(out, ",");
    }
    push_lit(out, "{\"data\":{\"id\":");
    let idv = json_string(&str_to_chars(s.id.0.as_str()));
    crate::ir::append_chars(out, &idv);
    push_lit(out, ",\"label\":");
    let namev = json_string(&str_to_chars(s.name.as_str()));
    crate::ir::append_chars(out, &namev);
    push_lit(out, ",\"file\":");
    let filev = json_string(&str_to_chars(s.file.as_str()));
    crate::ir::append_chars(out, &filev);
    push_lit(out, ",\"line\":");
    let linev = u32_to_chars(s.range.start_line);
    crate::ir::append_chars(out, &linev);
    if changed {
        push_lit(out, ",\"changed\":true,\"kind\":\"");
    } else {
        push_lit(out, ",\"changed\":false,\"kind\":\"");
    }
    let kindv = str_to_chars(kind_code(&s.kind));
    crate::ir::append_chars(out, &kindv);
    push_lit(out, "\"}}");
    proof {
        assert(out@.subrange(0, o0.len() as int) =~= o0);
    }
}

/// Render an impact result as a self-contained HTML report: counts,
/// selectable symbol lists, an edge table, and the graph data with a
/// worker script embedded as JSON strings.
#[verifier::loop_isolation(false)]
#[verifier::rlimit(100)]
pub fn to_html(out_impact: &ImpactOutput) -> (r: String)
    ensures
        is_prefix("<!doctype html>"@, r@),
        crate::strutil::contains_seq(r@, "symbols-select-all"@),
        crate::strutil::contains_seq(r@, "const WORKER_SRC = \""@),
        out_impact.changed_symbols@.len() > 0 ==> crate::strutil::contains_seq(
            r@,
            "class=\"symbol-select\""@,
        ),
{
    let ghost header = "<!doctype html>"@;
    let ghost msel = "symbols-select-all"@;
    let ghost mwrk = "const WORKER_SRC = \""@;
    let ghost mcls = "class=\"symbol-select\""@;
    let mut out = str_to_chars(
        "<!doctype html>\n<html><head><meta charset=\"utf-8\"><title>impact report</title><style>body{font-family:monospace}.card{border:1px solid #ccc;margin:8px;padding:8px}</style></head><body>\n",
    );
    proof {
        reveal_strlit("<!doctype html>");
        reveal_strlit(
            "<!doctype html>\n<html><head><meta charset=\"utf-8\"><title>impact report</title><style>body{font-family:monospace}.card{border:1px solid #ccc;margin:8px;padding:8px}</style></head><body>\n",
        );
        assert(out@.subrange(0, "<!doctype html>"@.len() as int) =~= "<!doctype html>"@);
    }
    let ghost o0 = out@;
    push_lit(&mut out, "<div class=\"card\">changed: ");
    crate::ir::append_chars(&mut out, &crate::strutil::u64_to_chars(out_impact.changed_symbols.len() as u64));
    push_lit(&mut out, " impacted: ");
    crate::ir::append_chars(&mut out, &crate::strutil::u64_to_chars(out_impact.impacted_symbols.len() as u64));
    push_lit(&mut out, " files: ");
    crate::ir::append_chars(&mut out, &crate::strutil::u64_to_chars(out_impact.impacted_files.len() as u64));
    push_lit(&mut out, " edges: ");
    crate::ir::append_chars(&mut out, &crate::strutil::u64_to_chars(out_impact.edges.len() as u64));
    push_lit(&mut out, "</div>\n<button id=\"");
    proof {
        assert(out@.subrange(0, o0.len() as int) =~= o0);
        lemma_prefix_trans(header, o0, out@);
    }
    let ghost mb = out@;
    let ghost mpos = out@.len() as int;
    push_lit(&mut out, "symbols-select-all");
    proof {
        reveal_strlit("symbols-select-all");
        assert(out@.subrange(mpos, out@.len() as int) =~= msel);
        assert(crate::strutil::occurs_at(out@, msel, mpos));
        assert(crate::strutil::contains_seq(out@, msel));
        assert(out@.subrange(0, mb.len() as int) =~= mb);
        lemma_prefix_trans(header, mb, out@);
    }
    let ghost o1 = out@;
    push_lit(&mut out, "\">select all</button>\n<div class=\"sec card\"><h2>Changed</h2><ul>\n");
    proof {
        assert(out@.subrange(0, o1.len() as int) =~= o1);
        lemma_prefix_trans(header, o1, out@);
        lemma_contains_prefix(msel, o1, out@);
    }
    let mut i: usize = 0;
    while i < out_impact.changed_symbols.len()
        invariant
            i <= out_impact.changed_symbols@.len(),
            is_prefix(header, out@),
            crate::strutil::contains_seq(out@, msel),
            i > 0 ==> crate::strutil::contains_seq(out@, mcls),
        decreases out_impact.changed_symbols.len() - i,
    {
        let ghost oa = out@;
        push_symbol_item(&mut out, &out_impact.changed_symbols[i], "changed");
        proof {
            lemma_prefix_trans(header, oa, out@);
            lemma_contains_prefix(msel, oa, out@);
        }
        i = i + 1;
    }
    let ghost o2 = out@;
    push_lit(&mut out, "</ul></div>\n<div class=\"sec card\"><h2>Impacted</h2><ul>\n");
    proof {
        assert(out@.subrange(0, o2.len() as int) =~= o2);
        lemma_prefix_trans(header, o2, out@);
        lemma_contains_prefix(msel, o2, out@);
        if out_impact.changed_symbols@.len() > 0 {
            lemma_contains_prefix(mcls, o2, out@);
        }
    }
    let mut j: usize = 0;
    while j < out_impact.impacted_symbols.len()
        invariant
            j <= out_impact.impacted_symbols@.len(),
            is_prefix(header, out@),
            crate::strutil::contains_seq(out@, msel),
            out_impact.changed_symbols@.len() > 0 ==> crate::strutil::contains_seq(out@, mcls),
        decreases out_impact.impacted_symbols.len() - j,
    {
        let ghost oa = out@;
        push_symbol_item(&mut out, &out_impact.impacted_symbols[j], "impacted");
        proof {
            lemma_prefix_trans(header, oa, out@);
            lemma_contains_prefix(msel, oa, out@);
            if out_impact.changed_symbols@.len() > 0 {
                lemma_contains_prefix(mcls, oa, out@);
            }
        }
        j = j + 1;
    }
    let ghost o3 = out@;
    push_lit(&mut out, "</ul></div>\n<script>\nconst IMPACT_DATA = {\"nodes\":[");
    proof {
        assert(out@.subrange(0, o3.len() as int) =~= o3);
        lemma_prefix_trans(header, o3, out@);
        lemma_contains_prefix(msel, o3, out@);
        if out_impact.changed_symbols@.len() > 0 {
            lemma_contains_prefix(mcls, o3, out@);
        }
    }
    let mut k: usize = 0;
    while k < out_impact.changed_symbols.len()
        invariant
            k <= out_impact.changed_symbols@.len(),
            is_prefix(header, out@),
            crate::strutil::contains_seq(out@, msel),
            out_impact.changed_symbols@.len() > 0 ==> crate::strutil::contains_seq(out@, mcls),
        decreases out_impact.changed_symbols.len() - k,
    {
        let ghost oa = out@;
        push_json_node(&mut out, &out_impact.changed_symbols[k], true, k == 0);
        proof {
            lemma_prefix_trans(header, oa, out@);
            lemma_contains_prefix(msel, oa, out@);
            if out_impact.changed_symbols@.len() > 0 {
                lemma_contains_prefix(mcls, oa, out@);
            }
        }
        k = k + 1;
    }
    let mut k2: usize = 0;
    while k2 < out_impact.impacted_symbols.len()
        invariant
            k2 <= out_impact.impacted_symbols@.len(),
            is_prefix(header, out@),
            crate::strutil::contains_seq(out@, msel),
            out_impact.changed_symbols@.len() > 0 ==> crate::strutil::contains_seq(out@, mcls),
        decreases out_impact.impacted_symbols.len() - k2,
    {
        let ghost oa = out@;
        let first = k2 == 0 && out_impact.changed_symbols.len() == 0;
        push_json_node(&mut out, &out_impact.impacted_symbols[k2], false, first);
        proof {
            lemma_prefix_trans(header, oa, out@);
            lemma_contains_prefix(msel, oa, out@);
            if out_impact.changed_symbols@.len() > 0 {
                lemma_contains_prefix(mcls, oa, out@);
            }
        }
        k2 = k2 + 1;
    }
    let ghost o4 = out@;
    push_lit(&mut out, "],\"edges\":[");
    proof {
        assert(out@.subrange(0, o4.len() as int) =~= o4);
        lemma_prefix_trans(header, o4, out@);
        lemma_contains_prefix(msel, o4, out@);
        if out_impact.changed_symbols@.len() > 0 {
            lemma_contains_prefix(mcls, o4, out@);
        }
    }
    let mut k3: usize = 0;
    while k3 < out_impact.edges.len()
        invariant
            k3 <= out_impact.edges@.len(),
            is_prefix(header, out@),
            crate::strutil::contains_seq(out@, msel),
            out_impact.changed_symbols@.len() > 0 ==> crate::strutil::contains_seq(out@, mcls),
        decreases out_impact.edges.len() - k3,
    {
        let ghost oa = out@;
        push_json_edge(&mut out, &out_impact.edges[k3], k3 == 0);
        proof {
            lemma_prefix_trans(header, oa, out@);
            lemma_contains_prefix(msel, oa, out@);
            if out_impact.changed_symbols@.len() > 0 {
                lemma_contains_prefix(mcls, oa, out@);
            }
        }
        k3 = k3 + 1;
    }
    let ghost o5 = out@;
    push_lit(&mut out, "]};\n");
    proof {
        assert(out@.subrange(0, o5.len() as int) =~= o5);
        lemma_prefix_trans(header, o5, out@);
        lemma_contains_prefix(msel, o5, out@);
        if out_impact.changed_symbols@.len() > 0 {
            lemma_contains_prefix(mcls, o5, out@);
        }
    }
    let ghost wb = out@;
    let ghost wpos = out@.len() as int;
    push_lit(&mut out, "const WORKER_SRC = \"");
    proof {
        reveal_strlit("const WORKER_SRC = \"");
        assert(out@.subrange(wpos, out@.len() as int) =~= mwrk);
        assert(crate::strutil::occurs_at(out@, mwrk, wpos));
        assert(crate::strutil::contains_seq(out@, mwrk));
        assert(out@.subrange(0, wb.len() as int) =~= wb);
        lemma_prefix_trans(header, wb, out@);
        lemma_contains_prefix(msel, wb, out@);
        if out_impact.changed_symbols@.len() > 0 {
            lemma_contains_prefix(mcls, wb, out@);
        }
    }
    let ghost o6 = out@;
    let worker = str_to_chars("self.onmessage = function(e) { self.postMessage(e.data); };");
    let workerb = json_escape_body(&worker);
    crate::ir::append_chars(&mut out, &workerb);
    proof {
        assert(out@.subrange(0, o6.len() as int) =~= o6);
        lemma_prefix_trans(header, o6, out@);
        lemma_contains_prefix(msel, o6, out@);
        lemma_contains_prefix(mwrk, o6, out@);
        if out_impact.changed_symbols@.len() > 0 {
            lemma_contains_prefix(mcls, o6, out@);
        }
    }
    let ghost o7 = out@;
    push_lit(&mut out, "\";\nconsole.log(IMPACT_DATA.nodes.length);\n</script></body></html>\n");
    proof {
        assert(out@.subrange(0, o7.len() as int) =~= o7);
        lemma_prefix_trans(header, o7, out@);
        lemma_contains_prefix(msel, o7, out@);
        lemma_contains_prefix(mwrk, o7, out@);
        if out_impact.changed_symbols@.len() > 0 {
            lemma_contains_prefix(mcls, o7, out@);
        }
    }
    chars_to_string(&out)
}

/// Append one graph-data JSON edge record.
fn push_json_edge(out: &mut Vec<char>, e: &crate::ir::reference::Reference, first: bool)
    ensures
        is_prefix(old(out)@, final(out)@),
{
    let ghost o0 = out@;
    if !first {
        push_lit(out, ",");
    }
    push_lit(out, "{\"data\":{\"source\":");
    let fv = json_string(&str_to_chars(e.from.0.as_str()));
    crate::ir::append_chars(out, &fv);
    push_lit(out, ",\"target\":");
    let tv = json_string(&str_to_chars(e.to.0.as_str()));
    crate::ir::append_chars(out, &tv);
    push_lit(out, "}}");
    proof {
        assert(out@.subrange(0, o0.len() as int) =~= o0);
    }
}

} // verus!
