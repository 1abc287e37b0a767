//! Data- and control-flow graphs extracted by line scanning, and the
//! program dependence graph that merges them with call edges. These
//! graphs are heuristic renderings of definition, use and control
//! sites; the contracts state their structural guarantees.

use vstd::prelude::*;
use crate::ir::reference::Reference;
use crate::strutil::{
    chars_to_string, eq_chars, str_to_chars, starts_with, subvec, trim, u32_to_chars, str_eq,
    index_of_sub,
};

verus! {

#[derive(Debug, Clone, Copy, PartialEq, Eq, Structural)]
pub enum DependencyKind {
    Data,
    Control,
}

/// A definition, use or control node of the graph.
#[derive(Debug, Clone, PartialEq, Eq)]
pub struct DfgNode {
    pub id: String,
    pub name: String,
    pub file: String,
    pub line: u32,
}

/// Mathematical value of a `DfgNode`.
pub struct DfgNodeV {
    pub id: Seq<char>,
    pub name: Seq<char>,
    pub file: Seq<char>,
    pub line: u32,
}

impl View for DfgNode {
    type V = DfgNodeV;

    open spec fn view(&self) -> DfgNodeV {
        DfgNodeV { id: self.id@, name: self.name@, file: self.file@, line: self.line }
    }
}

impl DeepView for DfgNode {
    type V = DfgNodeV;

    open spec fn deep_view(&self) -> DfgNodeV {
        self@
    }
}

/// A dependency edge of the graph.
#[derive(Debug, Clone, PartialEq, Eq)]
pub struct DfgEdge {
    pub from: String,
    pub to: String,
    pub kind: DependencyKind,
}

/// Mathematical value of a `DfgEdge`.
pub struct DfgEdgeV {
    pub from: Seq<char>,
    pub to: Seq<char>,
    pub kind: DependencyKind,
}

impl View for DfgEdge {
    type V = DfgEdgeV;

    open spec fn view(&self) -> DfgEdgeV {
        DfgEdgeV { from: self.from@, to: self.to@, kind: self.kind }
    }
}

impl DeepView for DfgEdge {
    type V = DfgEdgeV;

    open spec fn deep_view(&self) -> DfgEdgeV {
        self@
    }
}

/// A data/control flow graph.
#[derive(Debug, Clone, PartialEq, Eq)]
pub struct DataFlowGraph {
    pub nodes: Vec<DfgNode>,
    pub edges: Vec<DfgEdge>,
}

/// Build a flow graph from one file's source text. Every builder
/// guarantees: an empty source yields an empty graph, every node
/// belongs to the given file, and every control edge originates from
/// a control node.
pub trait DfgBuilder {
    fn build(path: &str, source: &str) -> (r: DataFlowGraph)
        ensures
            crate::diff::spec_lines(source@).len() == 0 ==> r.nodes@.len() == 0 && r.edges@.len()
                == 0,
            forall|k: int| 0 <= k < r.nodes@.len() ==> (#[trigger] r.nodes@[k]).file@ == path@,
            forall|k: int|
                0 <= k < r.edges@.len() && (#[trigger] r.edges@[k]).kind == DependencyKind::Control
                    ==> crate::strutil::contains_seq(r.edges@[k].from@, ":ctrl:"@),
    ;
}

/// An identifier character.
pub open spec fn spec_is_ident_char(c: char) -> bool {
    ('a' <= c && c <= 'z') || ('A' <= c && c <= 'Z') || ('0' <= c && c <= '9') || c == '_'
}

fn is_ident_char(c: char) -> (r: bool)
    ensures
        r == spec_is_ident_char(c),
{
    ('a' <= c && c <= 'z') || ('A' <= c && c <= 'Z') || ('0' <= c && c <= '9') || c == '_'
}

/// The identifier run beginning at `from`.
pub open spec fn spec_ident_run(v: Seq<char>, from: int) -> Seq<char>
    decreases v.len() - from,
{
    if from < 0 || from >= v.len() || !spec_is_ident_char(v[from]) {
        Seq::empty()
    } else {
        seq![v[from]] + spec_ident_run(v, from + 1)
    }
}

/// The leading identifier run of `v` starting at `from`.
#[verifier::loop_isolation(false)]
fn ident_at(v: &Vec<char>, from: usize) -> (r: Vec<char>)
    requires
        from <= v@.len(),
    ensures
        from + r@.len() <= v@.len(),
        r@ == spec_ident_run(v@, from as int),
{
    let mut j = from;
    while j < v.len() && is_ident_char(v[j])
        invariant
            from <= j <= v@.len(),
            spec_ident_run(v@, from as int) == v@.subrange(from as int, j as int)
                + spec_ident_run(v@, j as int),
        decreases v.len() - j,
    {
        proof {
            assert(v@.subrange(from as int, j as int).push(v@[j as int]) =~= v@.subrange(
                from as int,
                j as int + 1,
            ));
            assert(v@.subrange(from as int, j as int) + (seq![v@[j as int]] + spec_ident_run(
                v@,
                j as int + 1,
            )) =~= v@.subrange(from as int, j as int + 1) + spec_ident_run(v@, j as int + 1));
        }
        j = j + 1;
    }
    proof {
        assert(spec_ident_run(v@, j as int) =~= Seq::<char>::empty());
        assert(v@.subrange(from as int, j as int) + Seq::<char>::empty() =~= v@.subrange(
            from as int,
            j as int,
        ));
    }
    subvec(v, from, j)
}

/// The index of the first non-blank character at or after `from`.
pub open spec fn spec_blank_end(v: Seq<char>, from: int) -> int
    decreases v.len() - from,
{
    if from < 0 || from >= v.len() || !(v[from] == ' ' || v[from] == '\t') {
        from
    } else {
        spec_blank_end(v, from + 1)
    }
}

/// Skip blanks from `from`.
#[verifier::loop_isolation(false)]
fn skip_spaces(v: &Vec<char>, from: usize) -> (r: usize)
    requires
        from <= v@.len(),
    ensures
        from <= r <= v@.len(),
        r as int == spec_blank_end(v@, from as int),
{
    let mut j = from;
    while j < v.len() && (v[j] == ' ' || v[j] == '\t')
        invariant
            from <= j <= v@.len(),
            spec_blank_end(v@, from as int) == spec_blank_end(v@, j as int),
        decreases v.len() - j,
    {
        j = j + 1;
    }
    j
}

/// The maximal identifier runs of a line.
#[verifier::loop_isolation(false)]
fn tokens_of(v: &Vec<char>) -> (r: Vec<Vec<char>>)
{
    let mut out: Vec<Vec<char>> = Vec::new();
    let mut j: usize = 0;
    while j < v.len()
        invariant
            j <= v@.len(),
        decreases v.len() - j,
    {
        if is_ident_char(v[j]) {
            let t = ident_at(v, j);
            let tl = t.len();
            out.push(t);
            if tl == 0 {
                j = j + 1;
            } else {
                j = j + tl;
            }
        } else {
            j = j + 1;
        }
    }
    out
}

/// A def/use/control node id: the file, a tag, a detail and a line.
pub open spec fn spec_node_id(
    path: Seq<char>,
    tag: Seq<char>,
    name: Seq<char>,
    line: u32,
) -> Seq<char> {
    path + tag + name + ":"@ + crate::strutil::spec_dec(line as nat)
}

fn node_id(path: &str, tag: &str, name: &Vec<char>, line: u32) -> (r: String)
    ensures
        r@ == spec_node_id(path@, tag@, name@, line),
{
    let mut out = str_to_chars(path);
    crate::ir::append_chars(&mut out, &str_to_chars(tag));
    crate::ir::append_chars(&mut out, name);
    let ghost g0 = out@;
    out.push(':');
    proof {
        assert(out@ =~= g0 + ":"@) by {
            reveal_strlit(":");
        }
    }
    crate::ir::append_chars(&mut out, &u32_to_chars(line));
    proof {
        assert(out@ =~= spec_node_id(path@, tag@, name@, line));
    }
    chars_to_string(&out)
}

/// A control node id carries its `:ctrl:` marker.
proof fn lemma_ctrl_id_marked(path: Seq<char>, name: Seq<char>, line: u32)
    ensures
        crate::strutil::contains_seq(spec_node_id(path, ":ctrl:"@, name, line), ":ctrl:"@),
{
    reveal_strlit(":ctrl:");
    let id = spec_node_id(path, ":ctrl:"@, name, line);
    assert(id.subrange(path.len() as int, path.len() as int + 6) =~= ":ctrl:"@);
    assert(crate::strutil::occurs_at(id, ":ctrl:"@, path.len() as int));
}

/// The name a `let` line binds: the identifier run after `let ` on
/// the trimmed line, or nothing.
pub open spec fn spec_let_name(l: Seq<char>) -> Seq<char> {
    let t = crate::strutil::spec_trim(l);
    if crate::strutil::is_prefix("let "@, t) {
        spec_ident_run(t.subrange(4, t.len() as int), 0)
    } else {
        Seq::empty()
    }
}

/// A word that never names a Ruby variable.
pub open spec fn spec_ruby_reserved(n: Seq<char>) -> bool {
    n == "if"@ || n == "else"@ || n == "end"@ || n == "return"@ || n == "def"@ || n == "class"@
        || n == "module"@
}

fn ruby_is_reserved(name: &Vec<char>) -> (r: bool)
    ensures
        r == spec_ruby_reserved(name@),
{
    eq_chars(name, &str_to_chars("if")) || eq_chars(name, &str_to_chars("else")) || eq_chars(
        name,
        &str_to_chars("end"),
    ) || eq_chars(name, &str_to_chars("return")) || eq_chars(name, &str_to_chars("def"))
        || eq_chars(name, &str_to_chars("class")) || eq_chars(name, &str_to_chars("module"))
}

/// The name a plain assignment line binds: an identifier not starting
/// with a digit, blanks, then a single `=`; Ruby keywords excluded.
pub open spec fn spec_assign_name(l: Seq<char>) -> Seq<char> {
    let t = crate::strutil::spec_trim(l);
    if t.len() > 0 && spec_is_ident_char(t[0]) && !('0' <= t[0] && t[0] <= '9') {
        let name = spec_ident_run(t, 0);
        let p = spec_blank_end(t, name.len() as int);
        if name.len() > 0 && p < t.len() && t[p] == '=' && (p + 1 >= t.len() || t[p + 1] != '=')
            && !spec_ruby_reserved(name) {
            name
        } else {
            Seq::empty()
        }
    } else {
        Seq::empty()
    }
}

/// A record of one definition site.
struct DefRec {
    name: String,
    id: String,
    line: u32,
}

#[verifier::loop_isolation(false)]
fn has_node(nodes: &Vec<DfgNode>, id: &str) -> (r: bool)
    ensures
        r == exists|k: int| 0 <= k < nodes@.len() && (#[trigger] nodes@[k]).id@ == id@,
{
    let mut i: usize = 0;
    while i < nodes.len()
        invariant
            i <= nodes@.len(),
            forall|k: int| 0 <= k < i ==> (#[trigger] nodes@[k]).id@ != id@,
        decreases nodes.len() - i,
    {
        if str_eq(nodes[i].id.as_str(), id) {
            return true;
        }
        i = i + 1;
    }
    false
}

#[verifier::loop_isolation(false)]
fn def_on_line(defs: &Vec<DefRec>, name: &Vec<char>, line: u32) -> (r: bool)
{
    let mut i: usize = 0;
    while i < defs.len()
        invariant
            i <= defs@.len(),
        decreases defs.len() - i,
    {
        if defs[i].line == line && str_eq(defs[i].name.as_str(), chars_to_string(name).as_str()) {
            return true;
        }
        i = i + 1;
    }
    false
}

#[verifier::loop_isolation(false)]
fn has_def(defs: &Vec<DefRec>, name: &Vec<char>) -> (r: bool)
{
    let mut i: usize = 0;
    while i < defs.len()
        invariant
            i <= defs@.len(),
        decreases defs.len() - i,
    {
        if str_eq(defs[i].name.as_str(), chars_to_string(name).as_str()) {
            return true;
        }
        i = i + 1;
    }
    false
}

/// Record a definition: a node (if its id is new) and a def record.
#[verifier::loop_isolation(false)]
fn add_def(
    nodes: &mut Vec<DfgNode>,
    defs: &mut Vec<DefRec>,
    path: &str,
    name: &Vec<char>,
    line: u32,
)
    ensures
        final(nodes)@.len() >= old(nodes)@.len(),
        forall|k: int|
            0 <= k < old(nodes)@.len() ==> final(nodes)@[k] == old(nodes)@[k],
        forall|k: int|
            old(nodes)@.len() <= k < final(nodes)@.len() ==> (#[trigger] final(nodes)@[k]).file@ == path@,
        exists|k: int|
            0 <= k < final(nodes)@.len() && (#[trigger] final(nodes)@[k]).id@ == spec_node_id(
                path@,
                ":def:"@,
                name@,
                line,
            ),
{
    let id = node_id(path, ":def:", name, line);
    if !has_node(nodes, id.as_str()) {
        let ghost n0 = nodes@;
        nodes.push(
            DfgNode {
                id: id.clone(),
                name: chars_to_string(name),
                file: chars_to_string(&str_to_chars(path)),
                line,
            },
        );
        proof {
            assert(nodes@[n0.len() as int].id@ == spec_node_id(path@, ":def:"@, name@, line));
        }
    }
    defs.push(DefRec { name: chars_to_string(name), id, line });
}

/// Record a use node and its incoming data edges from every
/// definition of the name.
#[verifier::loop_isolation(false)]
fn add_use(
    nodes: &mut Vec<DfgNode>,
    edges: &mut Vec<DfgEdge>,
    defs: &Vec<DefRec>,
    path: &str,
    name: &Vec<char>,
    line: u32,
)
    ensures
        final(nodes)@.len() >= old(nodes)@.len(),
        forall|k: int|
            0 <= k < old(nodes)@.len() ==> final(nodes)@[k] == old(nodes)@[k],
        forall|k: int|
            old(nodes)@.len() <= k < final(nodes)@.len() ==> (#[trigger] final(nodes)@[k]).file@ == path@,
        forall|k: int|
            0 <= k < old(edges)@.len() ==> final(edges)@[k] == old(edges)@[k],
        final(edges)@.len() >= old(edges)@.len(),
        forall|k: int|
            old(edges)@.len() <= k < final(edges)@.len() ==> (#[trigger] final(edges)@[k]).kind == DependencyKind::Data,
{
    let id = node_id(path, ":use:", name, line);
    if !has_node(nodes, id.as_str()) {
        nodes.push(
            DfgNode {
                id: id.clone(),
                name: chars_to_string(name),
                file: chars_to_string(&str_to_chars(path)),
                line,
            },
        );
    }
    let nm = chars_to_string(name);
    let mut i: usize = 0;
    while i < defs.len()
        invariant
            i <= defs@.len(),
            nodes@ == final(nodes)@,
            edges@.len() >= old(edges)@.len(),
            forall|k: int| 0 <= k < old(edges)@.len() ==> edges@[k] == old(edges)@[k],
            forall|k: int|
                old(edges)@.len() <= k < edges@.len() ==> (#[trigger] edges@[k]).kind
                    == DependencyKind::Data,
        decreases defs.len() - i,
    {
        if str_eq(defs[i].name.as_str(), nm.as_str()) {
            edges.push(
                DfgEdge {
                    from: defs[i].id.clone(),
                    to: id.clone(),
                    kind: DependencyKind::Data,
                },
            );
        }
        i = i + 1;
    }
}

/// The reserved words that never count as variable uses in Rust.
fn rust_reserved() -> (r: Vec<Vec<char>>)
{
    let mut out: Vec<Vec<char>> = Vec::new();
    out.push(str_to_chars("let"));
    out.push(str_to_chars("mut"));
    out.push(str_to_chars("fn"));
    out.push(str_to_chars("pub"));
    out.push(str_to_chars("self"));
    out.push(str_to_chars("super"));
    out.push(str_to_chars("crate"));
    out.push(str_to_chars("if"));
    out.push(str_to_chars("else"));
    out.push(str_to_chars("match"));
    out.push(str_to_chars("for"));
    out.push(str_to_chars("while"));
    out.push(str_to_chars("loop"));
    out.push(str_to_chars("return"));
    out.push(str_to_chars("use"));
    out.push(str_to_chars("struct"));
    out.push(str_to_chars("enum"));
    out.push(str_to_chars("trait"));
    out.push(str_to_chars("impl"));
    out.push(str_to_chars("mod"));
    out.push(str_to_chars("as"));
    out.push(str_to_chars("in"));
    out.push(str_to_chars("true"));
    out.push(str_to_chars("false"));
    out
}

#[verifier::loop_isolation(false)]
fn in_list(list: &Vec<Vec<char>>, tok: &Vec<char>) -> (r: bool)
{
    let mut i: usize = 0;
    while i < list.len()
        invariant
            i <= list@.len(),
        decreases list.len() - i,
    {
        if eq_chars(&list[i], tok) {
            return true;
        }
        i = i + 1;
    }
    false
}

/// A line that opens a Rust control block.
fn rust_control_start(t: &Vec<char>) -> (r: bool)
{
    let a = str_to_chars("if ");
    let b = str_to_chars("while ");
    let c = str_to_chars("for ");
    let d = str_to_chars("match ");
    starts_with(t, &a) || starts_with(t, &b) || starts_with(t, &c) || starts_with(t, &d)
}

/// Line-scanning flow graph builder for Rust sources: `let` bindings,
/// plain assignments and `fn` parameters define names; identifier
/// occurrences elsewhere use them; `if`/`while`/`for`/`match` blocks
/// control the nodes they span.
pub struct RustDfgBuilder;

/// Line-scanning flow graph builder for Ruby sources: `def` parameters
/// and assignments define names, `return` and identifier occurrences
/// use them, and `if`-family blocks control the nodes they span.
pub struct RubyDfgBuilder;

#[verifier::loop_isolation(false)]
#[verifier::rlimit(100)]
/// Build the Rust flow graph. Besides the builder guarantees, every
/// `let` binding produces its definition node: for each line binding
/// a name, a node with the def id of that name and line is in the
/// graph.
pub fn build_rust_dfg(path: &str, source: &str) -> (r: DataFlowGraph)
    ensures
        crate::diff::spec_lines(source@).len() == 0 ==> r.nodes@.len() == 0 && r.edges@.len()
            == 0,
        forall|k: int| 0 <= k < r.nodes@.len() ==> (#[trigger] r.nodes@[k]).file@ == path@,
        forall|k: int|
            0 <= k < r.edges@.len() && (#[trigger] r.edges@[k]).kind == DependencyKind::Control
                ==> crate::strutil::contains_seq(r.edges@[k].from@, ":ctrl:"@),
        forall|j: int|
            0 <= j < crate::diff::spec_lines(source@).len() && spec_let_name(
                #[trigger] crate::diff::spec_lines(source@)[j],
            ).len() > 0 ==> exists|k: int|
                0 <= k < r.nodes@.len() && (#[trigger] r.nodes@[k]).id@ == spec_node_id(
                    path@,
                    ":def:"@,
                    spec_let_name(crate::diff::spec_lines(source@)[j]),
                    crate::languages::rust::spec_line_no(j),
                ),
{
    let chars = str_to_chars(source);
    let lines = crate::diff::split_lines(&chars);
    let ghost lv = lines.deep_view();
    let mut nodes: Vec<DfgNode> = Vec::new();
    let mut edges: Vec<DfgEdge> = Vec::new();
    let mut defs: Vec<DefRec> = Vec::new();
    let reserved = rust_reserved();
    let lit_let = str_to_chars("let ");
    let lit_mut = str_to_chars("mut ");
    proof {
        reveal_strlit("let ");
        reveal_strlit("mut ");
    }

    // `let` definitions first: these carry the binding guarantee
    let mut i: usize = 0;
    while i < lines.len()
        invariant
            i <= lines@.len(),
            lv == lines.deep_view(),
            lv.len() == lines@.len(),
            lit_let@ == "let "@,
            lines@.len() == 0 ==> nodes@.len() == 0 && edges@.len() == 0,
            forall|k: int| 0 <= k < nodes@.len() ==> (#[trigger] nodes@[k]).file@ == path@,
            forall|j: int|
                0 <= j < i && spec_let_name(#[trigger] lv[j]).len() > 0 ==> exists|k: int|
                    0 <= k < nodes@.len() && (#[trigger] nodes@[k]).id@ == spec_node_id(
                        path@,
                        ":def:"@,
                        spec_let_name(lv[j]),
                        crate::languages::rust::spec_line_no(j),
                    ),
        decreases lines.len() - i,
    {
        assert(lines[i as int]@ == lv[i as int]) by {
            assert(lines.deep_view()[i as int] == lines@[i as int].deep_view());
        }
        let ghost ns = nodes@;
        let ln = crate::languages::rust::pub_line_no(i);
        let t = trim(&lines[i]);
        let mut bound = false;
        if starts_with(&t, &lit_let) {
            let rest = subvec(&t, 4, t.len());
            let name = ident_at(&rest, 0);
            if name.len() > 0 {
                add_def(&mut nodes, &mut defs, path, &name, ln);
                bound = true;
                proof {
                    assert(name@ == spec_let_name(lv[i as int]));
                }
            }
        }
        proof {
            assert forall|j: int|
                0 <= j < i + 1 && spec_let_name(#[trigger] lv[j]).len() > 0 implies exists|k: int|
                0 <= k < nodes@.len() && (#[trigger] nodes@[k]).id@ == spec_node_id(
                    path@,
                    ":def:"@,
                    spec_let_name(lv[j]),
                    crate::languages::rust::spec_line_no(j),
                ) by {
                if j < i {
                    let k = choose|k: int|
                        0 <= k < ns.len() && (#[trigger] ns[k]).id@ == spec_node_id(
                            path@,
                            ":def:"@,
                            spec_let_name(lv[j]),
                            crate::languages::rust::spec_line_no(j),
                        );
                    assert(nodes@[k] == ns[k]);
                } else {
                    assert(bound);
                }
            }
        }
        i = i + 1;
    }
    let ghost na = nodes@;

    // assignments and `fn` parameters
    let mut ib: usize = 0;
    while ib < lines.len()
        invariant
            ib <= lines@.len(),
            lit_let@ == "let "@,
            lines@.len() == 0 ==> nodes@.len() == 0 && edges@.len() == 0,
            forall|k: int| 0 <= k < nodes@.len() ==> (#[trigger] nodes@[k]).file@ == path@,
            nodes@.len() >= na.len(),
            forall|k: int| 0 <= k < na.len() ==> nodes@[k] == na[k],
        decreases lines.len() - ib,
    {
        let ln = crate::languages::rust::pub_line_no(ib);
        let t = trim(&lines[ib]);
        if !starts_with(&t, &lit_let) && t.len() > 0 && is_ident_char(t[0]) && !('0' <= t[0]
            && t[0] <= '9') {
            // a plain assignment: identifier, blanks, a single `=`
            let name = ident_at(&t, 0);
            let p = skip_spaces(&t, name.len());
            if p < t.len() && t[p] == '=' && (p + 1 >= t.len() || t[p + 1] != '=') {
                if name.len() > 0 && !in_list(&reserved, &name) {
                    add_def(&mut nodes, &mut defs, path, &name, ln);
                }
            }
        }
        // fn parameters
        let ls = chars_to_string(&subvec(&t, 0, t.len()));
        if crate::languages::rust::is_fn_decl(ls.as_str()) {
            match crate::strutil::index_of_char(&t, '(', 0) {
                Some(op) => {
                    match crate::strutil::index_of_char(&t, ')', op) {
                        Some(cp) => {
                            let inner = subvec(&t, op + 1, cp);
                            let comma = str_to_chars(",");
                            proof {
                                reveal_strlit(",");
                            }
                            let parts = crate::strutil::split_sub(&inner, &comma);
                            let mut q: usize = 0;
                            while q < parts.len()
                                invariant
                                    q <= parts@.len(),
                                    forall|k: int|
                                        0 <= k < nodes@.len() ==> (#[trigger] nodes@[k]).file@
                                            == path@,
                                    lines@.len() == 0 ==> nodes@.len() == 0 && edges@.len() == 0,
                                    nodes@.len() >= na.len(),
                                    forall|k: int| 0 <= k < na.len() ==> nodes@[k] == na[k],
                                decreases parts.len() - q,
                            {
                                let piece = trim(&parts[q]);
                                let body: Vec<char> = if starts_with(&piece, &lit_mut) {
                                    subvec(&piece, 4, piece.len())
                                } else {
                                    subvec(&piece, 0, piece.len())
                                };
                                let pname = ident_at(&body, 0);
                                let self_lit = str_to_chars("self");
                                if pname.len() > 0 && !eq_chars(&pname, &self_lit) && is_ident_char(
                                    body[0],
                                ) && !('0' <= body[0] && body[0] <= '9') {
                                    add_def(&mut nodes, &mut defs, path, &pname, ln);
                                }
                                q = q + 1;
                            }
                        },
                        None => {},
                    }
                },
                None => {},
            }
        }
        ib = ib + 1;
    }

    // identifier uses
    let mut i2: usize = 0;
    while i2 < lines.len()
        invariant
            i2 <= lines@.len(),
            lines@.len() == 0 ==> nodes@.len() == 0 && edges@.len() == 0,
            forall|k: int| 0 <= k < nodes@.len() ==> (#[trigger] nodes@[k]).file@ == path@,
            nodes@.len() >= na.len(),
            forall|k: int| 0 <= k < na.len() ==> nodes@[k] == na[k],
            forall|k: int|
                0 <= k < edges@.len() && (#[trigger] edges@[k]).kind == DependencyKind::Control
                    ==> crate::strutil::contains_seq(edges@[k].from@, ":ctrl:"@),
        decreases lines.len() - i2,
    {
        let ln = crate::languages::rust::pub_line_no(i2);
        let toks = tokens_of(&lines[i2]);
        let mut q: usize = 0;
        while q < toks.len()
            invariant
                q <= toks@.len(),
                lines@.len() == 0 ==> nodes@.len() == 0 && edges@.len() == 0,
                forall|k: int| 0 <= k < nodes@.len() ==> (#[trigger] nodes@[k]).file@ == path@,
                nodes@.len() >= na.len(),
                forall|k: int| 0 <= k < na.len() ==> nodes@[k] == na[k],
                forall|k: int|
                    0 <= k < edges@.len() && (#[trigger] edges@[k]).kind == DependencyKind::Control
                        ==> crate::strutil::contains_seq(edges@[k].from@, ":ctrl:"@),
            decreases toks.len() - q,
        {
            let tok = &toks[q];
            let ghost e0 = edges@;
            if tok.len() > 0 && !in_list(&reserved, tok) && !def_on_line(&defs, tok, ln)
                && has_def(&defs, tok) {
                add_use(&mut nodes, &mut edges, &defs, path, tok, ln);
                proof {
                    assert forall|k: int|
                        0 <= k < edges@.len() && (#[trigger] edges@[k]).kind
                            == DependencyKind::Control implies crate::strutil::contains_seq(
                        edges@[k].from@,
                        ":ctrl:"@,
                    ) by {
                        if k < e0.len() {
                        }
                    }
                }
            }
            q = q + 1;
        }
        i2 = i2 + 1;
    }

    // control blocks
    let data_count = nodes.len();
    let mut i3: usize = 0;
    while i3 < lines.len()
        invariant
            i3 <= lines@.len(),
            data_count <= nodes@.len(),
            lines@.len() == 0 ==> nodes@.len() == 0 && edges@.len() == 0,
            forall|k: int| 0 <= k < nodes@.len() ==> (#[trigger] nodes@[k]).file@ == path@,
            nodes@.len() >= na.len(),
            forall|k: int| 0 <= k < na.len() ==> nodes@[k] == na[k],
            forall|k: int|
                0 <= k < edges@.len() && (#[trigger] edges@[k]).kind == DependencyKind::Control
                    ==> crate::strutil::contains_seq(edges@[k].from@, ":ctrl:"@),
        decreases lines.len() - i3,
    {
        let t = trim(&lines[i3]);
        if rust_control_start(&t) {
            let has_brace = crate::languages::rust::pub_contains_brace(&lines[i3]);
            let e = crate::languages::rust::find_block_end(&lines, i3, has_brace);
            let start_ln = crate::languages::rust::pub_line_no(i3);
            let end_ln = crate::languages::rust::pub_line_no(e);
            let ctrl_id = node_id(path, ":ctrl:", &u32_to_chars(start_ln), end_ln);
            proof {
                lemma_ctrl_id_marked(path@, crate::strutil::spec_dec(start_ln as nat), end_ln);
            }
            if !has_node(&nodes, ctrl_id.as_str()) {
                let ghost n0 = nodes@;
                nodes.push(
                    DfgNode {
                        id: ctrl_id.clone(),
                        name: chars_to_string(&str_to_chars("control")),
                        file: chars_to_string(&str_to_chars(path)),
                        line: start_ln,
                    },
                );
                proof {
                    assert forall|k: int|
                        0 <= k < nodes@.len() implies (#[trigger] nodes@[k]).file@ == path@ by {
                        if k < n0.len() {
                            assert(nodes@[k] == n0[k]);
                        }
                    }
                }
            }
            let mut w: usize = 0;
            while w < data_count
                invariant
                    w <= data_count,
                    data_count <= nodes@.len(),
                    ctrl_id@ == spec_node_id(
                        path@,
                        ":ctrl:"@,
                        crate::strutil::spec_dec(start_ln as nat),
                        end_ln,
                    ),
                    lines@.len() == 0 ==> nodes@.len() == 0 && edges@.len() == 0,
                    forall|k: int| 0 <= k < nodes@.len() ==> (#[trigger] nodes@[k]).file@ == path@,
                    nodes@.len() >= na.len(),
                    forall|k: int| 0 <= k < na.len() ==> nodes@[k] == na[k],
                    forall|k: int|
                        0 <= k < edges@.len() && (#[trigger] edges@[k]).kind
                            == DependencyKind::Control ==> crate::strutil::contains_seq(
                            edges@[k].from@,
                            ":ctrl:"@,
                        ),
                decreases data_count - w,
            {
                let nd = &nodes[w];
                if nd.line >= start_ln && nd.line <= end_ln {
                    let ghost e0 = edges@;
                    edges.push(
                        DfgEdge {
                            from: ctrl_id.clone(),
                            to: nd.id.clone(),
                            kind: DependencyKind::Control,
                        },
                    );
                    proof {
                        lemma_ctrl_id_marked(
                            path@,
                            crate::strutil::spec_dec(start_ln as nat),
                            end_ln,
                        );
                        assert forall|k: int|
                            0 <= k < edges@.len() && (#[trigger] edges@[k]).kind
                                == DependencyKind::Control implies crate::strutil::contains_seq(
                            edges@[k].from@,
                            ":ctrl:"@,
                        ) by {
                            if k < e0.len() {
                            } else {
                                assert(edges@[k].from@ == ctrl_id@);
                            }
                        }
                    }
                }
                w = w + 1;
            }
        }
        i3 = i3 + 1;
    }
    let r = DataFlowGraph { nodes, edges };
    proof {
        assert(lv == crate::diff::spec_lines(source@));
        assert forall|j: int|
            0 <= j < crate::diff::spec_lines(source@).len() && spec_let_name(
                #[trigger] crate::diff::spec_lines(source@)[j],
            ).len() > 0 implies exists|k: int|
            0 <= k < r.nodes@.len() && (#[trigger] r.nodes@[k]).id@ == spec_node_id(
                path@,
                ":def:"@,
                spec_let_name(crate::diff::spec_lines(source@)[j]),
                crate::languages::rust::spec_line_no(j),
            ) by {
            assert(crate::diff::spec_lines(source@)[j] == lv[j]);
            assert(spec_let_name(lv[j]).len() > 0);
            let k = choose|k: int|
                0 <= k < na.len() && (#[trigger] na[k]).id@ == spec_node_id(
                    path@,
                    ":def:"@,
                    spec_let_name(lv[j]),
                    crate::languages::rust::spec_line_no(j),
                );
            assert(0 <= k < na.len() && na[k].id@ == spec_node_id(
                path@,
                ":def:"@,
                spec_let_name(lv[j]),
                crate::languages::rust::spec_line_no(j),
            ));
            assert(r.nodes@[k] == na[k]);
        }
    }
    r
}

impl DfgBuilder for RustDfgBuilder {
    fn build(path: &str, source: &str) -> DataFlowGraph {
        build_rust_dfg(path, source)
    }
}

/// A line that opens a Ruby control block.
fn ruby_control_start(t: &Vec<char>) -> (r: bool)
{
    let a = str_to_chars("if ");
    let b = str_to_chars("unless ");
    let c = str_to_chars("while ");
    let d = str_to_chars("until ");
    starts_with(t, &a) || starts_with(t, &b) || starts_with(t, &c) || starts_with(t, &d)
}

/// A trimmed Ruby line that opens a nested block.
fn ruby_block_opener(t: &Vec<char>) -> (r: bool)
{
    let a = str_to_chars("def ");
    let b = str_to_chars("class ");
    let c = str_to_chars("module ");
    ruby_control_start(t) || starts_with(t, &a) || starts_with(t, &b) || starts_with(t, &c)
}

/// A trimmed Ruby line that closes a block.
fn ruby_block_end(t: &Vec<char>) -> (r: bool)
{
    let a = str_to_chars("end");
    let b = str_to_chars("end ");
    eq_chars(t, &a) || starts_with(t, &b)
}

/// Find the line closing the Ruby block opened at `start`.
#[verifier::loop_isolation(false)]
fn ruby_find_end(lines: &Vec<Vec<char>>, start: usize) -> (r: usize)
    requires
        start < lines@.len(),
    ensures
        r < lines@.len(),
{
    let n = lines.len();
    let mut depth: usize = 1;
    let mut i = start + 1;
    while i < n
        invariant
            start < i,
            i <= n,
            n == lines@.len(),
        decreases n - i,
    {
        let t = trim(&lines[i]);
        if ruby_block_opener(&t) {
            if depth < usize::MAX {
                depth = depth + 1;
            }
        } else if ruby_block_end(&t) {
            if depth > 0 {
                depth = depth - 1;
            }
            if depth == 0 {
                return i;
            }
        }
        i = i + 1;
    }
    n - 1
}

#[verifier::loop_isolation(false)]
#[verifier::rlimit(100)]
/// Build the Ruby flow graph. Besides the builder guarantees, every
/// plain assignment produces its definition node: for each line
/// binding a name, a node with the def id of that name and line is in
/// the graph.
pub fn build_ruby_dfg(path: &str, source: &str) -> (r: DataFlowGraph)
    ensures
        crate::diff::spec_lines(source@).len() == 0 ==> r.nodes@.len() == 0 && r.edges@.len()
            == 0,
        forall|k: int| 0 <= k < r.nodes@.len() ==> (#[trigger] r.nodes@[k]).file@ == path@,
        forall|k: int|
            0 <= k < r.edges@.len() && (#[trigger] r.edges@[k]).kind == DependencyKind::Control
                ==> crate::strutil::contains_seq(r.edges@[k].from@, ":ctrl:"@),
        forall|j: int|
            0 <= j < crate::diff::spec_lines(source@).len() && spec_assign_name(
                #[trigger] crate::diff::spec_lines(source@)[j],
            ).len() > 0 ==> exists|k: int|
                0 <= k < r.nodes@.len() && (#[trigger] r.nodes@[k]).id@ == spec_node_id(
                    path@,
                    ":def:"@,
                    spec_assign_name(crate::diff::spec_lines(source@)[j]),
                    crate::languages::rust::spec_line_no(j),
                ),
{
    let chars = str_to_chars(source);
    let lines = crate::diff::split_lines(&chars);
    let ghost lv = lines.deep_view();
    let mut nodes: Vec<DfgNode> = Vec::new();
    let mut edges: Vec<DfgEdge> = Vec::new();
    let mut defs: Vec<DefRec> = Vec::new();
    let mut reserved: Vec<Vec<char>> = Vec::new();
    reserved.push(str_to_chars("if"));
    reserved.push(str_to_chars("else"));
    reserved.push(str_to_chars("end"));
    reserved.push(str_to_chars("return"));
    reserved.push(str_to_chars("def"));
    reserved.push(str_to_chars("class"));
    reserved.push(str_to_chars("module"));
    let lit_def = str_to_chars("def ");
    let lit_mut = str_to_chars("mut ");
    let lit_return = str_to_chars("return ");
    proof {
        reveal_strlit("def ");
        reveal_strlit("mut ");
        reveal_strlit("return ");
    }

    // parameters of `def name(params)` lines
    let mut i: usize = 0;
    while i < lines.len()
        invariant
            i <= lines@.len(),
            lines@.len() == 0 ==> nodes@.len() == 0 && edges@.len() == 0,
            forall|k: int| 0 <= k < nodes@.len() ==> (#[trigger] nodes@[k]).file@ == path@,
        decreases lines.len() - i,
    {
        let ln = crate::languages::rust::pub_line_no(i);
        let t = trim(&lines[i]);
        if starts_with(&t, &lit_def) {
            match crate::strutil::index_of_char(&t, '(', 0) {
                Some(op) => {
                    match crate::strutil::index_of_char(&t, ')', op) {
                        Some(cp) => {
                            let inner = subvec(&t, op + 1, cp);
                            let comma = str_to_chars(",");
                            proof {
                                reveal_strlit(",");
                            }
                            let parts = crate::strutil::split_sub(&inner, &comma);
                            let mut q: usize = 0;
                            while q < parts.len()
                                invariant
                                    q <= parts@.len(),
                                    lines@.len() == 0 ==> nodes@.len() == 0 && edges@.len() == 0,
                                    forall|k: int|
                                        0 <= k < nodes@.len() ==> (#[trigger] nodes@[k]).file@
                                            == path@,
                                decreases parts.len() - q,
                            {
                                let piece = trim(&parts[q]);
                                let body: Vec<char> = if starts_with(&piece, &lit_mut) {
                                    subvec(&piece, 4, piece.len())
                                } else {
                                    subvec(&piece, 0, piece.len())
                                };
                                let pname = ident_at(&body, 0);
                                if pname.len() > 0 {
                                    add_def(&mut nodes, &mut defs, path, &pname, ln);
                                }
                                q = q + 1;
                            }
                        },
                        None => {},
                    }
                },
                None => {},
            }
        }
        i = i + 1;
    }

    // assignments `name = value`: these carry the binding guarantee
    let mut i2: usize = 0;
    while i2 < lines.len()
        invariant
            i2 <= lines@.len(),
            lv == lines.deep_view(),
            lv.len() == lines@.len(),
            lines@.len() == 0 ==> nodes@.len() == 0 && edges@.len() == 0,
            forall|k: int| 0 <= k < nodes@.len() ==> (#[trigger] nodes@[k]).file@ == path@,
            forall|k: int|
                0 <= k < edges@.len() && (#[trigger] edges@[k]).kind == DependencyKind::Control
                    ==> crate::strutil::contains_seq(edges@[k].from@, ":ctrl:"@),
            forall|j: int|
                0 <= j < i2 && spec_assign_name(#[trigger] lv[j]).len() > 0 ==> exists|k: int|
                    0 <= k < nodes@.len() && (#[trigger] nodes@[k]).id@ == spec_node_id(
                        path@,
                        ":def:"@,
                        spec_assign_name(lv[j]),
                        crate::languages::rust::spec_line_no(j),
                    ),
        decreases lines.len() - i2,
    {
        assert(lines[i2 as int]@ == lv[i2 as int]) by {
            assert(lines.deep_view()[i2 as int] == lines@[i2 as int].deep_view());
        }
        let ghost ns = nodes@;
        let ln = crate::languages::rust::pub_line_no(i2);
        let t = trim(&lines[i2]);
        let mut bound = false;
        let ghost mut n1 = nodes@;
        if t.len() > 0 && is_ident_char(t[0]) && !('0' <= t[0] && t[0] <= '9') {
            let name = ident_at(&t, 0);
            let p = skip_spaces(&t, name.len());
            if p < t.len() && t[p] == '=' && (p + 1 >= t.len() || t[p + 1] != '=') {
                if name.len() > 0 && !ruby_is_reserved(&name) {
                    add_def(&mut nodes, &mut defs, path, &name, ln);
                    bound = true;
                    proof {
                        n1 = nodes@;
                        assert(name@ == spec_assign_name(lv[i2 as int]));
                    }
                    // a use of the right-hand side identifier, if defined
                    let p2 = skip_spaces(&t, p + 1);
                    if p2 < t.len() && is_ident_char(t[p2]) && !('0' <= t[p2] && t[p2] <= '9') {
                        let rhs = ident_at(&t, p2);
                        if rhs.len() > 0 && has_def(&defs, &rhs) {
                            let ghost e0 = edges@;
                            add_use(&mut nodes, &mut edges, &defs, path, &rhs, ln);
                            proof {
                                assert forall|k: int|
                                    0 <= k < edges@.len() && (#[trigger] edges@[k]).kind
                                        == DependencyKind::Control
                                        implies crate::strutil::contains_seq(
                                    edges@[k].from@,
                                    ":ctrl:"@,
                                ) by {
                                    if k < e0.len() {
                                    }
                                }
                            }
                        }
                    }
                }
            }
        }
        proof {
            assert forall|j: int|
                0 <= j < i2 + 1 && spec_assign_name(#[trigger] lv[j]).len() > 0
                    implies exists|k: int|
                0 <= k < nodes@.len() && (#[trigger] nodes@[k]).id@ == spec_node_id(
                    path@,
                    ":def:"@,
                    spec_assign_name(lv[j]),
                    crate::languages::rust::spec_line_no(j),
                ) by {
                if j < i2 {
                    let k = choose|k: int|
                        0 <= k < ns.len() && (#[trigger] ns[k]).id@ == spec_node_id(
                            path@,
                            ":def:"@,
                            spec_assign_name(lv[j]),
                            crate::languages::rust::spec_line_no(j),
                        );
                    assert(nodes@[k] == ns[k]);
                } else {
                    assert(bound);
                    let k = choose|k: int|
                        0 <= k < n1.len() && (#[trigger] n1[k]).id@ == spec_node_id(
                            path@,
                            ":def:"@,
                            spec_assign_name(lv[j]),
                            crate::languages::rust::spec_line_no(j),
                        );
                    assert(nodes@[k] == n1[k]);
                }
            }
        }
        i2 = i2 + 1;
    }
    let ghost nb = nodes@;

    // `return name` uses
    let mut i3: usize = 0;
    while i3 < lines.len()
        invariant
            i3 <= lines@.len(),
            lines@.len() == 0 ==> nodes@.len() == 0 && edges@.len() == 0,
            forall|k: int| 0 <= k < nodes@.len() ==> (#[trigger] nodes@[k]).file@ == path@,
            nodes@.len() >= nb.len(),
            forall|k: int| 0 <= k < nb.len() ==> nodes@[k] == nb[k],
            forall|k: int|
                0 <= k < edges@.len() && (#[trigger] edges@[k]).kind == DependencyKind::Control
                    ==> crate::strutil::contains_seq(edges@[k].from@, ":ctrl:"@),
        decreases lines.len() - i3,
    {
        let ln = crate::languages::rust::pub_line_no(i3);
        let t = trim(&lines[i3]);
        match index_of_sub(&t, &lit_return, 0) {
            Some(rp) => {
                let tn = t.len();
                proof {
                    assert(crate::strutil::occurs_at(t@, lit_return@, rp as int));
                }
                assert(rp + 7 <= tn);
                let after = skip_spaces(&t, rp + 7);
                if after < t.len() && is_ident_char(t[after]) && !('0' <= t[after] && t[after]
                    <= '9') {
                    let nm = ident_at(&t, after);
                    if nm.len() > 0 && !def_on_line(&defs, &nm, ln) {
                        let ghost e0 = edges@;
                        add_use(&mut nodes, &mut edges, &defs, path, &nm, ln);
                        proof {
                            assert forall|k: int|
                                0 <= k < edges@.len() && (#[trigger] edges@[k]).kind
                                    == DependencyKind::Control implies crate::strutil::contains_seq(
                                edges@[k].from@,
                                ":ctrl:"@,
                            ) by {
                                if k < e0.len() {
                                }
                            }
                        }
                    }
                }
            },
            None => {},
        }
        i3 = i3 + 1;
    }

    // general identifier uses
    let mut i4: usize = 0;
    while i4 < lines.len()
        invariant
            i4 <= lines@.len(),
            lines@.len() == 0 ==> nodes@.len() == 0 && edges@.len() == 0,
            forall|k: int| 0 <= k < nodes@.len() ==> (#[trigger] nodes@[k]).file@ == path@,
            nodes@.len() >= nb.len(),
            forall|k: int| 0 <= k < nb.len() ==> nodes@[k] == nb[k],
            forall|k: int|
                0 <= k < edges@.len() && (#[trigger] edges@[k]).kind == DependencyKind::Control
                    ==> crate::strutil::contains_seq(edges@[k].from@, ":ctrl:"@),
        decreases lines.len() - i4,
    {
        let ln = crate::languages::rust::pub_line_no(i4);
        let toks = tokens_of(&lines[i4]);
        let mut q: usize = 0;
        while q < toks.len()
            invariant
                q <= toks@.len(),
                lines@.len() == 0 ==> nodes@.len() == 0 && edges@.len() == 0,
                forall|k: int| 0 <= k < nodes@.len() ==> (#[trigger] nodes@[k]).file@ == path@,
                nodes@.len() >= nb.len(),
                forall|k: int| 0 <= k < nb.len() ==> nodes@[k] == nb[k],
                forall|k: int|
                    0 <= k < edges@.len() && (#[trigger] edges@[k]).kind == DependencyKind::Control
                        ==> crate::strutil::contains_seq(edges@[k].from@, ":ctrl:"@),
            decreases toks.len() - q,
        {
            let tok = &toks[q];
            let ghost e0 = edges@;
            if tok.len() > 0 && !in_list(&reserved, tok) && !def_on_line(&defs, tok, ln)
                && has_def(&defs, tok) {
                add_use(&mut nodes, &mut edges, &defs, path, tok, ln);
                proof {
                    assert forall|k: int|
                        0 <= k < edges@.len() && (#[trigger] edges@[k]).kind
                            == DependencyKind::Control implies crate::strutil::contains_seq(
                        edges@[k].from@,
                        ":ctrl:"@,
                    ) by {
                        if k < e0.len() {
                        }
                    }
                }
            }
            q = q + 1;
        }
        i4 = i4 + 1;
    }

    // control blocks to their `end`
    let data_count = nodes.len();
    let mut i5: usize = 0;
    while i5 < lines.len()
        invariant
            i5 <= lines@.len(),
            data_count <= nodes@.len(),
            lines@.len() == 0 ==> nodes@.len() == 0 && edges@.len() == 0,
            forall|k: int| 0 <= k < nodes@.len() ==> (#[trigger] nodes@[k]).file@ == path@,
            nodes@.len() >= nb.len(),
            forall|k: int| 0 <= k < nb.len() ==> nodes@[k] == nb[k],
            forall|k: int|
                0 <= k < edges@.len() && (#[trigger] edges@[k]).kind == DependencyKind::Control
                    ==> crate::strutil::contains_seq(edges@[k].from@, ":ctrl:"@),
        decreases lines.len() - i5,
    {
        let t = trim(&lines[i5]);
        if ruby_control_start(&t) {
            let e = ruby_find_end(&lines, i5);
            let start_ln = crate::languages::rust::pub_line_no(i5);
            let end_ln = crate::languages::rust::pub_line_no(e);
            let ctrl_id = node_id(path, ":ctrl:", &u32_to_chars(start_ln), end_ln);
            proof {
                lemma_ctrl_id_marked(path@, crate::strutil::spec_dec(start_ln as nat), end_ln);
            }
            if !has_node(&nodes, ctrl_id.as_str()) {
                let ghost n0 = nodes@;
                nodes.push(
                    DfgNode {
                        id: ctrl_id.clone(),
                        name: chars_to_string(&str_to_chars("control")),
                        file: chars_to_string(&str_to_chars(path)),
                        line: start_ln,
                    },
                );
                proof {
                    assert forall|k: int|
                        0 <= k < nodes@.len() implies (#[trigger] nodes@[k]).file@ == path@ by {
                        if k < n0.len() {
                            assert(nodes@[k] == n0[k]);
                        }
                    }
                }
            }
            let mut w: usize = 0;
            while w < data_count
                invariant
                    w <= data_count,
                    data_count <= nodes@.len(),
                    ctrl_id@ == spec_node_id(
                        path@,
                        ":ctrl:"@,
                        crate::strutil::spec_dec(start_ln as nat),
                        end_ln,
                    ),
                    lines@.len() == 0 ==> nodes@.len() == 0 && edges@.len() == 0,
                    forall|k: int| 0 <= k < nodes@.len() ==> (#[trigger] nodes@[k]).file@ == path@,
                    nodes@.len() >= nb.len(),
                    forall|k: int| 0 <= k < nb.len() ==> nodes@[k] == nb[k],
                    forall|k: int|
                        0 <= k < edges@.len() && (#[trigger] edges@[k]).kind
                            == DependencyKind::Control ==> crate::strutil::contains_seq(
                            edges@[k].from@,
                            ":ctrl:"@,
                        ),
                decreases data_count - w,
            {
                let nd = &nodes[w];
                if nd.line >= start_ln && nd.line <= end_ln {
                    let ghost e0 = edges@;
                    edges.push(
                        DfgEdge {
                            from: ctrl_id.clone(),
                            to: nd.id.clone(),
                            kind: DependencyKind::Control,
                        },
                    );
                    proof {
                        lemma_ctrl_id_marked(
                            path@,
                            crate::strutil::spec_dec(start_ln as nat),
                            end_ln,
                        );
                        assert forall|k: int|
                            0 <= k < edges@.len() && (#[trigger] edges@[k]).kind
                                == DependencyKind::Control implies crate::strutil::contains_seq(
                            edges@[k].from@,
                            ":ctrl:"@,
                        ) by {
                            if k < e0.len() {
                            } else {
                                assert(edges@[k].from@ == ctrl_id@);
                            }
                        }
                    }
                }
                w = w + 1;
            }
        }
        i5 = i5 + 1;
    }
    let r = DataFlowGraph { nodes, edges };
    proof {
        assert(lv == crate::diff::spec_lines(source@));
        assert forall|j: int|
            0 <= j < crate::diff::spec_lines(source@).len() && spec_assign_name(
                #[trigger] crate::diff::spec_lines(source@)[j],
            ).len() > 0 implies exists|k: int|
            0 <= k < r.nodes@.len() && (#[trigger] r.nodes@[k]).id@ == spec_node_id(
                path@,
                ":def:"@,
                spec_assign_name(crate::diff::spec_lines(source@)[j]),
                crate::languages::rust::spec_line_no(j),
            ) by {
            assert(crate::diff::spec_lines(source@)[j] == lv[j]);
            assert(spec_assign_name(lv[j]).len() > 0);
            let k = choose|k: int|
                0 <= k < nb.len() && (#[trigger] nb[k]).id@ == spec_node_id(
                    path@,
                    ":def:"@,
                    spec_assign_name(lv[j]),
                    crate::languages::rust::spec_line_no(j),
                );
            assert(0 <= k < nb.len() && nb[k].id@ == spec_node_id(
                path@,
                ":def:"@,
                spec_assign_name(lv[j]),
                crate::languages::rust::spec_line_no(j),
            ));
            assert(r.nodes@[k] == nb[k]);
        }
    }
    r
}

impl DfgBuilder for RubyDfgBuilder {
    fn build(path: &str, source: &str) -> DataFlowGraph {
        build_ruby_dfg(path, source)
    }
}

/// Builder of program dependence graphs: the flow graph joined with
/// the call edges.
pub struct PdgBuilder;

impl PdgBuilder {
    /// Merge a flow graph with call references: the nodes stay as they
    /// are and each reference contributes one data edge between its
    /// endpoint symbol ids.
    #[verifier::loop_isolation(false)]
    pub fn build(dfg: &DataFlowGraph, refs: &Vec<Reference>) -> (r: DataFlowGraph)
        ensures
            r.nodes@ == dfg.nodes@,
            r.edges@.len() == dfg.edges@.len() + refs@.len(),
            forall|k: int| 0 <= k < dfg.edges@.len() ==> r.edges@[k] == dfg.edges@[k],
            forall|k: int|
                0 <= k < refs@.len() ==> {
                    let e = #[trigger] r.edges@[dfg.edges@.len() + k];
                    e.from@ == refs@[k].from.0@ && e.to@ == refs@[k].to.0@ && e.kind
                        == DependencyKind::Data
                },
    {
        let mut nodes: Vec<DfgNode> = Vec::new();
        let mut i: usize = 0;
        while i < dfg.nodes.len()
            invariant
                i <= dfg.nodes@.len(),
                nodes@ == dfg.nodes@.subrange(0, i as int),
            decreases dfg.nodes.len() - i,
        {
            let n = &dfg.nodes[i];
            nodes.push(
                DfgNode {
                    id: n.id.clone(),
                    name: n.name.clone(),
                    file: n.file.clone(),
                    line: n.line,
                },
            );
            assert(nodes@ =~= dfg.nodes@.subrange(0, i as int + 1));
            i = i + 1;
        }
        assert(nodes@ =~= dfg.nodes@);
        let mut edges: Vec<DfgEdge> = Vec::new();
        let mut j: usize = 0;
        while j < dfg.edges.len()
            invariant
                j <= dfg.edges@.len(),
                edges@ == dfg.edges@.subrange(0, j as int),
            decreases dfg.edges.len() - j,
        {
            let e = &dfg.edges[j];
            edges.push(DfgEdge { from: e.from.clone(), to: e.to.clone(), kind: e.kind });
            assert(edges@ =~= dfg.edges@.subrange(0, j as int + 1));
            j = j + 1;
        }
        assert(edges@ =~= dfg.edges@);
        let mut k: usize = 0;
        while k < refs.len()
            invariant
                k <= refs@.len(),
                edges@.len() == dfg.edges@.len() + k,
                forall|w: int| 0 <= w < dfg.edges@.len() ==> edges@[w] == dfg.edges@[w],
                forall|w: int|
                    0 <= w < k ==> {
                        let e = #[trigger] edges@[dfg.edges@.len() + w];
                        e.from@ == refs@[w].from.0@ && e.to@ == refs@[w].to.0@ && e.kind
                            == DependencyKind::Data
                    },
            decreases refs.len() - k,
        {
            let rf = &refs[k];
            edges.push(
                DfgEdge {
                    from: rf.from.0.clone(),
                    to: rf.to.0.clone(),
                    kind: DependencyKind::Data,
                },
            );
            k = k + 1;
        }
        DataFlowGraph { nodes, edges }
    }

    /// Bridge variable flow and the call graph: connect uses at a call
    /// site to the callee, the callee to definitions at the site, and
    /// each callable symbol to the nodes its range spans. The nodes
    /// stay as they are; the appended edges are exactly the bridge
    /// edges of `spec_augment_edges`, in order.
    #[verifier::loop_isolation(false)]
    pub fn augment_symbolic_propagation(
        pdg: &mut DataFlowGraph,
        refs: &Vec<Reference>,
        index: &crate::ir::reference::SymbolIndex,
    )
        ensures
            final(pdg).nodes@ == old(pdg).nodes@,
            final(pdg).edges.deep_view() == old(pdg).edges.deep_view() + spec_augment_edges(
                old(pdg).nodes@,
                refs@,
                index.symbols@,
            ),
    {
        let bridges = augment_bridges(&pdg.nodes, refs, index);
        append_edges(&mut pdg.edges, bridges);
    }
}

/// The bridge edges one call reference contributes, scanning the
/// nodes in order: a use node at the reference's site feeds the
/// callee, and the callee feeds a def node at the site.
pub open spec fn spec_ref_bridges(
    nodes: Seq<DfgNode>,
    rf: Reference,
    w: int,
    acc: Seq<DfgEdgeV>,
) -> Seq<DfgEdgeV>
    decreases nodes.len() - w,
{
    if w < 0 || w >= nodes.len() {
        acc
    } else {
        let n = nodes[w];
        let acc2 = if n.line == rf.line && n.file@ == rf.file@ {
            let a = if crate::strutil::contains_seq(n.id@, ":use:"@) {
                acc.push(DfgEdgeV { from: n.id@, to: rf.to.0@, kind: DependencyKind::Data })
            } else {
                acc
            };
            if crate::strutil::contains_seq(n.id@, ":def:"@) {
                a.push(DfgEdgeV { from: rf.to.0@, to: n.id@, kind: DependencyKind::Data })
            } else {
                a
            }
        } else {
            acc
        };
        spec_ref_bridges(nodes, rf, w + 1, acc2)
    }
}

/// The call-site bridges of every reference, in order.
pub open spec fn spec_call_bridges(
    nodes: Seq<DfgNode>,
    refs: Seq<Reference>,
    k: int,
    acc: Seq<DfgEdgeV>,
) -> Seq<DfgEdgeV>
    decreases refs.len() - k,
{
    if k < 0 || k >= refs.len() {
        acc
    } else {
        spec_call_bridges(nodes, refs, k + 1, spec_ref_bridges(nodes, refs[k], 0, acc))
    }
}

/// The span edges of one callable symbol: the symbol feeds every node
/// of its file whose line its range contains.
pub open spec fn spec_sym_span(
    nodes: Seq<DfgNode>,
    s: crate::ir::Symbol,
    w: int,
    acc: Seq<DfgEdgeV>,
) -> Seq<DfgEdgeV>
    decreases nodes.len() - w,
{
    if w < 0 || w >= nodes.len() {
        acc
    } else {
        let n = nodes[w];
        let acc2 = if n.line >= s.range.start_line && n.line <= s.range.end_line && n.file@
            == s.file@ {
            acc.push(DfgEdgeV { from: s.id.0@, to: n.id@, kind: DependencyKind::Data })
        } else {
            acc
        };
        spec_sym_span(nodes, s, w + 1, acc2)
    }
}

/// The span edges of every callable symbol, in order.
pub open spec fn spec_span_bridges(
    nodes: Seq<DfgNode>,
    syms: Seq<crate::ir::Symbol>,
    k: int,
    acc: Seq<DfgEdgeV>,
) -> Seq<DfgEdgeV>
    decreases syms.len() - k,
{
    if k < 0 || k >= syms.len() {
        acc
    } else {
        let acc2 = if crate::ir::is_callable(syms[k].kind) {
            spec_sym_span(nodes, syms[k], 0, acc)
        } else {
            acc
        };
        spec_span_bridges(nodes, syms, k + 1, acc2)
    }
}

/// All bridge edges the augmentation appends: the call-site bridges
/// of every reference, then the span edges of every callable symbol.
pub open spec fn spec_augment_edges(
    nodes: Seq<DfgNode>,
    refs: Seq<Reference>,
    syms: Seq<crate::ir::Symbol>,
) -> Seq<DfgEdgeV> {
    spec_span_bridges(nodes, syms, 0, spec_call_bridges(nodes, refs, 0, Seq::empty()))
}

/// Compute the bridge edges over the given nodes.
#[verifier::loop_isolation(false)]
#[verifier::rlimit(100)]
fn augment_bridges(
    nodes: &Vec<DfgNode>,
    refs: &Vec<Reference>,
    index: &crate::ir::reference::SymbolIndex,
) -> (r: Vec<DfgEdge>)
    ensures
        r.deep_view() == spec_augment_edges(nodes@, refs@, index.symbols@),
{
    let lit_use = str_to_chars(":use:");
    let lit_def = str_to_chars(":def:");
    proof {
        reveal_strlit(":use:");
        reveal_strlit(":def:");
    }
    let mut out: Vec<DfgEdge> = Vec::new();
    proof {
        assert(out.deep_view() =~~= Seq::<DfgEdgeV>::empty());
    }
    let mut k: usize = 0;
    while k < refs.len()
        invariant
            k <= refs@.len(),
            lit_use@ == ":use:"@,
            lit_def@ == ":def:"@,
            spec_call_bridges(nodes@, refs@, 0, Seq::empty()) == spec_call_bridges(
                nodes@,
                refs@,
                k as int,
                out.deep_view(),
            ),
        decreases refs.len() - k,
    {
        let rf = &refs[k];
        let ghost b0 = out.deep_view();
        let mut w: usize = 0;
        while w < nodes.len()
            invariant
                w <= nodes@.len(),
                lit_use@ == ":use:"@,
                lit_def@ == ":def:"@,
                spec_ref_bridges(nodes@, refs@[k as int], 0, b0) == spec_ref_bridges(
                    nodes@,
                    refs@[k as int],
                    w as int,
                    out.deep_view(),
                ),
            decreases nodes.len() - w,
        {
            let n = &nodes[w];
            if n.line == rf.line && crate::strutil::str_eq(n.file.as_str(), rf.file.as_str()) {
                let idv = str_to_chars(n.id.as_str());
                let ghost o0 = out.deep_view();
                if crate::strutil::contains_sub(&idv, &lit_use) {
                    out.push(
                        DfgEdge {
                            from: n.id.clone(),
                            to: rf.to.0.clone(),
                            kind: DependencyKind::Data,
                        },
                    );
                    proof {
                        assert(out.deep_view() =~~= o0.push(
                            DfgEdgeV {
                                from: nodes@[w as int].id@,
                                to: refs@[k as int].to.0@,
                                kind: DependencyKind::Data,
                            },
                        ));
                    }
                }
                let ghost o1 = out.deep_view();
                if crate::strutil::contains_sub(&idv, &lit_def) {
                    out.push(
                        DfgEdge {
                            from: rf.to.0.clone(),
                            to: n.id.clone(),
                            kind: DependencyKind::Data,
                        },
                    );
                    proof {
                        assert(out.deep_view() =~~= o1.push(
                            DfgEdgeV {
                                from: refs@[k as int].to.0@,
                                to: nodes@[w as int].id@,
                                kind: DependencyKind::Data,
                            },
                        ));
                    }
                }
            }
            w = w + 1;
        }
        k = k + 1;
    }
    let ghost mid = out.deep_view();
    proof {
        assert(spec_augment_edges(nodes@, refs@, index.symbols@) == spec_span_bridges(
            nodes@,
            index.symbols@,
            0,
            mid,
        ));
    }
    let mut k2: usize = 0;
    while k2 < index.symbols.len()
        invariant
            k2 <= index.symbols@.len(),
            spec_span_bridges(nodes@, index.symbols@, 0, mid) == spec_span_bridges(
                nodes@,
                index.symbols@,
                k2 as int,
                out.deep_view(),
            ),
        decreases index.symbols.len() - k2,
    {
        let sym = &index.symbols[k2];
        if sym.kind == crate::ir::SymbolKind::Function || sym.kind
            == crate::ir::SymbolKind::Method {
            let ghost b0 = out.deep_view();
            let mut w: usize = 0;
            while w < nodes.len()
                invariant
                    w <= nodes@.len(),
                    spec_sym_span(nodes@, index.symbols@[k2 as int], 0, b0) == spec_sym_span(
                        nodes@,
                        index.symbols@[k2 as int],
                        w as int,
                        out.deep_view(),
                    ),
                decreases nodes.len() - w,
            {
                let n = &nodes[w];
                let ghost o0 = out.deep_view();
                if n.line >= sym.range.start_line && n.line <= sym.range.end_line
                    && crate::strutil::str_eq(n.file.as_str(), sym.file.as_str()) {
                    out.push(
                        DfgEdge {
                            from: sym.id.0.clone(),
                            to: n.id.clone(),
                            kind: DependencyKind::Data,
                        },
                    );
                    proof {
                        assert(out.deep_view() =~~= o0.push(
                            DfgEdgeV {
                                from: index.symbols@[k2 as int].id.0@,
                                to: nodes@[w as int].id@,
                                kind: DependencyKind::Data,
                            },
                        ));
                    }
                }
                w = w + 1;
            }
        }
        k2 = k2 + 1;
    }
    out
}

/// Append edges, preserving what stands.
#[verifier::loop_isolation(false)]
fn append_edges(dst: &mut Vec<DfgEdge>, src: Vec<DfgEdge>)
    ensures
        final(dst).deep_view() == old(dst).deep_view() + src.deep_view(),
{
    let n = src.len();
    let src2 = src;
    let ghost srcv = src2.deep_view();
    let mut i: usize = 0;
    while i < n
        invariant
            i <= n,
            n == src2@.len(),
            srcv == src2.deep_view(),
            srcv.len() == src2@.len(),
            dst.deep_view() == old(dst).deep_view() + srcv.subrange(0, i as int),
        decreases n - i,
    {
        let e = &src2[i];
        let ghost d0 = dst.deep_view();
        dst.push(DfgEdge { from: e.from.clone(), to: e.to.clone(), kind: e.kind });
        proof {
            assert(src2.deep_view()[i as int] == src2@[i as int].deep_view());
            assert(dst.deep_view() =~~= d0.push(srcv[i as int]));
            assert(d0.push(srcv[i as int]) =~~= old(dst).deep_view() + srcv.subrange(
                0,
                i as int + 1,
            ));
        }
        i = i + 1;
    }
    proof {
        assert(srcv.subrange(0, srcv.len() as int) =~= srcv);
    }
}

} // verus!
