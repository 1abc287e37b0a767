//! The Rust reference analyzer: a line-oriented scanner for
//! declarations, call sites and `use` imports.

use vstd::prelude::*;
use crate::ir::{mk_symbol, spec_mk_symbol, Symbol, SymbolV, SymbolKind};
use crate::ir::reference::{RefKind, UnresolvedRef, URefV};
use crate::imports::{ImportEntryV, ImportMap};
use crate::strutil::{
    chars_to_string, contains_seq, contains_sub, eq_chars, is_prefix, opt_str_view,
    spec_rfind_sub, spec_split, spec_trim, split_sub, starts_with, ends_with, str_to_chars,
    subvec, trim, rfind_sub,
};

verus! {

/// The declared function name on a line, if the line opens a `fn`.
pub uninterp spec fn fn_decl_capture(l: Seq<char>) -> Option<Seq<char>>;

/// Relies on `regex::Regex::captures` with the constant pattern
/// `^\s*(?:pub\s+)?(?:async\s+)?(?:const\s+)?fn\s+([a-zA-Z_][a-zA-Z0-9_]*)`:
/// the first capture group is the declared name. The pattern is a
/// fixed, valid expression, so compiling it cannot fail.
#[verifier::external_body]
fn fn_decl_name(line: &str) -> (r: Option<String>)
    ensures
        opt_str_view(r) == fn_decl_capture(line@),
{
    let re = regex::Regex::new(
        r"^\s*(?:pub\s+)?(?:async\s+)?(?:const\s+)?fn\s+([a-zA-Z_][a-zA-Z0-9_]*)",
    ).unwrap();
    re.captures(line).and_then(|c| c.get(1)).map(|m| m.as_str().to_string())
}

/// The declared struct name on a line, if any.
pub uninterp spec fn struct_decl_capture(l: Seq<char>) -> Option<Seq<char>>;

/// Relies on `regex::Regex::captures` with the constant pattern
/// `^\s*(?:pub\s+)?struct\s+([A-Za-z_][A-Za-z0-9_]*)`.
#[verifier::external_body]
fn struct_decl_name(line: &str) -> (r: Option<String>)
    ensures
        opt_str_view(r) == struct_decl_capture(line@),
{
    let re = regex::Regex::new(r"^\s*(?:pub\s+)?struct\s+([A-Za-z_][A-Za-z0-9_]*)").unwrap();
    re.captures(line).and_then(|c| c.get(1)).map(|m| m.as_str().to_string())
}

/// The declared enum name on a line, if any.
pub uninterp spec fn enum_decl_capture(l: Seq<char>) -> Option<Seq<char>>;

/// Relies on `regex::Regex::captures` with the constant pattern
/// `^\s*(?:pub\s+)?enum\s+([A-Za-z_][A-Za-z0-9_]*)`.
#[verifier::external_body]
fn enum_decl_name(line: &str) -> (r: Option<String>)
    ensures
        opt_str_view(r) == enum_decl_capture(line@),
{
    let re = regex::Regex::new(r"^\s*(?:pub\s+)?enum\s+([A-Za-z_][A-Za-z0-9_]*)").unwrap();
    re.captures(line).and_then(|c| c.get(1)).map(|m| m.as_str().to_string())
}

/// The declared trait name on a line, if any.
pub uninterp spec fn trait_decl_capture(l: Seq<char>) -> Option<Seq<char>>;

/// Relies on `regex::Regex::captures` with the constant pattern
/// `^\s*(?:pub\s+)?trait\s+([A-Za-z_][A-Za-z0-9_]*)`.
#[verifier::external_body]
fn trait_decl_name(line: &str) -> (r: Option<String>)
    ensures
        opt_str_view(r) == trait_decl_capture(line@),
{
    let re = regex::Regex::new(r"^\s*(?:pub\s+)?trait\s+([A-Za-z_][A-Za-z0-9_]*)").unwrap();
    re.captures(line).and_then(|c| c.get(1)).map(|m| m.as_str().to_string())
}

/// The possibly-qualified callee paths on a line, in match order.
pub uninterp spec fn qcall_captures(l: Seq<char>) -> Seq<Seq<char>>;

/// Relies on `regex::Regex::captures_iter` with the constant pattern
/// `([A-Za-z_][A-Za-z0-9_]*(?:::[A-Za-z_][A-Za-z0-9_]*)*)\s*\(`: each
/// first capture group is a path followed by an opening parenthesis.
#[verifier::external_body]
fn qualified_call_paths(line: &str) -> (r: Vec<String>)
    ensures
        r.deep_view() == qcall_captures(line@),
{
    let re = regex::Regex::new(
        r"([A-Za-z_][A-Za-z0-9_]*(?:::[A-Za-z_][A-Za-z0-9_]*)*)\s*\(",
    ).unwrap();
    re.captures_iter(line).map(|c| c[1].to_string()).collect()
}

/// The member-call names on a line (`.name(`), in match order.
pub uninterp spec fn mcall_captures(l: Seq<char>) -> Seq<Seq<char>>;

/// Relies on `regex::Regex::captures_iter` with the constant pattern
/// `\.\s*([A-Za-z_][A-Za-z0-9_]*)\s*\(`.
#[verifier::external_body]
fn method_call_names(line: &str) -> (r: Vec<String>)
    ensures
        r.deep_view() == mcall_captures(line@),
{
    let re = regex::Regex::new(r"\.\s*([A-Za-z_][A-Za-z0-9_]*)\s*\(").unwrap();
    re.captures_iter(line).map(|c| c[1].to_string()).collect()
}

/// A free-call token: the name before `(` and whether a `!` marks it
/// as a macro invocation.
#[derive(Debug, Clone, PartialEq, Eq)]
pub struct CallTok {
    pub name: String,
    pub is_macro: bool,
}

/// Mathematical value of a `CallTok`.
pub struct CallTokV {
    pub name: Seq<char>,
    pub is_macro: bool,
}

impl View for CallTok {
    type V = CallTokV;

    open spec fn view(&self) -> CallTokV {
        CallTokV { name: self.name@, is_macro: self.is_macro }
    }
}

impl DeepView for CallTok {
    type V = CallTokV;

    open spec fn deep_view(&self) -> CallTokV {
        self@
    }
}

/// The free-call tokens on a line, in match order.
pub uninterp spec fn scall_captures(l: Seq<char>) -> Seq<CallTokV>;

/// Relies on `regex::Regex::captures_iter` with the constant pattern
/// `\b([A-Za-z_][A-Za-z0-9_]*)\s*(!)?\s*\(`: group 1 is the name and
/// the presence of group 2 tells a macro invocation apart.
#[verifier::external_body]
fn simple_call_names(line: &str) -> (r: Vec<CallTok>)
    ensures
        r.deep_view() == scall_captures(line@),
{
    let re = regex::Regex::new(r"\b([A-Za-z_][A-Za-z0-9_]*)\s*(!)?\s*\(").unwrap();
    re.captures_iter(line).map(
        |c| CallTok { name: c[1].to_string(), is_macro: c.get(2).is_some() },
    ).collect()
}

/// A character occurs in the sequence.
pub open spec fn contains_char(l: Seq<char>, c: char) -> bool {
    exists|j: int| 0 <= j < l.len() && l[j] == c
}

#[verifier::loop_isolation(false)]
fn contains_char_exec(l: &Vec<char>, c: char) -> (r: bool)
    ensures
        r == contains_char(l@, c),
{
    let mut i: usize = 0;
    while i < l.len()
        invariant
            i <= l@.len(),
            forall|j: int| 0 <= j < i ==> l@[j] != c,
        decreases l.len() - i,
    {
        if l[i] == c {
            return true;
        }
        i = i + 1;
    }
    false
}

/// Saturating depth bump.
pub open spec fn spec_depth_inc(d: int) -> int {
    if d < usize::MAX {
        d + 1
    } else {
        d
    }
}

/// Brace balance over one line: `{` raises the depth, `}` lowers it
/// without going negative; any brace marks the block as started.
pub open spec fn spec_scan_line(l: Seq<char>, j: int, depth: int, started: bool) -> (int, bool)
    decreases l.len() - j,
{
    if j < 0 || j >= l.len() {
        (depth, started)
    } else if l[j] == '{' {
        spec_scan_line(l, j + 1, spec_depth_inc(depth), true)
    } else if l[j] == '}' {
        spec_scan_line(
            l,
            j + 1,
            if depth > 0 {
                depth - 1
            } else {
                0
            },
            started,
        )
    } else {
        spec_scan_line(l, j + 1, depth, started)
    }
}

/// The 0-based index of the line closing the block that opens at or
/// after `start`; falls back to the last line.
pub open spec fn spec_find_block_end(
    lines: Seq<Seq<char>>,
    i: int,
    start: int,
    flag: bool,
    depth: int,
    started: bool,
) -> int
    decreases lines.len() - i,
{
    if i < 0 || i >= lines.len() {
        if lines.len() == 0 {
            0
        } else {
            lines.len() - 1
        }
    } else {
        let sc = spec_scan_line(lines[i], 0, depth, started);
        let d3 = if flag && i == start && !sc.1 {
            spec_depth_inc(sc.0)
        } else {
            sc.0
        };
        let s3 = if flag && i == start && !sc.1 {
            true
        } else {
            sc.1
        };
        if s3 && d3 == 0 {
            i
        } else {
            spec_find_block_end(lines, i + 1, start, flag, d3, s3)
        }
    }
}

/// Find the line closing the block that starts at `start`.
#[verifier::loop_isolation(false)]
pub fn find_block_end(lines: &Vec<Vec<char>>, start: usize, flag: bool) -> (r: usize)
    ensures
        r as int == spec_find_block_end(
            lines.deep_view(),
            start as int,
            start as int,
            flag,
            0,
            false,
        ),
        lines@.len() > 0 ==> r < lines@.len(),
        lines@.len() == 0 ==> r == 0,
{
    let ghost lv = lines.deep_view();
    let mut i: usize = start;
    let mut depth: usize = 0;
    let mut started = false;
    while i < lines.len()
        invariant
            start <= i,
            lv == lines.deep_view(),
            lv.len() == lines@.len(),
            spec_find_block_end(lv, start as int, start as int, flag, 0, false)
                == spec_find_block_end(lv, i as int, start as int, flag, depth as int, started),
        decreases lines.len() - i,
    {
        let l = &lines[i];
        assert(l@ == lv[i as int]) by {
            assert(lines.deep_view()[i as int] == lines@[i as int].deep_view());
        }
        let ghost d0 = depth as int;
        let ghost s0 = started;
        let mut j: usize = 0;
        while j < l.len()
            invariant
                j <= l@.len(),
                l@ == lv[i as int],
                spec_scan_line(lv[i as int], 0, d0, s0) == spec_scan_line(
                    lv[i as int],
                    j as int,
                    depth as int,
                    started,
                ),
            decreases l.len() - j,
        {
            let c = l[j];
            if c == '{' {
                if depth < usize::MAX {
                    depth = depth + 1;
                }
                started = true;
            } else if c == '}' {
                if depth > 0 {
                    depth = depth - 1;
                }
            }
            j = j + 1;
        }
        if flag && i == start && !started {
            if depth < usize::MAX {
                depth = depth + 1;
            }
            started = true;
        }
        if started && depth == 0 {
            return i;
        }
        i = i + 1;
    }
    if lines.len() == 0 {
        0
    } else {
        lines.len() - 1
    }
}

/// The 1-based line number of a 0-based index.
pub open spec fn spec_line_no(i: int) -> u32 {
    ((i + 1) as u32)
}

/// The symbols a Rust source declares, scanning line by line: `fn`,
/// `struct`, `enum` and `trait` headers, each with the block end found
/// by brace counting.
pub open spec fn spec_rust_symbols(
    path: Seq<char>,
    lines: Seq<Seq<char>>,
    i: int,
    acc: Seq<SymbolV>,
) -> Seq<SymbolV>
    decreases lines.len() - i,
{
    if i < 0 || i >= lines.len() {
        acc
    } else {
        let l = lines[i];
        let acc2 = match fn_decl_capture(l) {
            Option::Some(name) => {
                let e = spec_find_block_end(lines, i, i, contains_char(l, '{'), 0, false);
                acc.push(
                    spec_mk_symbol(
                        path,
                        "rust"@,
                        name,
                        SymbolKind::Function,
                        spec_line_no(i),
                        spec_line_no(e),
                    ),
                )
            },
            Option::None => match struct_decl_capture(l) {
                Option::Some(name) => {
                    let e = if contains_char(l, '{') {
                        spec_find_block_end(lines, i, i, true, 0, false)
                    } else {
                        i
                    };
                    acc.push(
                        spec_mk_symbol(
                            path,
                            "rust"@,
                            name,
                            SymbolKind::Struct,
                            spec_line_no(i),
                            spec_line_no(e),
                        ),
                    )
                },
                Option::None => match enum_decl_capture(l) {
                    Option::Some(name) => {
                        let e = if contains_char(l, '{') {
                            spec_find_block_end(lines, i, i, true, 0, false)
                        } else {
                            i
                        };
                        acc.push(
                            spec_mk_symbol(
                                path,
                                "rust"@,
                                name,
                                SymbolKind::Enum,
                                spec_line_no(i),
                                spec_line_no(e),
                            ),
                        )
                    },
                    Option::None => match trait_decl_capture(l) {
                        Option::Some(name) => {
                            let e = if contains_char(l, '{') {
                                spec_find_block_end(lines, i, i, true, 0, false)
                            } else {
                                i
                            };
                            acc.push(
                                spec_mk_symbol(
                                    path,
                                    "rust"@,
                                    name,
                                    SymbolKind::Trait,
                                    spec_line_no(i),
                                    spec_line_no(e),
                                ),
                            )
                        },
                        Option::None => acc,
                    },
                },
            },
        };
        spec_rust_symbols(path, lines, i + 1, acc2)
    }
}

fn line_no_of(i: usize) -> (r: u32)
    requires
        i < usize::MAX,
    ensures
        r == spec_line_no(i as int),
{
    #[verifier::truncate] ((i + 1) as u32)
}

/// Extract the declared symbols of a Rust source.
#[verifier::loop_isolation(false)]
#[verifier::rlimit(100)]
pub fn rust_symbols_in_file(path: &str, source: &str) -> (r: Vec<Symbol>)
    ensures
        r.deep_view() == spec_rust_symbols(
            path@,
            crate::diff::spec_lines(source@),
            0,
            Seq::empty(),
        ),
{
    let chars = str_to_chars(source);
    let lines = crate::diff::split_lines(&chars);
    let ghost lv = lines.deep_view();
    let mut out: Vec<Symbol> = Vec::new();
    let mut i: usize = 0;
    proof {
        assert(out.deep_view() =~~= Seq::<SymbolV>::empty());
    }
    while i < lines.len()
        invariant
            i <= lines@.len(),
            lv == lines.deep_view(),
            lv.len() == lines@.len(),
            spec_rust_symbols(path@, lv, 0, Seq::empty()) == spec_rust_symbols(
                path@,
                lv,
                i as int,
                out.deep_view(),
            ),
        decreases lines.len() - i,
    {
        let l = &lines[i];
        assert(l@ == lv[i as int]) by {
            assert(lines.deep_view()[i as int] == lines@[i as int].deep_view());
        }
        let ghost o0 = out.deep_view();
        let ls = chars_to_string(&subvec(l, 0, l.len()));
        proof {
            assert(lv[i as int].subrange(0, lv[i as int].len() as int) =~= lv[i as int]);
        }
        match fn_decl_name(ls.as_str()) {
            Some(name) => {
                let has_brace = contains_char_exec(l, '{');
                let e = find_block_end(&lines, i, has_brace);
                let sym = mk_symbol(path, "rust", name.as_str(), SymbolKind::Function, line_no_of(
                    i,
                ), line_no_of(e));
                out.push(sym);
                proof {
                    assert(out.deep_view() =~~= o0.push(
                        spec_mk_symbol(
                            path@,
                            "rust"@,
                            fn_decl_capture(lv[i as int])->Some_0,
                            SymbolKind::Function,
                            spec_line_no(i as int),
                            spec_line_no(
                                spec_find_block_end(
                                    lv,
                                    i as int,
                                    i as int,
                                    contains_char(lv[i as int], '{'),
                                    0,
                                    false,
                                ),
                            ),
                        ),
                    ));
                }
            },
            None => {
                match struct_decl_name(ls.as_str()) {
                    Some(name) => {
                        let has_brace = contains_char_exec(l, '{');
                        let e = if has_brace {
                            find_block_end(&lines, i, true)
                        } else {
                            i
                        };
                        let sym = mk_symbol(
                            path,
                            "rust",
                            name.as_str(),
                            SymbolKind::Struct,
                            line_no_of(i),
                            line_no_of(e),
                        );
                        out.push(sym);
                        proof {
                            let ghost ee: int = if contains_char(lv[i as int], '{') {
                                spec_find_block_end(lv, i as int, i as int, true, 0, false)
                            } else {
                                i as int
                            };
                            assert(out.deep_view() =~~= o0.push(
                                spec_mk_symbol(
                                    path@,
                                    "rust"@,
                                    struct_decl_capture(lv[i as int])->Some_0,
                                    SymbolKind::Struct,
                                    spec_line_no(i as int),
                                    spec_line_no(ee),
                                ),
                            ));
                        }
                    },
                    None => {
                        match enum_decl_name(ls.as_str()) {
                            Some(name) => {
                                let has_brace = contains_char_exec(l, '{');
                                let e = if has_brace {
                                    find_block_end(&lines, i, true)
                                } else {
                                    i
                                };
                                let sym = mk_symbol(
                                    path,
                                    "rust",
                                    name.as_str(),
                                    SymbolKind::Enum,
                                    line_no_of(i),
                                    line_no_of(e),
                                );
                                out.push(sym);
                                proof {
                                    let ghost ee: int = if contains_char(lv[i as int], '{') {
                                        spec_find_block_end(lv, i as int, i as int, true, 0, false)
                                    } else {
                                        i as int
                                    };
                                    assert(out.deep_view() =~~= o0.push(
                                        spec_mk_symbol(
                                            path@,
                                            "rust"@,
                                            enum_decl_capture(lv[i as int])->Some_0,
                                            SymbolKind::Enum,
                                            spec_line_no(i as int),
                                            spec_line_no(ee),
                                        ),
                                    ));
                                }
                            },
                            None => {
                                match trait_decl_name(ls.as_str()) {
                                    Some(name) => {
                                        let has_brace = contains_char_exec(l, '{');
                                        let e = if has_brace {
                                            find_block_end(&lines, i, true)
                                        } else {
                                            i
                                        };
                                        let sym = mk_symbol(
                                            path,
                                            "rust",
                                            name.as_str(),
                                            SymbolKind::Trait,
                                            line_no_of(i),
                                            line_no_of(e),
                                        );
                                        out.push(sym);
                                        proof {
                                            let ghost ee: int = if contains_char(
                                                lv[i as int],
                                                '{',
                                            ) {
                                                spec_find_block_end(
                                                    lv,
                                                    i as int,
                                                    i as int,
                                                    true,
                                                    0,
                                                    false,
                                                )
                                            } else {
                                                i as int
                                            };
                                            assert(out.deep_view() =~~= o0.push(
                                                spec_mk_symbol(
                                                    path@,
                                                    "rust"@,
                                                    trait_decl_capture(lv[i as int])->Some_0,
                                                    SymbolKind::Trait,
                                                    spec_line_no(i as int),
                                                    spec_line_no(ee),
                                                ),
                                            ));
                                        }
                                    },
                                    None => {},
                                }
                            },
                        }
                    },
                }
            },
        }
        i = i + 1;
    }
    out
}

/// Qualified call sites of one line appended to the accumulator: each
/// captured path holding `::` yields a reference whose qualifier is
/// the path prefix.
pub open spec fn spec_push_qcalls(
    acc: Seq<URefV>,
    caps: Seq<Seq<char>>,
    k: int,
    file: Seq<char>,
    ln: u32,
) -> Seq<URefV>
    decreases caps.len() - k,
{
    if k < 0 || k >= caps.len() {
        acc
    } else {
        let full = caps[k];
        let acc2 = if contains_seq(full, "::"@) {
            acc.push(
                URefV {
                    name: crate::impact::spec_last_seg(full),
                    kind: RefKind::Call,
                    file: file,
                    line: ln,
                    qualifier: Option::Some(crate::impact::spec_prefix_seg(full)),
                    is_method: false,
                },
            )
        } else {
            acc
        };
        spec_push_qcalls(acc2, caps, k + 1, file, ln)
    }
}

/// Member call sites of one line appended to the accumulator.
pub open spec fn spec_push_mcalls(
    acc: Seq<URefV>,
    caps: Seq<Seq<char>>,
    k: int,
    file: Seq<char>,
    ln: u32,
) -> Seq<URefV>
    decreases caps.len() - k,
{
    if k < 0 || k >= caps.len() {
        acc
    } else {
        spec_push_mcalls(
            acc.push(
                URefV {
                    name: caps[k],
                    kind: RefKind::Call,
                    file: file,
                    line: ln,
                    qualifier: Option::None,
                    is_method: true,
                },
            ),
            caps,
            k + 1,
            file,
            ln,
        )
    }
}

/// A same-line reference with this name already carries a qualifier.
pub open spec fn spec_has_qual_dup(acc: Seq<URefV>, name: Seq<char>, ln: u32) -> bool {
    exists|w: int|
        0 <= w < acc.len() && (#[trigger] acc[w]).line == ln && acc[w].name == name
            && acc[w].qualifier is Some
}

/// Free call sites of one line appended: macros are skipped, and a
/// name already recorded as qualified on the same line is not repeated.
pub open spec fn spec_push_scalls(
    acc: Seq<URefV>,
    toks: Seq<CallTokV>,
    k: int,
    file: Seq<char>,
    ln: u32,
) -> Seq<URefV>
    decreases toks.len() - k,
{
    if k < 0 || k >= toks.len() {
        acc
    } else {
        let t = toks[k];
        let acc2 = if t.is_macro || spec_has_qual_dup(acc, t.name, ln) {
            acc
        } else {
            acc.push(
                URefV {
                    name: t.name,
                    kind: RefKind::Call,
                    file: file,
                    line: ln,
                    qualifier: Option::None,
                    is_method: false,
                },
            )
        };
        spec_push_scalls(acc2, toks, k + 1, file, ln)
    }
}

/// Every syntactic call site of a Rust source, line by line:
/// qualified calls first, then member calls, then free calls.
pub open spec fn spec_rust_urefs(
    file: Seq<char>,
    lines: Seq<Seq<char>>,
    i: int,
    acc: Seq<URefV>,
) -> Seq<URefV>
    decreases lines.len() - i,
{
    if i < 0 || i >= lines.len() {
        acc
    } else {
        let l = lines[i];
        let ln = spec_line_no(i);
        let a1 = spec_push_qcalls(acc, qcall_captures(l), 0, file, ln);
        let a2 = spec_push_mcalls(a1, mcall_captures(l), 0, file, ln);
        let a3 = spec_push_scalls(a2, scall_captures(l), 0, file, ln);
        spec_rust_urefs(file, lines, i + 1, a3)
    }
}

#[verifier::loop_isolation(false)]
fn has_qual_dup(refs: &Vec<UnresolvedRef>, name: &str, ln: u32) -> (r: bool)
    ensures
        r == spec_has_qual_dup(refs.deep_view(), name@, ln),
{
    let ghost rv = refs.deep_view();
    let mut i: usize = 0;
    while i < refs.len()
        invariant
            i <= refs@.len(),
            rv == refs.deep_view(),
            rv.len() == refs@.len(),
            forall|w: int|
                0 <= w < i ==> !((#[trigger] rv[w]).line == ln && rv[w].name == name@
                    && rv[w].qualifier is Some),
        decreases refs.len() - i,
    {
        let e = &refs[i];
        assert(e@ == rv[i as int]) by {
            assert(refs.deep_view()[i as int] == refs@[i as int].deep_view());
        }
        let q_is_some = e.qualifier.is_some();
        if e.line == ln && q_is_some && crate::strutil::str_eq(e.name.as_str(), name) {
            assert(spec_has_qual_dup(rv, name@, ln));
            return true;
        }
        i = i + 1;
    }
    false
}

/// Extract the unresolved call sites of a Rust source.
#[verifier::loop_isolation(false)]
#[verifier::rlimit(100)]
pub fn rust_unresolved_refs(path: &str, source: &str) -> (r: Vec<UnresolvedRef>)
    ensures
        r.deep_view() == spec_rust_urefs(path@, crate::diff::spec_lines(source@), 0, Seq::empty()),
{
    let chars = str_to_chars(source);
    let lines = crate::diff::split_lines(&chars);
    let ghost lv = lines.deep_view();
    let mut out: Vec<UnresolvedRef> = Vec::new();
    let mut i: usize = 0;
    proof {
        assert(out.deep_view() =~~= Seq::<URefV>::empty());
    }
    let cc = str_to_chars("::");
    proof {
        reveal_strlit("::");
    }
    while i < lines.len()
        invariant
            i <= lines@.len(),
            lv == lines.deep_view(),
            lv.len() == lines@.len(),
            cc@ == "::"@,
            spec_rust_urefs(path@, lv, 0, Seq::empty()) == spec_rust_urefs(
                path@,
                lv,
                i as int,
                out.deep_view(),
            ),
        decreases lines.len() - i,
    {
        let l = &lines[i];
        assert(l@ == lv[i as int]) by {
            assert(lines.deep_view()[i as int] == lines@[i as int].deep_view());
        }
        let ls = chars_to_string(&subvec(l, 0, l.len()));
        proof {
            assert(lv[i as int].subrange(0, lv[i as int].len() as int) =~= lv[i as int]);
        }
        let ln = line_no_of(i);

        let qcaps = qualified_call_paths(ls.as_str());
        let ghost qv = qcaps.deep_view();
        let ghost q0 = out.deep_view();
        let mut k: usize = 0;
        while k < qcaps.len()
            invariant
                k <= qcaps@.len(),
                qv == qcaps.deep_view(),
                qv.len() == qcaps@.len(),
                ln == spec_line_no(i as int),
                cc@ == "::"@,
                spec_push_qcalls(out.deep_view(), qv, k as int, path@, ln) == spec_push_qcalls(
                    q0,
                    qv,
                    0,
                    path@,
                    ln,
                ),
            decreases qcaps.len() - k,
        {
            let full = &qcaps[k];
            assert(full@ == qv[k as int]) by {
                assert(qcaps.deep_view()[k as int] == qcaps@[k as int].deep_view());
            }
            let fullv = str_to_chars(full.as_str());
            if contains_sub(&fullv, &cc) {
                let pair = crate::impact::rsplit_path(&fullv);
                let ghost o0 = out.deep_view();
                out.push(
                    UnresolvedRef {
                        name: chars_to_string(&pair.1),
                        kind: RefKind::Call,
                        file: chars_to_string(&str_to_chars(path)),
                        line: ln,
                        qualifier: Some(chars_to_string(&pair.0)),
                        is_method: false,
                    },
                );
                proof {
                    assert(out.deep_view() =~~= o0.push(
                        URefV {
                            name: crate::impact::spec_last_seg(qv[k as int]),
                            kind: RefKind::Call,
                            file: path@,
                            line: ln,
                            qualifier: Option::Some(crate::impact::spec_prefix_seg(qv[k as int])),
                            is_method: false,
                        },
                    ));
                }
            }
            k = k + 1;
        }

        let mcaps = method_call_names(ls.as_str());
        let ghost mv = mcaps.deep_view();
        let ghost m0 = out.deep_view();
        let mut k2: usize = 0;
        while k2 < mcaps.len()
            invariant
                k2 <= mcaps@.len(),
                mv == mcaps.deep_view(),
                mv.len() == mcaps@.len(),
                ln == spec_line_no(i as int),
                spec_push_mcalls(out.deep_view(), mv, k2 as int, path@, ln) == spec_push_mcalls(
                    m0,
                    mv,
                    0,
                    path@,
                    ln,
                ),
            decreases mcaps.len() - k2,
        {
            let nm = &mcaps[k2];
            assert(nm@ == mv[k2 as int]) by {
                assert(mcaps.deep_view()[k2 as int] == mcaps@[k2 as int].deep_view());
            }
            let ghost o0 = out.deep_view();
            out.push(
                UnresolvedRef {
                    name: nm.clone(),
                    kind: RefKind::Call,
                    file: chars_to_string(&str_to_chars(path)),
                    line: ln,
                    qualifier: None,
                    is_method: true,
                },
            );
            proof {
                assert(out.deep_view() =~~= o0.push(
                    URefV {
                        name: mv[k2 as int],
                        kind: RefKind::Call,
                        file: path@,
                        line: ln,
                        qualifier: Option::None,
                        is_method: true,
                    },
                ));
            }
            k2 = k2 + 1;
        }

        let scaps = simple_call_names(ls.as_str());
        let ghost sv = scaps.deep_view();
        let ghost s0 = out.deep_view();
        let mut k3: usize = 0;
        while k3 < scaps.len()
            invariant
                k3 <= scaps@.len(),
                sv == scaps.deep_view(),
                sv.len() == scaps@.len(),
                ln == spec_line_no(i as int),
                spec_push_scalls(out.deep_view(), sv, k3 as int, path@, ln) == spec_push_scalls(
                    s0,
                    sv,
                    0,
                    path@,
                    ln,
                ),
            decreases scaps.len() - k3,
        {
            let t = &scaps[k3];
            assert(t@ == sv[k3 as int]) by {
                assert(scaps.deep_view()[k3 as int] == scaps@[k3 as int].deep_view());
            }
            let ghost o0 = out.deep_view();
            if !t.is_macro && !has_qual_dup(&out, t.name.as_str(), ln) {
                out.push(
                    UnresolvedRef {
                        name: t.name.clone(),
                        kind: RefKind::Call,
                        file: chars_to_string(&str_to_chars(path)),
                        line: ln,
                        qualifier: None,
                        is_method: false,
                    },
                );
                proof {
                    assert(out.deep_view() =~~= o0.push(
                        URefV {
                            name: sv[k3 as int].name,
                            kind: RefKind::Call,
                            file: path@,
                            line: ln,
                            qualifier: Option::None,
                            is_method: false,
                        },
                    ));
                }
            }
            k3 = k3 + 1;
        }
        i = i + 1;
    }
    out
}

/// Split an import list on the commas at brace depth zero; tokens are
/// trimmed and empty ones dropped.
pub open spec fn spec_top_commas(
    s: Seq<char>,
    j: int,
    depth: int,
    cur: Seq<char>,
    out: Seq<Seq<char>>,
) -> Seq<Seq<char>>
    decreases s.len() - j,
{
    if j < 0 || j >= s.len() {
        if spec_trim(cur).len() > 0 {
            out.push(spec_trim(cur))
        } else {
            out
        }
    } else {
        let ch = s[j];
        if ch == '{' {
            spec_top_commas(s, j + 1, spec_depth_inc(depth), cur.push(ch), out)
        } else if ch == '}' {
            spec_top_commas(
                s,
                j + 1,
                if depth > 0 {
                    depth - 1
                } else {
                    0
                },
                cur.push(ch),
                out,
            )
        } else if ch == ',' && depth == 0 {
            spec_top_commas(
                s,
                j + 1,
                depth,
                Seq::empty(),
                if spec_trim(cur).len() > 0 {
                    out.push(spec_trim(cur))
                } else {
                    out
                },
            )
        } else {
            spec_top_commas(s, j + 1, depth, cur.push(ch), out)
        }
    }
}

pub open spec fn spec_top_tokens(s: Seq<char>) -> Seq<Seq<char>> {
    spec_top_commas(s, 0, 0, Seq::empty(), Seq::empty())
}

#[verifier::loop_isolation(false)]
fn top_tokens(s: &Vec<char>) -> (r: Vec<Vec<char>>)
    ensures
        r.deep_view() == spec_top_tokens(s@),
{
    let mut out: Vec<Vec<char>> = Vec::new();
    let mut cur: Vec<char> = Vec::new();
    let mut depth: usize = 0;
    let mut j: usize = 0;
    proof {
        assert(out.deep_view() =~~= Seq::<Seq<char>>::empty());
        assert(cur@ =~= Seq::<char>::empty());
    }
    while j < s.len()
        invariant
            j <= s@.len(),
            spec_top_tokens(s@) == spec_top_commas(
                s@,
                j as int,
                depth as int,
                cur@,
                out.deep_view(),
            ),
        decreases s.len() - j,
    {
        let ch = s[j];
        let ghost o0 = out.deep_view();
        let ghost c0 = cur@;
        if ch == '{' {
            cur.push(ch);
            if depth < usize::MAX {
                depth = depth + 1;
            }
        } else if ch == '}' {
            cur.push(ch);
            if depth > 0 {
                depth = depth - 1;
            }
        } else if ch == ',' && depth == 0 {
            let t = trim(&cur);
            if t.len() > 0 {
                out.push(t);
                proof {
                    assert(out.deep_view() =~~= o0.push(spec_trim(c0)));
                }
            }
            cur = Vec::new();
            assert(cur@ =~= Seq::<char>::empty());
        } else {
            cur.push(ch);
        }
        j = j + 1;
    }
    let t = trim(&cur);
    let ghost o0 = out.deep_view();
    if t.len() > 0 {
        out.push(t);
        proof {
            assert(out.deep_view() =~~= o0.push(spec_trim(cur@)));
        }
    }
    out
}

/// The alias a `self` list item binds: the last non-empty segment of
/// the prefix, trimmed.
pub open spec fn spec_self_alias(prefix: Seq<char>) -> Seq<char> {
    let segs = spec_split(prefix, "::"@).filter(|t: Seq<char>| t.len() > 0);
    spec_trim(
        if segs.len() > 0 {
            segs.last()
        } else {
            prefix
        },
    )
}

#[verifier::loop_isolation(false)]
fn self_alias(prefix: &Vec<char>) -> (r: Vec<char>)
    ensures
        r@ == spec_self_alias(prefix@),
{
    let cc = str_to_chars("::");
    proof {
        reveal_strlit("::");
    }
    let segs = split_sub(prefix, &cc);
    let ghost sv = segs.deep_view();
    let mut last_nonempty: Option<usize> = None;
    let mut i: usize = 0;
    proof {
        assert(sv.subrange(0, 0).filter(|t: Seq<char>| t.len() > 0) =~= Seq::<Seq<char>>::empty())
            by {
            reveal(Seq::filter);
        }
    }
    while i < segs.len()
        invariant
            i <= segs@.len(),
            sv == segs.deep_view(),
            sv.len() == segs@.len(),
            match last_nonempty {
                Some(p) => p < i && sv[p as int].len() > 0 && sv.subrange(0, i as int).filter(
                    |t: Seq<char>| t.len() > 0,
                ).len() > 0 && sv.subrange(0, i as int).filter(|t: Seq<char>| t.len() > 0).last()
                    == sv[p as int],
                None => sv.subrange(0, i as int).filter(|t: Seq<char>| t.len() > 0).len() == 0,
            },
        decreases segs.len() - i,
    {
        let sg = &segs[i];
        assert(sg@ == sv[i as int]) by {
            assert(segs.deep_view()[i as int] == segs@[i as int].deep_view());
        }
        proof {
            let pref = sv.subrange(0, i as int);
            let pref2 = sv.subrange(0, i as int + 1);
            assert(pref2.drop_last() =~= pref);
            assert(pref2.last() == sv[i as int]);
            reveal(Seq::filter);
            assert(pref2.filter(|t: Seq<char>| t.len() > 0) == if sv[i as int].len() > 0 {
                pref.filter(|t: Seq<char>| t.len() > 0).push(sv[i as int])
            } else {
                pref.filter(|t: Seq<char>| t.len() > 0)
            });
        }
        if sg.len() > 0 {
            last_nonempty = Some(i);
        }
        i = i + 1;
    }
    proof {
        assert(sv.subrange(0, sv.len() as int) =~= sv);
    }
    match last_nonempty {
        Some(p) => {
            let sg = &segs[p];
            assert(sg@ == sv[p as int]) by {
                assert(segs.deep_view()[p as int] == segs@[p as int].deep_view());
            }
            trim(sg)
        },
        None => trim(prefix),
    }
}

/// Flatten one brace-nested import list into alias entries.
pub open spec fn spec_flatten(
    items: Seq<char>,
    prefix: Seq<char>,
    out: Seq<ImportEntryV>,
    fuel: nat,
) -> Seq<ImportEntryV>
    decreases fuel, 1int, 0int,
{
    spec_flatten_toks(spec_top_tokens(items), 0, prefix, out, fuel)
}

/// One token of an import list: `self` binds the prefix, `*` records
/// a glob, a braced group recurses, anything else binds an alias.
pub open spec fn spec_flatten_toks(
    toks: Seq<Seq<char>>,
    k: int,
    prefix: Seq<char>,
    out: Seq<ImportEntryV>,
    fuel: nat,
) -> Seq<ImportEntryV>
    decreases fuel, 0int, toks.len() - k,
{
    if k < 0 || k >= toks.len() {
        out
    } else {
        let tok = toks[k];
        let out2 = if tok == "self"@ {
            out.push(ImportEntryV { key: spec_self_alias(prefix), value: spec_trim(prefix) })
        } else if tok == "*"@ {
            out.push(ImportEntryV { key: "__glob__"@ + prefix, value: prefix })
        } else {
            match crate::diff::spec_find_char(tok, '{') {
                Option::Some(b) => {
                    let pfx = prefix + "::"@ + crate::strutil::spec_strip_all_suffix(
                        spec_trim(tok.subrange(0, b)),
                        "::"@,
                    );
                    let inner = crate::strutil::spec_strip_all_suffix(
                        tok.subrange(b + 1, tok.len() as int),
                        "}"@,
                    );
                    if fuel == 0 {
                        out
                    } else {
                        spec_flatten(inner, pfx, out, (fuel - 1) as nat)
                    }
                },
                Option::None => {
                    let split = crate::strutil::spec_find_sub(tok, " as "@);
                    let name = match split {
                        Option::Some(p) => spec_trim(tok.subrange(0, p)),
                        Option::None => tok,
                    };
                    let alias = match split {
                        Option::Some(p) => spec_trim(tok.subrange(p + 4, tok.len() as int)),
                        Option::None => tok,
                    };
                    let full = if prefix.len() == 0 {
                        name
                    } else {
                        prefix + "::"@ + name
                    };
                    out.push(ImportEntryV { key: alias, value: spec_trim(full) })
                },
            }
        };
        spec_flatten_toks(toks, k + 1, prefix, out2, fuel)
    }
}

/// Flatten an import list into the map, executably.
#[verifier::loop_isolation(false)]
#[verifier::rlimit(100)]
fn flatten_exec(items: &Vec<char>, prefix: &Vec<char>, m: &mut ImportMap, fuel: usize)
    ensures
        final(m).entries.deep_view() == spec_flatten(
            items@,
            prefix@,
            old(m).entries.deep_view(),
            fuel as nat,
        ),
    decreases fuel, 1int, 0int,
{
    let toks = top_tokens(items);
    let ghost tv = toks.deep_view();
    let lit_self = str_to_chars("self");
    let lit_star = str_to_chars("*");
    let lit_as = str_to_chars(" as ");
    let lit_cc = str_to_chars("::");
    let lit_glob = str_to_chars("__glob__");
    let lit_rbrace = str_to_chars("}");
    proof {
        reveal_strlit("self");
        reveal_strlit("*");
        reveal_strlit(" as ");
        reveal_strlit("::");
        reveal_strlit("__glob__");
        reveal_strlit("}");
    }
    let mut k: usize = 0;
    while k < toks.len()
        invariant
            k <= toks@.len(),
            tv == toks.deep_view(),
            tv.len() == toks@.len(),
            lit_self@ == "self"@,
            lit_star@ == "*"@,
            lit_as@ == " as "@,
            lit_cc@ == "::"@,
            lit_glob@ == "__glob__"@,
            lit_rbrace@ == "}"@,
            spec_flatten(items@, prefix@, old(m).entries.deep_view(), fuel as nat)
                == spec_flatten_toks(tv, k as int, prefix@, m.entries.deep_view(), fuel as nat),
        decreases fuel, 0int, toks.len() - k,
    {
        let tok = &toks[k];
        assert(tok@ == tv[k as int]) by {
            assert(toks.deep_view()[k as int] == toks@[k as int].deep_view());
        }
        if eq_chars(tok, &lit_self) {
            let a = self_alias(prefix);
            let v = trim(prefix);
            m.insert(chars_to_string(&a), chars_to_string(&v));
        } else if eq_chars(tok, &lit_star) {
            let mut key = subvec(&lit_glob, 0, lit_glob.len());
            crate::ir::append_chars(&mut key, prefix);
            proof {
                assert(lit_glob@.subrange(0, lit_glob@.len() as int) =~= lit_glob@);
                assert(key@ =~= "__glob__"@ + prefix@);
            }
            m.insert(chars_to_string(&key), chars_to_string(&subvec(prefix, 0, prefix.len())));
            proof {
                assert(prefix@.subrange(0, prefix@.len() as int) =~= prefix@);
            }
        } else {
            match crate::diff::find_char(tok, '{') {
                Some(b) => {
                    proof {
                        crate::diff::lemma_find_char(tv[k as int], '{');
                    }
                    let head = trim(&subvec(tok, 0, b));
                    let stripped = crate::strutil::strip_all_suffix(&head, &lit_cc);
                    let mut pfx = subvec(prefix, 0, prefix.len());
                    crate::ir::append_chars(&mut pfx, &lit_cc);
                    crate::ir::append_chars(&mut pfx, &stripped);
                    proof {
                        assert(prefix@.subrange(0, prefix@.len() as int) =~= prefix@);
                        assert(pfx@ =~= prefix@ + "::"@ + crate::strutil::spec_strip_all_suffix(
                            spec_trim(tv[k as int].subrange(0, b as int)),
                            "::"@,
                        ));
                    }
                    let tn = tok.len();
                    assert(b < tn);
                    let tail = subvec(tok, b + 1, tn);
                    let inner = crate::strutil::strip_all_suffix(&tail, &lit_rbrace);
                    if fuel > 0 {
                        flatten_exec(&inner, &pfx, m, fuel - 1);
                    }
                },
                None => {
                    match crate::strutil::find_sub(tok, &lit_as) {
                        Some(p) => {
                            proof {
                                crate::strutil::lemma_find_sub(tv[k as int], " as "@);
                                assert(crate::strutil::occurs_at(tv[k as int], " as "@, p as int));
                            }
                            let name = trim(&subvec(tok, 0, p));
                            let alias = trim(&subvec(tok, p + 4, tok.len()));
                            let full: Vec<char> = if prefix.len() == 0 {
                                name
                            } else {
                                let mut f = subvec(prefix, 0, prefix.len());
                                crate::ir::append_chars(&mut f, &lit_cc);
                                crate::ir::append_chars(&mut f, &name);
                                proof {
                                    assert(prefix@.subrange(0, prefix@.len() as int) =~= prefix@);
                                    assert(f@ =~= prefix@ + "::"@ + spec_trim(
                                        tv[k as int].subrange(0, p as int),
                                    ));
                                }
                                f
                            };
                            let fullt = trim(&full);
                            m.insert(chars_to_string(&alias), chars_to_string(&fullt));
                        },
                        None => {
                            let full: Vec<char> = if prefix.len() == 0 {
                                subvec(tok, 0, tok.len())
                            } else {
                                let mut f = subvec(prefix, 0, prefix.len());
                                crate::ir::append_chars(&mut f, &lit_cc);
                                crate::ir::append_chars(&mut f, tok);
                                proof {
                                    assert(prefix@.subrange(0, prefix@.len() as int) =~= prefix@);
                                    assert(f@ =~= prefix@ + "::"@ + tv[k as int]);
                                }
                                f
                            };
                            proof {
                                assert(tv[k as int].subrange(0, tv[k as int].len() as int)
                                    =~= tv[k as int]);
                            }
                            let fullt = trim(&full);
                            m.insert(
                                chars_to_string(&subvec(tok, 0, tok.len())),
                                chars_to_string(&fullt),
                            );
                        },
                    }
                },
            }
        }
        k = k + 1;
    }
}

/// Process one line's `use` declaration into the entry list.
pub open spec fn spec_use_line(l: Seq<char>, out: Seq<ImportEntryV>) -> Seq<ImportEntryV> {
    let t = spec_trim(l);
    if !(is_prefix("use "@, t) || is_prefix("pub use "@, t)) {
        out
    } else if !crate::strutil::is_suffix(";"@, t) {
        out
    } else {
        let body0 = if is_prefix("pub use "@, t) {
            t.subrange(8, t.len() as int)
        } else {
            t.subrange(4, t.len() as int)
        };
        let body = body0.subrange(0, body0.len() - 1);
        match crate::diff::spec_find_char(body, '{') {
            Option::Some(bp) => {
                let prefix = spec_trim(
                    crate::strutil::spec_strip_all_suffix(body.subrange(0, bp), "::"@),
                );
                let rb = match spec_rfind_sub(body, "}"@) {
                    Option::Some(r) => r,
                    Option::None => body.len() as int,
                };
                let rest = if rb >= bp + 1 {
                    body.subrange(bp + 1, rb)
                } else {
                    Seq::empty()
                };
                spec_flatten(rest, prefix, out, rest.len())
            },
            Option::None => {
                let split = crate::strutil::spec_find_sub(body, " as "@);
                let path_spec = match split {
                    Option::Some(p) => spec_trim(body.subrange(0, p)),
                    Option::None => body,
                };
                let alias = match split {
                    Option::Some(p) => spec_trim(body.subrange(p + 4, body.len() as int)),
                    Option::None => spec_split(body, "::"@).last(),
                };
                if crate::strutil::is_suffix("::*"@, path_spec) {
                    let pfx = crate::strutil::spec_strip_all_suffix(path_spec, "::*"@);
                    out.push(ImportEntryV { key: "__glob__"@ + pfx, value: pfx })
                } else {
                    out.push(ImportEntryV { key: alias, value: spec_trim(path_spec) })
                }
            },
        }
    }
}

/// Process one line's `mod` declaration into the entry list.
pub open spec fn spec_mod_line(l: Seq<char>, current_mod: Seq<char>, out: Seq<ImportEntryV>) -> Seq<
    ImportEntryV,
> {
    let t = spec_trim(l);
    if is_prefix("mod "@, t) {
        let name = spec_trim(
            crate::strutil::spec_strip_all_suffix(spec_trim(t.subrange(4, t.len() as int)), ";"@),
        );
        if name.len() > 0 {
            out.push(
                ImportEntryV {
                    key: name,
                    value: if current_mod.len() == 0 {
                        name
                    } else {
                        current_mod + "::"@ + name
                    },
                },
            )
        } else {
            out
        }
    } else {
        out
    }
}

/// Fold the `use` lines, then the `mod` lines.
pub open spec fn spec_use_lines(lines: Seq<Seq<char>>, i: int, out: Seq<ImportEntryV>) -> Seq<
    ImportEntryV,
>
    decreases lines.len() - i,
{
    if i < 0 || i >= lines.len() {
        out
    } else {
        spec_use_lines(lines, i + 1, spec_use_line(lines[i], out))
    }
}

pub open spec fn spec_mod_lines(
    lines: Seq<Seq<char>>,
    i: int,
    current_mod: Seq<char>,
    out: Seq<ImportEntryV>,
) -> Seq<ImportEntryV>
    decreases lines.len() - i,
{
    if i < 0 || i >= lines.len() {
        out
    } else {
        spec_mod_lines(lines, i + 1, current_mod, spec_mod_line(lines[i], current_mod, out))
    }
}

/// The import map of a Rust source: aliased and glob `use` entries,
/// plus an entry per `mod` declaration mapping the child module to its
/// path under this file's module.
pub open spec fn spec_rust_imports(path: Seq<char>, lines: Seq<Seq<char>>) -> Seq<ImportEntryV> {
    spec_mod_lines(
        lines,
        0,
        crate::impact::spec_module_path_for_file(path),
        spec_use_lines(lines, 0, Seq::empty()),
    )
}

/// Extract the import map of a Rust source.
#[verifier::loop_isolation(false)]
#[verifier::rlimit(100)]
pub fn rust_imports_in_file(path: &str, source: &str) -> (r: ImportMap)
    ensures
        r.entries.deep_view() == spec_rust_imports(path@, crate::diff::spec_lines(source@)),
{
    let chars = str_to_chars(source);
    let lines = crate::diff::split_lines(&chars);
    let ghost lv = lines.deep_view();
    let mut m = ImportMap::new();
    proof {
        assert(m.entries.deep_view() =~~= Seq::<ImportEntryV>::empty());
    }
    let lit_use = str_to_chars("use ");
    let lit_pubuse = str_to_chars("pub use ");
    let lit_semi = str_to_chars(";");
    let lit_cc = str_to_chars("::");
    let lit_rbrace = str_to_chars("}");
    let lit_as = str_to_chars(" as ");
    let lit_star = str_to_chars("::*");
    let lit_glob = str_to_chars("__glob__");
    let lit_mod = str_to_chars("mod ");
    proof {
        reveal_strlit("use ");
        reveal_strlit("pub use ");
        reveal_strlit(";");
        reveal_strlit("::");
        reveal_strlit("}");
        reveal_strlit(" as ");
        reveal_strlit("::*");
        reveal_strlit("__glob__");
        reveal_strlit("mod ");
    }
    let mut i: usize = 0;
    while i < lines.len()
        invariant
            i <= lines@.len(),
            lv == lines.deep_view(),
            lv.len() == lines@.len(),
            lit_use@ == "use "@,
            lit_pubuse@ == "pub use "@,
            lit_semi@ == ";"@,
            lit_cc@ == "::"@,
            lit_rbrace@ == "}"@,
            lit_as@ == " as "@,
            lit_star@ == "::*"@,
            lit_glob@ == "__glob__"@,
            spec_use_lines(lv, 0, Seq::empty()) == spec_use_lines(
                lv,
                i as int,
                m.entries.deep_view(),
            ),
        decreases lines.len() - i,
    {
        let l = &lines[i];
        assert(l@ == lv[i as int]) by {
            assert(lines.deep_view()[i as int] == lines@[i as int].deep_view());
        }
        let t = trim(l);
        if (starts_with(&t, &lit_use) || starts_with(&t, &lit_pubuse)) && ends_with(
            &t,
            &lit_semi,
        ) {
            let body0: Vec<char> = if starts_with(&t, &lit_pubuse) {
                subvec(&t, 8, t.len())
            } else {
                subvec(&t, 4, t.len())
            };
            proof {
                assert(t@[t@.len() - 1] == ';') by {
                    assert(t@.subrange(t@.len() - 1, t@.len() as int)[0] == ';');
                }
                if body0@.len() == 0 {
                    if crate::strutil::is_prefix("pub use "@, t@) {
                        assert(t@.subrange(0, 8)[7] == ' ');
                        assert(t@[7] == ' ');
                    } else {
                        assert(t@.subrange(0, 4)[3] == ' ');
                        assert(t@[3] == ' ');
                    }
                }
            }
            let body = subvec(&body0, 0, body0.len() - 1);
            match crate::diff::find_char(&body, '{') {
                Some(bp) => {
                    proof {
                        crate::diff::lemma_find_char(body@, '{');
                    }
                    let head = subvec(&body, 0, bp);
                    let stripped = crate::strutil::strip_all_suffix(&head, &lit_cc);
                    let prefix = trim(&stripped);
                    let rb: usize = match crate::strutil::rfind_sub(&body, &lit_rbrace) {
                        Some(r) => {
                            proof {
                                crate::strutil::lemma_rfind_sub(body@, "}"@);
                                assert(crate::strutil::occurs_at(body@, "}"@, r as int));
                            }
                            r
                        },
                        None => body.len(),
                    };
                    let bn = body.len();
                    assert(bp < bn);
                    let rest: Vec<char> = if rb >= bp + 1 {
                        subvec(&body, bp + 1, rb)
                    } else {
                        Vec::new()
                    };
                    proof {
                        if !(rb >= bp + 1) {
                            assert(rest@ =~= Seq::<char>::empty());
                        }
                    }
                    flatten_exec(&rest, &prefix, &mut m, rest.len());
                },
                None => {
                    match crate::strutil::find_sub(&body, &lit_as) {
                        Some(p) => {
                            proof {
                                crate::strutil::lemma_find_sub(body@, " as "@);
                                assert(crate::strutil::occurs_at(body@, " as "@, p as int));
                            }
                            let path_spec = trim(&subvec(&body, 0, p));
                            let alias = trim(&subvec(&body, p + 4, body.len()));
                            if ends_with(&path_spec, &lit_star) {
                                let pfx = crate::strutil::strip_all_suffix(&path_spec, &lit_star);
                                let mut key = subvec(&lit_glob, 0, lit_glob.len());
                                crate::ir::append_chars(&mut key, &pfx);
                                proof {
                                    assert(lit_glob@.subrange(0, lit_glob@.len() as int)
                                        =~= lit_glob@);
                                    assert(key@ =~= "__glob__"@
                                        + crate::strutil::spec_strip_all_suffix(
                                        spec_trim(body@.subrange(0, p as int)),
                                        "::*"@,
                                    ));
                                }
                                m.insert(chars_to_string(&key), chars_to_string(&pfx));
                            } else {
                                let v = trim(&path_spec);
                                m.insert(chars_to_string(&alias), chars_to_string(&v));
                            }
                        },
                        None => {
                            let cseg = split_sub(&body, &lit_cc);
                            proof {
                                crate::strutil::lemma_split_nonempty(body@, "::"@);
                                assert(cseg.deep_view().last() == cseg@[cseg@.len() - 1]@);
                            }
                            let alias = &cseg[cseg.len() - 1];
                            if ends_with(&body, &lit_star) {
                                let pfx = crate::strutil::strip_all_suffix(&body, &lit_star);
                                let mut key = subvec(&lit_glob, 0, lit_glob.len());
                                crate::ir::append_chars(&mut key, &pfx);
                                proof {
                                    assert(lit_glob@.subrange(0, lit_glob@.len() as int)
                                        =~= lit_glob@);
                                    assert(key@ =~= "__glob__"@
                                        + crate::strutil::spec_strip_all_suffix(body@, "::*"@));
                                }
                                m.insert(chars_to_string(&key), chars_to_string(&pfx));
                            } else {
                                let v = trim(&body);
                                m.insert(
                                    chars_to_string(&subvec(alias, 0, alias.len())),
                                    chars_to_string(&v),
                                );
                                proof {
                                    assert(cseg@[cseg@.len() - 1]@.subrange(
                                        0,
                                        cseg@[cseg@.len() - 1]@.len() as int,
                                    ) =~= cseg@[cseg@.len() - 1]@);
                                }
                            }
                        },
                    }
                },
            }
        }
        i = i + 1;
    }
    let current_mod = crate::impact::module_path_for_file(path);
    let cmv = str_to_chars(current_mod.as_str());
    let mut i2: usize = 0;
    while i2 < lines.len()
        invariant
            i2 <= lines@.len(),
            lv == lines.deep_view(),
            lv.len() == lines@.len(),
            lit_mod@ == "mod "@,
            lit_semi@ == ";"@,
            lit_cc@ == "::"@,
            cmv@ == crate::impact::spec_module_path_for_file(path@),
            spec_rust_imports(path@, lv) == spec_mod_lines(
                lv,
                i2 as int,
                cmv@,
                m.entries.deep_view(),
            ),
        decreases lines.len() - i2,
    {
        let l = &lines[i2];
        assert(l@ == lv[i2 as int]) by {
            assert(lines.deep_view()[i2 as int] == lines@[i2 as int].deep_view());
        }
        let t = trim(l);
        if starts_with(&t, &lit_mod) {
            let rest = trim(&subvec(&t, 4, t.len()));
            let stripped = crate::strutil::strip_all_suffix(&rest, &lit_semi);
            let name = trim(&stripped);
            if name.len() > 0 {
                let val: Vec<char> = if cmv.len() == 0 {
                    subvec(&name, 0, name.len())
                } else {
                    let mut f = subvec(&cmv, 0, cmv.len());
                    crate::ir::append_chars(&mut f, &lit_cc);
                    crate::ir::append_chars(&mut f, &name);
                    proof {
                        assert(cmv@.subrange(0, cmv@.len() as int) =~= cmv@);
                        assert(f@ =~= cmv@ + "::"@ + name@);
                    }
                    f
                };
                proof {
                    assert(name@.subrange(0, name@.len() as int) =~= name@);
                }
                m.insert(
                    chars_to_string(&subvec(&name, 0, name.len())),
                    chars_to_string(&val),
                );
            }
        }
        i2 = i2 + 1;
    }
    m
}

/// The 1-based line number of a 0-based index, executably.
pub fn pub_line_no(i: usize) -> (r: u32)
    requires
        i < usize::MAX,
    ensures
        r == spec_line_no(i as int),
{
    line_no_of(i)
}

/// Whether a line opens a function declaration.
pub fn is_fn_decl(line: &str) -> (r: bool)
    ensures
        r == (fn_decl_capture(line@) is Some),
{
    fn_decl_name(line).is_some()
}

/// Whether a line holds an opening brace.
pub fn pub_contains_brace(l: &Vec<char>) -> (r: bool)
    ensures
        r == contains_char(l@, '{'),
{
    contains_char_exec(l, '{')
}

/// Line-scanning analyzer for Rust sources: the crate's reference
/// implementation of the analyzer capability.
pub struct RustAnalyzer;

impl RustAnalyzer {
    pub fn new() -> (r: RustAnalyzer) {
        RustAnalyzer
    }
}

impl crate::languages::LanguageAnalyzer for RustAnalyzer {
    fn language(&self) -> &'static str {
        "rust"
    }

    fn symbols_in_file(&self, path: &str, source: &str) -> Vec<Symbol> {
        rust_symbols_in_file(path, source)
    }

    fn unresolved_refs(&self, path: &str, source: &str) -> Vec<UnresolvedRef> {
        rust_unresolved_refs(path, source)
    }

    fn imports_in_file(&self, path: &str, source: &str) -> ImportMap {
        rust_imports_in_file(path, source)
    }
}

} // verus!
