//! The change mapper: from per-file diff records to the seed set of
//! changed symbols, by intersecting changed line sets with symbol
//! ranges. File contents are handed in as plain values, so the mapper
//! is a pure function of the diff and the sources.

use vstd::prelude::*;
use crate::diff::{FileChanges, FileChangesV};
use crate::ir::{Symbol, SymbolV};
use crate::languages::{spec_target_ext, LanguageKind};
use crate::strutil::str_eq;

verus! {

#[derive(Debug, Clone, Copy, PartialEq, Eq, Structural)]
pub enum LanguageMode {
    Auto,
    Rust,
    Ruby,
    Javascript,
    Typescript,
    Tsx,
}

/// The language kind a mode selects.
pub open spec fn spec_mode_kind(m: LanguageMode) -> LanguageKind {
    match m {
        LanguageMode::Auto => LanguageKind::Auto,
        LanguageMode::Rust => LanguageKind::Rust,
        LanguageMode::Ruby => LanguageKind::Ruby,
        LanguageMode::Javascript => LanguageKind::Javascript,
        LanguageMode::Typescript => LanguageKind::Typescript,
        LanguageMode::Tsx => LanguageKind::Tsx,
    }
}

fn mode_kind(m: LanguageMode) -> (r: LanguageKind)
    ensures
        r == spec_mode_kind(m),
{
    match m {
        LanguageMode::Auto => LanguageKind::Auto,
        LanguageMode::Rust => LanguageKind::Rust,
        LanguageMode::Ruby => LanguageKind::Ruby,
        LanguageMode::Javascript => LanguageKind::Javascript,
        LanguageMode::Typescript => LanguageKind::Typescript,
        LanguageMode::Tsx => LanguageKind::Tsx,
    }
}

/// A file's text, supplied by the caller.
#[derive(Debug, Clone, PartialEq, Eq)]
pub struct SourceFile {
    pub path: String,
    pub text: String,
}

/// Mathematical value of a `SourceFile`.
pub struct SourceFileV {
    pub path: Seq<char>,
    pub text: Seq<char>,
}

impl View for SourceFile {
    type V = SourceFileV;

    open spec fn view(&self) -> SourceFileV {
        SourceFileV { path: self.path@, text: self.text@ }
    }
}

impl DeepView for SourceFile {
    type V = SourceFileV;

    open spec fn deep_view(&self) -> SourceFileV {
        self@
    }
}

#[derive(Debug, Clone, PartialEq, Eq)]
pub struct ChangedOutput {
    pub changed_files: Vec<String>,
    pub changed_symbols: Vec<Symbol>,
}

/// The touched files of a diff: each record's new path, or its old
/// path for a pure deletion, in order and not deduplicated.
pub open spec fn spec_changed_files(diffs: Seq<FileChangesV>, i: int, acc: Seq<Seq<char>>) -> Seq<
    Seq<char>,
>
    decreases diffs.len() - i,
{
    if i < 0 || i >= diffs.len() {
        acc
    } else {
        let acc2 = match diffs[i].new_path {
            Option::Some(p) => acc.push(p),
            Option::None => match diffs[i].old_path {
                Option::Some(p) => acc.push(p),
                Option::None => acc,
            },
        };
        spec_changed_files(diffs, i + 1, acc2)
    }
}

/// The changed line set of a path: every added, removed or context
/// line of a record whose new path is that path, at its new line when
/// present, else its old line.
pub open spec fn spec_changed_lines(diffs: Seq<FileChangesV>, path: Seq<char>) -> Set<u32> {
    Set::new(
        |ln: u32|
            exists|d: int, c: int|
                0 <= d < diffs.len() && 0 <= c < (#[trigger] diffs[d]).changes.len()
                    && diffs[d].new_path == Option::Some(path) && {
                    let ch = #[trigger] diffs[d].changes[c];
                    match ch.new_line {
                        Option::Some(nl) => nl == ln,
                        Option::None => ch.old_line == Option::Some(ln),
                    }
                },
    )
}

/// A range intersects the changed line set.
pub open spec fn spec_intersects(start: u32, end: u32, lines: Set<u32>) -> bool {
    exists|ln: u32| start <= ln <= end && lines.contains(ln)
}

/// The distinct touched new paths, in order of first appearance.
pub open spec fn spec_distinct_new_paths(
    diffs: Seq<FileChangesV>,
    i: int,
    acc: Seq<Seq<char>>,
) -> Seq<Seq<char>>
    decreases diffs.len() - i,
{
    if i < 0 || i >= diffs.len() {
        acc
    } else {
        let acc2 = match diffs[i].new_path {
            Option::Some(p) => if acc.contains(p) {
                acc
            } else {
                acc.push(p)
            },
            Option::None => acc,
        };
        spec_distinct_new_paths(diffs, i + 1, acc2)
    }
}

/// The text recorded for a path, the last record winning.
pub open spec fn spec_source_of(sources: Seq<SourceFileV>, path: Seq<char>) -> Option<Seq<char>>
    decreases sources.len(),
{
    if sources.len() == 0 {
        Option::None
    } else if sources.last().path == path {
        Option::Some(sources.last().text)
    } else {
        spec_source_of(sources.drop_last(), path)
    }
}

/// The symbols of one analyzed file whose range intersects the lines.
pub open spec fn spec_hit_syms(
    syms: Seq<SymbolV>,
    k: int,
    lines: Set<u32>,
    acc: Seq<SymbolV>,
) -> Seq<SymbolV>
    decreases syms.len() - k,
{
    if k < 0 || k >= syms.len() {
        acc
    } else {
        let s = syms[k];
        let acc2 = if spec_intersects(s.range.start_line, s.range.end_line, lines) {
            acc.push(s)
        } else {
            acc
        };
        spec_hit_syms(syms, k + 1, lines, acc2)
    }
}

/// The changed symbols over the touched paths: for each path that the
/// Rust analyzer covers and whose text is supplied, the symbols whose
/// range intersects the path's changed line set.
pub open spec fn spec_changed_syms(
    diffs: Seq<FileChangesV>,
    sources: Seq<SourceFileV>,
    lang: LanguageMode,
    paths: Seq<Seq<char>>,
    k: int,
    acc: Seq<SymbolV>,
) -> Seq<SymbolV>
    decreases paths.len() - k,
{
    if k < 0 || k >= paths.len() {
        acc
    } else {
        let p = paths[k];
        let acc2 = if spec_target_ext(p, spec_mode_kind(lang)) == "rs"@ {
            match spec_source_of(sources, p) {
                Option::Some(text) => {
                    let syms = crate::languages::rust::spec_rust_symbols(
                        p,
                        crate::diff::spec_lines(text),
                        0,
                        Seq::empty(),
                    );
                    spec_hit_syms(syms, 0, spec_changed_lines(diffs, p), acc)
                },
                Option::None => acc,
            }
        } else {
            acc
        };
        spec_changed_syms(diffs, sources, lang, paths, k + 1, acc2)
    }
}

#[verifier::loop_isolation(false)]
fn source_of(sources: &Vec<SourceFile>, path: &str) -> (r: Option<String>)
    ensures
        crate::strutil::opt_str_view(r) == spec_source_of(sources.deep_view(), path@),
{
    let ghost sv = sources.deep_view();
    let n = sources.len();
    let mut i: usize = n;
    proof {
        assert(sv.subrange(0, n as int) =~= sv);
    }
    while i > 0
        invariant
            i <= n,
            n == sources@.len(),
            sv == sources.deep_view(),
            sv.len() == sources@.len(),
            spec_source_of(sv, path@) == spec_source_of(sv.subrange(0, i as int), path@),
        decreases i,
    {
        proof {
            assert(sv.subrange(0, i as int).last() == sv[i as int - 1]);
            assert(sv.subrange(0, i as int).drop_last() =~= sv.subrange(0, i as int - 1));
            assert(sources.deep_view()[i as int - 1] == sources@[i as int - 1].deep_view());
        }
        let sf = &sources[i - 1];
        if str_eq(sf.path.as_str(), path) {
            return Some(sf.text.clone());
        }
        i = i - 1;
    }
    proof {
        assert(sv.subrange(0, 0) =~= Seq::<SourceFileV>::empty());
    }
    None
}

/// Collect the changed line numbers of one path as a vector whose
/// contents are exactly the spec set.
#[verifier::loop_isolation(false)]
#[verifier::rlimit(100)]
fn changed_lines_for(diffs: &Vec<FileChanges>, path: &str) -> (r: Vec<u32>)
    ensures
        forall|q: int|
            0 <= q < r@.len() ==> spec_changed_lines(diffs.deep_view(), path@).contains(
                #[trigger] r@[q],
            ),
        forall|ln: u32|
            spec_changed_lines(diffs.deep_view(), path@).contains(ln) ==> r@.contains(ln),
{
    let ghost dv = diffs.deep_view();
    let mut out: Vec<u32> = Vec::new();
    let mut d: usize = 0;
    while d < diffs.len()
        invariant
            d <= diffs@.len(),
            dv == diffs.deep_view(),
            dv.len() == diffs@.len(),
            forall|q: int|
                0 <= q < out@.len() ==> spec_changed_lines(dv, path@).contains(#[trigger] out@[q]),
            forall|d2: int, c2: int|
                0 <= d2 < d && 0 <= c2 < (#[trigger] dv[d2]).changes.len() && dv[d2].new_path
                    == Option::Some(path@) ==> {
                    let ch = #[trigger] dv[d2].changes[c2];
                    match ch.new_line {
                        Option::Some(nl) => out@.contains(nl),
                        Option::None => match ch.old_line {
                            Option::Some(ol) => out@.contains(ol),
                            Option::None => true,
                        },
                    }
                },
        decreases diffs.len() - d,
    {
        let fc = &diffs[d];
        assert(fc@ == dv[d as int]) by {
            assert(diffs.deep_view()[d as int] == diffs@[d as int].deep_view());
        }
        let matches_path = match &fc.new_path {
            Some(np) => str_eq(np.as_str(), path),
            None => false,
        };
        if matches_path {
            let mut c: usize = 0;
            while c < fc.changes.len()
                invariant
                    c <= fc.changes@.len(),
                    fc@ == dv[d as int],
                    dv[d as int].new_path == Option::Some(path@),
                    dv[d as int].changes.len() == fc.changes@.len(),
                    forall|q: int|
                        0 <= q < out@.len() ==> spec_changed_lines(dv, path@).contains(
                            #[trigger] out@[q],
                        ),
                    forall|d2: int, c2: int|
                        0 <= d2 < d && 0 <= c2 < (#[trigger] dv[d2]).changes.len() && dv[d2].new_path
                            == Option::Some(path@) ==> {
                            let ch = #[trigger] dv[d2].changes[c2];
                            match ch.new_line {
                                Option::Some(nl) => out@.contains(nl),
                                Option::None => match ch.old_line {
                                    Option::Some(ol) => out@.contains(ol),
                                    Option::None => true,
                                },
                            }
                        },
                    forall|c2: int|
                        0 <= c2 < c ==> {
                            let ch = #[trigger] dv[d as int].changes[c2];
                            match ch.new_line {
                                Option::Some(nl) => out@.contains(nl),
                                Option::None => match ch.old_line {
                                    Option::Some(ol) => out@.contains(ol),
                                    Option::None => true,
                                },
                            }
                        },
                decreases fc.changes.len() - c,
            {
                let ch = &fc.changes[c];
                assert(ch@ == dv[d as int].changes[c as int]) by {
                    assert(fc.changes.deep_view()[c as int] == fc.changes@[c as int].deep_view());
                }
                let ghost o0 = out@;
                match ch.new_line {
                    Some(nl) => {
                        out.push(nl);
                        proof {
                            assert(spec_changed_lines(dv, path@).contains(nl));
                            assert(out@[out@.len() - 1] == nl);
                            assert(out@.contains(nl));
                        }
                    },
                    None => {
                        match ch.old_line {
                            Some(ol) => {
                                out.push(ol);
                                proof {
                                    assert(spec_changed_lines(dv, path@).contains(ol));
                                    assert(out@[out@.len() - 1] == ol);
                                    assert(out@.contains(ol));
                                }
                            },
                            None => {},
                        }
                    },
                }
                proof {
                    assert forall|x: u32| o0.contains(x) implies out@.contains(x) by {
                        let q = choose|q: int| 0 <= q < o0.len() && #[trigger] o0[q] == x;
                        assert(out@[q] == x);
                    }
                }
                c = c + 1;
            }
        }
        d = d + 1;
    }
    proof {
        assert forall|ln: u32|
            spec_changed_lines(dv, path@).contains(ln) implies out@.contains(ln) by {
            let (d2, c2) = choose|d2: int, c2: int|
                0 <= d2 < dv.len() && 0 <= c2 < (#[trigger] dv[d2]).changes.len() && dv[d2].new_path
                    == Option::Some(path@) && {
                    let ch = #[trigger] dv[d2].changes[c2];
                    match ch.new_line {
                        Option::Some(nl) => nl == ln,
                        Option::None => ch.old_line == Option::Some(ln),
                    }
                };
            assert(0 <= d2 < dv.len());
        }
    }
    out
}

/// Whether a range intersects the collected line vector.
#[verifier::loop_isolation(false)]
fn intersects(start: u32, end: u32, lines: &Vec<u32>) -> (r: bool)
    ensures
        r == exists|q: int| 0 <= q < lines@.len() && start <= #[trigger] lines@[q] <= end,
{
    let mut i: usize = 0;
    while i < lines.len()
        invariant
            i <= lines@.len(),
            forall|q: int| 0 <= q < i ==> !(start <= #[trigger] lines@[q] <= end),
        decreases lines.len() - i,
    {
        let ln = lines[i];
        if start <= ln && ln <= end {
            return true;
        }
        i = i + 1;
    }
    false
}

/// Map a diff to its touched files and changed symbols.
///
/// `changed_files` preserves order and is not deduplicated. A symbol
/// of an analyzed file is reported exactly when its range intersects
/// the file's changed line set.
#[verifier::loop_isolation(false)]
#[verifier::rlimit(100)]
pub fn compute_changed_symbols(
    diffs: &Vec<FileChanges>,
    sources: &Vec<SourceFile>,
    lang: LanguageMode,
) -> (o: ChangedOutput)
    ensures
        o.changed_files.deep_view() == spec_changed_files(diffs.deep_view(), 0, Seq::empty()),
        o.changed_symbols.deep_view() == spec_changed_syms(
            diffs.deep_view(),
            sources.deep_view(),
            lang,
            spec_distinct_new_paths(diffs.deep_view(), 0, Seq::empty()),
            0,
            Seq::empty(),
        ),
{
    let ghost dv = diffs.deep_view();
    let ghost sv = sources.deep_view();

    let mut changed_files: Vec<String> = Vec::new();
    let mut i: usize = 0;
    proof {
        assert(changed_files.deep_view() =~~= Seq::<Seq<char>>::empty());
    }
    while i < diffs.len()
        invariant
            i <= diffs@.len(),
            dv == diffs.deep_view(),
            dv.len() == diffs@.len(),
            spec_changed_files(dv, 0, Seq::empty()) == spec_changed_files(
                dv,
                i as int,
                changed_files.deep_view(),
            ),
        decreases diffs.len() - i,
    {
        let fc = &diffs[i];
        assert(fc@ == dv[i as int]) by {
            assert(diffs.deep_view()[i as int] == diffs@[i as int].deep_view());
        }
        let ghost f0 = changed_files.deep_view();
        match &fc.new_path {
            Some(p) => {
                changed_files.push(p.clone());
                proof {
                    assert(changed_files.deep_view() =~~= f0.push(
                        dv[i as int].new_path->Some_0,
                    ));
                }
            },
            None => {
                match &fc.old_path {
                    Some(p) => {
                        changed_files.push(p.clone());
                        proof {
                            assert(changed_files.deep_view() =~~= f0.push(
                                dv[i as int].old_path->Some_0,
                            ));
                        }
                    },
                    None => {},
                }
            },
        }
        i = i + 1;
    }

    // distinct new paths in first-appearance order
    let mut paths: Vec<String> = Vec::new();
    let mut j: usize = 0;
    proof {
        assert(paths.deep_view() =~~= Seq::<Seq<char>>::empty());
    }
    while j < diffs.len()
        invariant
            j <= diffs@.len(),
            dv == diffs.deep_view(),
            dv.len() == diffs@.len(),
            spec_distinct_new_paths(dv, 0, Seq::empty()) == spec_distinct_new_paths(
                dv,
                j as int,
                paths.deep_view(),
            ),
        decreases diffs.len() - j,
    {
        let fc = &diffs[j];
        assert(fc@ == dv[j as int]) by {
            assert(diffs.deep_view()[j as int] == diffs@[j as int].deep_view());
        }
        let ghost p0 = paths.deep_view();
        match &fc.new_path {
            Some(p) => {
                let mut present = false;
                let mut q: usize = 0;
                while q < paths.len()
                    invariant
                        q <= paths@.len(),
                        p0 == paths.deep_view(),
                        p0.len() == paths@.len(),
                        present ==> p0.contains(dv[j as int].new_path->Some_0),
                        !present ==> forall|w: int|
                            0 <= w < q ==> p0[w] != dv[j as int].new_path->Some_0,
                    decreases paths.len() - q,
                {
                    assert(paths@[q as int]@ == p0[q as int]) by {
                        assert(paths.deep_view()[q as int] == paths@[q as int].deep_view());
                    }
                    if str_eq(paths[q].as_str(), p.as_str()) {
                        present = true;
                    }
                    q = q + 1;
                }
                if !present {
                    assert(!p0.contains(dv[j as int].new_path->Some_0));
                    paths.push(p.clone());
                    proof {
                        assert(paths.deep_view() =~~= p0.push(dv[j as int].new_path->Some_0));
                    }
                }
            },
            None => {},
        }
        j = j + 1;
    }
    let ghost pathsv = paths.deep_view();

    // changed symbols per analyzed path
    let mut out_syms: Vec<Symbol> = Vec::new();
    let mut k: usize = 0;
    proof {
        assert(out_syms.deep_view() =~~= Seq::<SymbolV>::empty());
    }
    while k < paths.len()
        invariant
            k <= paths@.len(),
            pathsv == paths.deep_view(),
            pathsv.len() == paths@.len(),
            dv == diffs.deep_view(),
            sv == sources.deep_view(),
            spec_changed_syms(dv, sv, lang, pathsv, 0, Seq::empty()) == spec_changed_syms(
                dv,
                sv,
                lang,
                pathsv,
                k as int,
                out_syms.deep_view(),
            ),
        decreases paths.len() - k,
    {
        let p = &paths[k];
        assert(p@ == pathsv[k as int]) by {
            assert(paths.deep_view()[k as int] == paths@[k as int].deep_view());
        }
        match crate::languages::analyzer_for_path(p.as_str(), mode_kind(lang)) {
            Some(_ana) => {
                match source_of(sources, p.as_str()) {
                    Some(text) => {
                        let syms = crate::languages::rust::rust_symbols_in_file(
                            p.as_str(),
                            text.as_str(),
                        );
                        let ghost symv = syms.deep_view();
                        let lines = changed_lines_for(diffs, p.as_str());
                        let ghost lineset = spec_changed_lines(dv, pathsv[k as int]);
                        let ghost hit0 = out_syms.deep_view();
                        let mut w: usize = 0;
                        while w < syms.len()
                            invariant
                                w <= syms@.len(),
                                symv == syms.deep_view(),
                                symv.len() == syms@.len(),
                                forall|q2: int|
                                    0 <= q2 < lines@.len() ==> lineset.contains(
                                        #[trigger] lines@[q2],
                                    ),
                                forall|ln: u32| lineset.contains(ln) ==> lines@.contains(ln),
                                spec_hit_syms(symv, 0, lineset, hit0) == spec_hit_syms(
                                    symv,
                                    w as int,
                                    lineset,
                                    out_syms.deep_view(),
                                ),
                            decreases syms.len() - w,
                        {
                            let s = &syms[w];
                            assert(s@ == symv[w as int]) by {
                                assert(syms.deep_view()[w as int] == syms@[w as int].deep_view());
                            }
                            let ghost o0 = out_syms.deep_view();
                            let hit = intersects(s.range.start_line, s.range.end_line, &lines);
                            proof {
                                if hit {
                                    let q2 = choose|q2: int|
                                        0 <= q2 < lines@.len() && s.range.start_line
                                            <= #[trigger] lines@[q2] <= s.range.end_line;
                                    assert(spec_intersects(
                                        symv[w as int].range.start_line,
                                        symv[w as int].range.end_line,
                                        lineset,
                                    ));
                                } else {
                                    if spec_intersects(
                                        symv[w as int].range.start_line,
                                        symv[w as int].range.end_line,
                                        lineset,
                                    ) {
                                        let ln = choose|ln: u32|
                                            symv[w as int].range.start_line <= ln
                                                <= symv[w as int].range.end_line
                                                && lineset.contains(ln);
                                        let q2 = choose|q2: int|
                                            0 <= q2 < lines@.len() && #[trigger] lines@[q2] == ln;
                                        assert(false);
                                    }
                                }
                            }
                            if hit {
                                out_syms.push(s.dup());
                                proof {
                                    assert(out_syms.deep_view() =~~= o0.push(symv[w as int]));
                                }
                            }
                            w = w + 1;
                        }
                    },
                    None => {},
                }
            },
            None => {},
        }
        k = k + 1;
    }

    ChangedOutput { changed_files, changed_symbols: out_syms }
}

/// The law of the change mapper: a symbol appears among the hits of
/// one analyzed file exactly when it already stood in the accumulator
/// or its range intersects the file's changed line set.
pub proof fn lemma_hit_syms_iff(
    syms: Seq<SymbolV>,
    k: int,
    lines: Set<u32>,
    acc: Seq<SymbolV>,
    s: SymbolV,
)
    requires
        0 <= k <= syms.len(),
    ensures
        spec_hit_syms(syms, k, lines, acc).contains(s) <==> (acc.contains(s) || exists|i: int|
            k <= i < syms.len() && #[trigger] syms[i] == s && spec_intersects(
                syms[i].range.start_line,
                syms[i].range.end_line,
                lines,
            )),
    decreases syms.len() - k,
{
    if k == syms.len() {
    } else {
        let hit = spec_intersects(syms[k].range.start_line, syms[k].range.end_line, lines);
        let acc2 = if hit {
            acc.push(syms[k])
        } else {
            acc
        };
        lemma_hit_syms_iff(syms, k + 1, lines, acc2, s);
        if hit {
            assert(acc.push(syms[k]).contains(s) <==> (acc.contains(s) || syms[k] == s)) by {
                if acc.push(syms[k]).contains(s) {
                    let w = choose|w: int|
                        0 <= w < acc.push(syms[k]).len() && acc.push(syms[k])[w] == s;
                    if w < acc.len() {
                        assert(acc[w] == s);
                    }
                }
                if acc.contains(s) {
                    let w = choose|w: int| 0 <= w < acc.len() && acc[w] == s;
                    assert(acc.push(syms[k])[w] == s);
                }
                if syms[k] == s {
                    assert(acc.push(syms[k])[acc.len() as int] == s);
                }
            }
        }
    }
}

/// The change mapper is faithful: a symbol of an analyzed file is
/// reported exactly when its range intersects that file's changed
/// line set.
pub proof fn lemma_changed_symbols_iff(syms: Seq<SymbolV>, lines: Set<u32>, s: SymbolV)
    ensures
        spec_hit_syms(syms, 0, lines, Seq::empty()).contains(s) <==> exists|i: int|
            0 <= i < syms.len() && #[trigger] syms[i] == s && spec_intersects(
                syms[i].range.start_line,
                syms[i].range.end_line,
                lines,
            ),
{
    lemma_hit_syms_iff(syms, 0, lines, Seq::empty(), s);
}

} // verus!
