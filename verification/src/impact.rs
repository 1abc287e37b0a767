//! The reference resolver and the impact traversal: the core of the
//! library. Call sites are matched to declared symbols by a scoring
//! heuristic over module-path conventions; the resulting edge set is
//! then walked breadth-first from the changed symbols.

use vstd::prelude::*;
use crate::ir::{Symbol, SymbolV, SymbolId, SymbolKind, is_callable};
use crate::ir::reference::{RefKind, Reference, ReferenceV, SymbolIndex, UnresolvedRef, URefV,
    spec_enclosing_idx, spec_named_of};
use crate::imports::{ImportEntryV, ImportMap, map_of};
use crate::languages::path::spec_dirname;
use crate::strutil::{
    chars_to_string, eq_chars, is_prefix, is_suffix, lex_lt, spec_join, spec_replace, spec_split,
    contains_seq, contains_sub, opt_str_view, join_chars, replace_sub, split_sub, starts_with,
    ends_with, str_to_chars, subvec, rfind_sub, spec_rfind_sub, str_eq,
};

verus! {

/// The module path a file stands for, by convention: extension
/// stripped, separators turned to `::`, and module-root stems
/// (`mod`/`lib`/`main`, `index`) contributing the parent directory.
pub open spec fn spec_module_path_for_file(file: Seq<char>) -> Seq<char> {
    let p = if is_prefix("./"@, file) {
        file.subrange(2, file.len() as int)
    } else {
        file
    };
    if is_suffix("/mod.rs"@, p) || is_suffix("/lib.rs"@, p) || is_suffix("/main.rs"@, p)
        || is_suffix("/index.js"@, p) || is_suffix("/index.ts"@, p) || is_suffix(
        "/index.tsx"@,
        p,
    ) {
        spec_replace(spec_dirname(p), "/"@, "::"@)
    } else if is_suffix(".rs"@, p) || is_suffix(".rb"@, p) || is_suffix(".js"@, p) || is_suffix(
        ".ts"@,
        p,
    ) || is_suffix(".tsx"@, p) {
        let e = crate::strutil::spec_strip_all_suffix(
            crate::strutil::spec_strip_all_suffix(
                crate::strutil::spec_strip_all_suffix(
                    crate::strutil::spec_strip_all_suffix(
                        crate::strutil::spec_strip_all_suffix(p, ".rs"@),
                        ".rb"@,
                    ),
                    ".js"@,
                ),
                ".ts"@,
            ),
            ".tsx"@,
        );
        spec_replace(e, "/"@, "::"@)
    } else {
        spec_replace(p, "/"@, "::"@)
    }
}

/// Derive the module path of a file from its workspace-relative path.
pub fn module_path_for_file(file: &str) -> (r: String)
    ensures
        r@ == spec_module_path_for_file(file@),
{
    let fv = str_to_chars(file);
    let dotslash = str_to_chars("./");
    proof {
        reveal_strlit("./");
    }
    let p: Vec<char> = if starts_with(&fv, &dotslash) {
        subvec(&fv, 2, fv.len())
    } else {
        subvec(&fv, 0, fv.len())
    };
    proof {
        assert(fv@.subrange(0, fv@.len() as int) =~= fv@);
    }
    let slash = str_to_chars("/");
    let coloncolon = str_to_chars("::");
    proof {
        reveal_strlit("/");
        reveal_strlit("::");
    }
    let mod_rs = str_to_chars("/mod.rs");
    let lib_rs = str_to_chars("/lib.rs");
    let main_rs = str_to_chars("/main.rs");
    let idx_js = str_to_chars("/index.js");
    let idx_ts = str_to_chars("/index.ts");
    let idx_tsx = str_to_chars("/index.tsx");
    if ends_with(&p, &mod_rs) || ends_with(&p, &lib_rs) || ends_with(&p, &main_rs) || ends_with(
        &p,
        &idx_js,
    ) || ends_with(&p, &idx_ts) || ends_with(&p, &idx_tsx) {
        let d = crate::languages::path::dirname(&p);
        let out = replace_sub(&d, &slash, &coloncolon);
        chars_to_string(&out)
    } else {
        let e_rs = str_to_chars(".rs");
        let e_rb = str_to_chars(".rb");
        let e_js = str_to_chars(".js");
        let e_ts = str_to_chars(".ts");
        let e_tsx = str_to_chars(".tsx");
        proof {
            reveal_strlit(".rs");
            reveal_strlit(".rb");
            reveal_strlit(".js");
            reveal_strlit(".ts");
            reveal_strlit(".tsx");
        }
        if ends_with(&p, &e_rs) || ends_with(&p, &e_rb) || ends_with(&p, &e_js) || ends_with(
            &p,
            &e_ts,
        ) || ends_with(&p, &e_tsx) {
            let s1 = crate::strutil::strip_all_suffix(&p, &e_rs);
            let s2 = crate::strutil::strip_all_suffix(&s1, &e_rb);
            let s3 = crate::strutil::strip_all_suffix(&s2, &e_js);
            let s4 = crate::strutil::strip_all_suffix(&s3, &e_ts);
            let s5 = crate::strutil::strip_all_suffix(&s4, &e_tsx);
            let out = replace_sub(&s5, &slash, &coloncolon);
            chars_to_string(&out)
        } else {
            let out = replace_sub(&p, &slash, &coloncolon);
            chars_to_string(&out)
        }
    }
}

/// Consume leading `super::` segments, popping one trailing module
/// segment for each.
pub open spec fn spec_strip_supers(base: Seq<Seq<char>>, rem: Seq<char>) -> (
    Seq<Seq<char>>,
    Seq<char>,
)
    decreases rem.len(),
{
    if is_prefix("super::"@, rem) && rem.len() >= 7 {
        spec_strip_supers(
            if base.len() > 0 {
                base.drop_last()
            } else {
                base
            },
            rem.subrange(7, rem.len() as int),
        )
    } else {
        (base, rem)
    }
}

/// Expand a leading `crate::`, `self::` or `super::` chain against the
/// current module path.
pub open spec fn spec_expand_relative(current_mod: Seq<char>, path: Seq<char>) -> Seq<char> {
    if is_prefix("crate::"@, path) {
        path.subrange(7, path.len() as int)
    } else {
        let base0 = spec_split(current_mod, "::"@).filter(|s: Seq<char>| s.len() > 0);
        let rem0 = if is_prefix("self::"@, path) {
            path.subrange(6, path.len() as int)
        } else {
            path
        };
        let br = spec_strip_supers(base0, rem0);
        if br.1.len() == 0 {
            spec_join(br.0, "::"@)
        } else if br.0.len() == 0 {
            br.1
        } else {
            spec_join(br.0, "::"@) + "::"@ + br.1
        }
    }
}

/// Expand `crate::`/`self::`/`super::` against a module path.
#[verifier::loop_isolation(false)]
pub fn expand_relative_path(current_mod: &str, path: &str) -> (r: String)
    ensures
        r@ == spec_expand_relative(current_mod@, path@),
{
    let pv = str_to_chars(path);
    let lit_crate = str_to_chars("crate::");
    let lit_self = str_to_chars("self::");
    let lit_super = str_to_chars("super::");
    let coloncolon = str_to_chars("::");
    proof {
        reveal_strlit("crate::");
        reveal_strlit("self::");
        reveal_strlit("super::");
        reveal_strlit("::");
    }
    if starts_with(&pv, &lit_crate) {
        return chars_to_string(&subvec(&pv, 7, pv.len()));
    }
    let cm = str_to_chars(current_mod);
    let segs = split_sub(&cm, &coloncolon);
    let ghost sv = segs.deep_view();
    let mut base: Vec<Vec<char>> = Vec::new();
    let mut i: usize = 0;
    proof {
        assert(base.deep_view() =~~= sv.subrange(0, 0).filter(|s: Seq<char>| s.len() > 0));
    }
    while i < segs.len()
        invariant
            i <= segs@.len(),
            sv == segs.deep_view(),
            sv.len() == segs@.len(),
            base.deep_view() == sv.subrange(0, i as int).filter(|s: Seq<char>| s.len() > 0),
        decreases segs.len() - i,
    {
        let ghost b0 = base.deep_view();
        let sgi = &segs[i];
        assert(sgi@ == sv[i as int]) by {
            assert(segs.deep_view()[i as int] == segs@[i as int].deep_view());
        }
        if sgi.len() > 0 {
            base.push(subvec(sgi, 0, sgi.len()));
            proof {
                assert(sv[i as int].subrange(0, sv[i as int].len() as int) =~= sv[i as int]);
                assert(base.deep_view() =~~= b0.push(sv[i as int]));
            }
        }
        proof {
            let pref2 = sv.subrange(0, i as int + 1);
            assert(pref2.drop_last() =~= sv.subrange(0, i as int));
            reveal(Seq::filter);
            assert(pref2.filter(|s: Seq<char>| s.len() > 0) == if sv[i as int].len() > 0 {
                sv.subrange(0, i as int).filter(|s: Seq<char>| s.len() > 0).push(sv[i as int])
            } else {
                sv.subrange(0, i as int).filter(|s: Seq<char>| s.len() > 0)
            });
        }
        i = i + 1;
    }
    proof {
        assert(sv.subrange(0, sv.len() as int) =~= sv);
    }
    let rem0: Vec<char> = if starts_with(&pv, &lit_self) {
        subvec(&pv, 6, pv.len())
    } else {
        subvec(&pv, 0, pv.len())
    };
    proof {
        assert(pv@.subrange(0, pv@.len() as int) =~= pv@);
    }
    let mut rem = rem0;
    let ghost base0v = base.deep_view();
    let ghost rem0v = rem@;
    while starts_with(&rem, &lit_super)
        invariant
            lit_super@ == "super::"@,
            spec_strip_supers(base0v, rem0v) == spec_strip_supers(base.deep_view(), rem@),
        decreases rem@.len(),
    {
        let ghost bprev = base.deep_view();
        if base.len() > 0 {
            base.pop();
            proof {
                assert(base.deep_view() =~~= bprev.drop_last());
            }
        }
        rem = subvec(&rem, 7, rem.len());
        assert(lit_super@.len() == 7);
    }
    if rem.len() == 0 {
        chars_to_string(&join_chars(&base, &coloncolon))
    } else if base.len() == 0 {
        proof {
            assert(base.deep_view().len() == 0);
        }
        chars_to_string(&rem)
    } else {
        let mut out = join_chars(&base, &coloncolon);
        let ghost o0 = out@;
        crate::ir::append_chars(&mut out, &coloncolon);
        crate::ir::append_chars(&mut out, &rem);
        assert(out@ =~= o0 + "::"@ + rem@);
        chars_to_string(&out)
    }
}

/// A file carries a module path when, with its extension stripped, it
/// ends in the path or in the path followed by a module-root stem.
pub open spec fn spec_file_matches_module_path(file: Seq<char>, mpath: Seq<char>) -> bool {
    if mpath.len() == 0 {
        false
    } else {
        let base = spec_replace(mpath, "::"@, "/"@);
        let f = if is_prefix("./"@, file) {
            file.subrange(2, file.len() as int)
        } else {
            file
        };
        is_suffix(base + ".rs"@, f) || is_suffix(base + ".rb"@, f) || is_suffix(base + ".js"@, f)
            || is_suffix(base + ".ts"@, f) || is_suffix(base + ".tsx"@, f) || is_suffix(
            base + "/index.js"@,
            f,
        ) || is_suffix(base + "/index.ts"@, f) || is_suffix(base + "/index.tsx"@, f) || is_suffix(
            base + "/mod.rs"@,
            f,
        )
    }
}

/// Concatenate a suffix onto a copied base.
fn with_suffix(base: &Vec<char>, suf: &str) -> (r: Vec<char>)
    ensures
        r@ == base@ + suf@,
{
    let mut c = subvec(base, 0, base.len());
    let sv = str_to_chars(suf);
    crate::ir::append_chars(&mut c, &sv);
    assert(c@ =~= base@ + suf@) by {
        assert(base@.subrange(0, base@.len() as int) =~= base@);
    }
    c
}

/// Decide the file-matches-module test.
pub fn file_matches_module_path(file: &Vec<char>, mpath: &Vec<char>) -> (r: bool)
    ensures
        r == spec_file_matches_module_path(file@, mpath@),
{
    if mpath.len() == 0 {
        return false;
    }
    let coloncolon = str_to_chars("::");
    let slash = str_to_chars("/");
    let dotslash = str_to_chars("./");
    proof {
        reveal_strlit("::");
        reveal_strlit("/");
        reveal_strlit("./");
    }
    let base = replace_sub(mpath, &coloncolon, &slash);
    let f: Vec<char> = if starts_with(file, &dotslash) {
        subvec(file, 2, file.len())
    } else {
        subvec(file, 0, file.len())
    };
    proof {
        assert(file@.subrange(0, file@.len() as int) =~= file@);
    }
    ends_with(&f, &with_suffix(&base, ".rs")) || ends_with(&f, &with_suffix(&base, ".rb"))
        || ends_with(&f, &with_suffix(&base, ".js")) || ends_with(&f, &with_suffix(&base, ".ts"))
        || ends_with(&f, &with_suffix(&base, ".tsx")) || ends_with(
        &f,
        &with_suffix(&base, "/index.js"),
    ) || ends_with(&f, &with_suffix(&base, "/index.ts")) || ends_with(
        &f,
        &with_suffix(&base, "/index.tsx"),
    ) || ends_with(&f, &with_suffix(&base, "/mod.rs"))
}

/// The import map published by one file.
#[derive(Debug, Clone, PartialEq, Eq)]
pub struct FileImports {
    pub file: String,
    pub imports: ImportMap,
}

/// Mathematical value of a `FileImports`.
pub struct FileImportsV {
    pub file: Seq<char>,
    pub entries: Seq<ImportEntryV>,
}

impl View for FileImports {
    type V = FileImportsV;

    open spec fn view(&self) -> FileImportsV {
        FileImportsV { file: self.file@, entries: self.imports.entries.deep_view() }
    }
}

impl DeepView for FileImports {
    type V = FileImportsV;

    open spec fn deep_view(&self) -> FileImportsV {
        self@
    }
}

/// The import entries of `file`: those of the last record for it.
pub open spec fn spec_imports_entries_of(fis: Seq<FileImportsV>, file: Seq<char>) -> Seq<
    ImportEntryV,
>
    decreases fis.len(),
{
    if fis.len() == 0 {
        Seq::empty()
    } else if fis.last().file == file {
        fis.last().entries
    } else {
        spec_imports_entries_of(fis.drop_last(), file)
    }
}

/// Look up the import map recorded for a file.
#[verifier::loop_isolation(false)]
pub fn imports_entries_of(fis: &Vec<FileImports>, file: &str) -> (r: ImportMap)
    ensures
        r.entries.deep_view() == spec_imports_entries_of(fis.deep_view(), file@),
{
    let ghost fv = fis.deep_view();
    let n = fis.len();
    let mut i: usize = n;
    proof {
        assert(fv.subrange(0, n as int) =~= fv);
    }
    while i > 0
        invariant
            i <= n,
            n == fis@.len(),
            fv == fis.deep_view(),
            fv.len() == fis@.len(),
            spec_imports_entries_of(fv, file@) == spec_imports_entries_of(
                fv.subrange(0, i as int),
                file@,
            ),
        decreases i,
    {
        proof {
            assert(fv.subrange(0, i as int).last() == fv[i as int - 1]);
            assert(fv.subrange(0, i as int).drop_last() =~= fv.subrange(0, i as int - 1));
            assert(fis.deep_view()[i as int - 1] == fis@[i as int - 1].deep_view());
        }
        let fi = &fis[i - 1];
        if str_eq(fi.file.as_str(), file) {
            return fi.imports.dup();
        }
        i = i - 1;
    }
    proof {
        assert(fv.subrange(0, 0) =~= Seq::<FileImportsV>::empty());
    }
    let r = ImportMap::new();
    proof {
        assert(r.entries.deep_view() =~~= Seq::<ImportEntryV>::empty());
    }
    r
}

/// The last `::`-separated segment of a path, or the path itself.
pub open spec fn spec_last_seg(full: Seq<char>) -> Seq<char> {
    match spec_rfind_sub(full, "::"@) {
        Option::None => full,
        Option::Some(i) => full.subrange(i + 2, full.len() as int),
    }
}

/// Everything before the last `::`, or nothing.
pub open spec fn spec_prefix_seg(full: Seq<char>) -> Seq<char> {
    match spec_rfind_sub(full, "::"@) {
        Option::None => Seq::empty(),
        Option::Some(i) => full.subrange(0, i),
    }
}

/// Split at the last `::`: the prefix and the final segment.
pub fn rsplit_path(full: &Vec<char>) -> (r: (Vec<char>, Vec<char>))
    ensures
        r.0@ == spec_prefix_seg(full@),
        r.1@ == spec_last_seg(full@),
{
    let cc = str_to_chars("::");
    proof {
        reveal_strlit("::");
    }
    match rfind_sub(full, &cc) {
        None => {
            let p: Vec<char> = Vec::new();
            assert(p@ =~= Seq::<char>::empty());
            (p, subvec(full, 0, full.len()))
        },
        Some(i) => {
            let n = full.len();
            proof {
                crate::strutil::lemma_rfind_sub(full@, "::"@);
                assert(crate::strutil::occurs_at(full@, "::"@, i as int));
            }
            assert(i + 2 <= n);
            (subvec(full, 0, i), subvec(full, i + 2, n))
        },
    }
}

/// Candidate score per the fixed bonus table: same file 30, same
/// directory 10, qualifier match 20, imported-prefix match 15, method
/// call onto a method 25, method call onto a Ruby function 20, free
/// call onto a function 5.
pub open spec fn spec_score(
    from_file: Seq<char>,
    qualifier: Option<Seq<char>>,
    ip: Option<Seq<char>>,
    cand: Symbol,
    is_method: bool,
) -> int {
    (if cand.file@ == from_file {
        30int
    } else {
        0int
    }) + (if spec_dirname(cand.file@) == spec_dirname(from_file) {
        10int
    } else {
        0int
    }) + (match qualifier {
        Option::Some(q) => if spec_file_matches_module_path(cand.file@, q) {
            20int
        } else {
            0int
        },
        Option::None => 0int,
    }) + (match ip {
        Option::Some(p) => if p.len() > 0 && spec_file_matches_module_path(cand.file@, p) {
            15int
        } else {
            0int
        },
        Option::None => 0int,
    }) + (if is_method {
        (if cand.kind == SymbolKind::Method {
            25int
        } else {
            0int
        }) + (if cand.language@ == "ruby"@ && cand.kind == SymbolKind::Function {
            20int
        } else {
            0int
        })
    } else {
        if cand.kind == SymbolKind::Function {
            5int
        } else {
            0int
        }
    })
}

/// The view of an optional character vector.
pub open spec fn opt_chars_view(o: Option<Vec<char>>) -> Option<Seq<char>> {
    match o {
        Option::None => Option::None,
        Option::Some(v) => Option::Some(v@),
    }
}

/// Score a candidate for one call site.
pub fn score_candidate(
    from_file: &Vec<char>,
    qualifier: &Option<Vec<char>>,
    ip: &Option<Vec<char>>,
    cand: &Symbol,
    is_method: bool,
) -> (r: i32)
    ensures
        r as int == spec_score(from_file@, opt_chars_view(*qualifier), opt_chars_view(*ip), *cand, is_method),
        0 <= r <= 100,
{
    let candf = str_to_chars(cand.file.as_str());
    let mut score: i32 = 0;
    if eq_chars(&candf, from_file) {
        score = score + 30;
    }
    let cd = crate::languages::path::dirname(&candf);
    let fd = crate::languages::path::dirname(from_file);
    if eq_chars(&cd, &fd) {
        score = score + 10;
    }
    match qualifier {
        Some(q) => {
            if file_matches_module_path(&candf, q) {
                score = score + 20;
            }
        },
        None => {},
    }
    match ip {
        Some(p) => {
            if p.len() > 0 && file_matches_module_path(&candf, p) {
                score = score + 15;
            }
        },
        None => {},
    }
    if is_method {
        if cand.kind == SymbolKind::Method {
            score = score + 25;
        }
        let ruby = str_to_chars("ruby");
        let langv = str_to_chars(cand.language.as_str());
        if eq_chars(&langv, &ruby) && cand.kind == SymbolKind::Function {
            score = score + 20;
        }
    } else {
        if cand.kind == SymbolKind::Function {
            score = score + 5;
        }
    }
    score
}

/// The best score a candidate reaches when each active glob prefix is
/// scored independently and the maximum taken.
pub open spec fn spec_glob_max(
    from_file: Seq<char>,
    qualifier: Option<Seq<char>>,
    globs: Seq<Seq<char>>,
    i: int,
    cand: Symbol,
    is_method: bool,
    cur: int,
) -> int
    decreases globs.len() - i,
{
    if i < 0 || i >= globs.len() {
        cur
    } else {
        let s = spec_score(from_file, qualifier, Option::Some(globs[i]), cand, is_method);
        spec_glob_max(
            from_file,
            qualifier,
            globs,
            i + 1,
            cand,
            is_method,
            if s > cur {
                s
            } else {
                cur
            },
        )
    }
}

pub open spec fn spec_multi_score(
    from_file: Seq<char>,
    qualifier: Option<Seq<char>>,
    ip: Option<Seq<char>>,
    globs: Seq<Seq<char>>,
    cand: Symbol,
    is_method: bool,
) -> int {
    spec_glob_max(
        from_file,
        qualifier,
        globs,
        0,
        cand,
        is_method,
        spec_score(from_file, qualifier, ip, cand, is_method),
    )
}

/// Score with every glob prefix considered.
#[verifier::loop_isolation(false)]
pub fn multi_score(
    from_file: &Vec<char>,
    qualifier: &Option<Vec<char>>,
    ip: &Option<Vec<char>>,
    globs: &Vec<Vec<char>>,
    cand: &Symbol,
    is_method: bool,
) -> (r: i32)
    ensures
        r as int == spec_multi_score(
            from_file@,
            opt_chars_view(*qualifier),
            opt_chars_view(*ip),
            globs.deep_view(),
            *cand,
            is_method,
        ),
        0 <= r <= 100,
{
    let ghost gv = globs.deep_view();
    let mut best = score_candidate(from_file, qualifier, ip, cand, is_method);
    let mut i: usize = 0;
    while i < globs.len()
        invariant
            i <= globs@.len(),
            gv == globs.deep_view(),
            gv.len() == globs@.len(),
            0 <= best <= 100,
            spec_glob_max(
                from_file@,
                opt_chars_view(*qualifier),
                gv,
                0,
                *cand,
                is_method,
                spec_score(
                    from_file@,
                    opt_chars_view(*qualifier),
                    opt_chars_view(*ip),
                    *cand,
                    is_method,
                ),
            ) == spec_glob_max(
                from_file@,
                opt_chars_view(*qualifier),
                gv,
                i as int,
                *cand,
                is_method,
                best as int,
            ),
        decreases globs.len() - i,
    {
        let g = &globs[i];
        assert(g@ == gv[i as int]) by {
            assert(globs.deep_view()[i as int] == globs@[i as int].deep_view());
        }
        let s = score_candidate(from_file, &Some(subvec(g, 0, g.len())), ip, cand, is_method);
        proof {
            assert(gv[i as int].subrange(0, gv[i as int].len() as int) =~= gv[i as int]);
        }
        let sg = score_candidate_glob_view(from_file, g, qualifier, cand, is_method);
        if sg > best {
            best = sg;
        }
        i = i + 1;
    }
    best
}

/// Score against one glob prefix in place of the imported prefix.
fn score_candidate_glob_view(
    from_file: &Vec<char>,
    g: &Vec<char>,
    qualifier: &Option<Vec<char>>,
    cand: &Symbol,
    is_method: bool,
) -> (r: i32)
    ensures
        r as int == spec_score(
            from_file@,
            opt_chars_view(*qualifier),
            Option::Some(g@),
            *cand,
            is_method,
        ),
        0 <= r <= 100,
{
    let gc = subvec(g, 0, g.len());
    proof {
        assert(g@.subrange(0, g@.len() as int) =~= g@);
    }
    score_candidate(from_file, qualifier, &Some(gc), cand, is_method)
}

/// The symbols whose file carries module path `q`.
pub open spec fn spec_qual_filtered(cands: Seq<Symbol>, q: Seq<char>) -> Seq<Symbol> {
    cands.filter(|s: Symbol| spec_file_matches_module_path(s.file@, q))
}

/// The callable symbols: functions and methods.
pub open spec fn spec_callable_of(v: Seq<Symbol>) -> Seq<Symbol> {
    v.filter(|s: Symbol| is_callable(s.kind))
}

/// The glob prefixes an import map publishes.
pub open spec fn spec_globs_of(entries: Seq<ImportEntryV>) -> Seq<Seq<char>> {
    entries.filter(|e: ImportEntryV| is_prefix("__glob__"@, e.key)).map_values(
        |e: ImportEntryV| e.value,
    )
}

/// The re-export glob prefixes an import map publishes.
pub open spec fn spec_export_globs_of(entries: Seq<ImportEntryV>) -> Seq<Seq<char>> {
    entries.filter(|e: ImportEntryV| is_prefix("__export_glob__"@, e.key)).map_values(
        |e: ImportEntryV| e.value,
    )
}

#[verifier::loop_isolation(false)]
fn filter_by_qual(cands: &Vec<Symbol>, q: &Vec<char>) -> (r: Vec<Symbol>)
    ensures
        r@ == spec_qual_filtered(cands@, q@),
{
    let mut r: Vec<Symbol> = Vec::new();
    let mut i: usize = 0;
    while i < cands.len()
        invariant
            i <= cands@.len(),
            r@ == spec_qual_filtered(cands@.subrange(0, i as int), q@),
        decreases cands.len() - i,
    {
        let ghost pref = cands@.subrange(0, i as int);
        let s = &cands[i];
        let fv = str_to_chars(s.file.as_str());
        if file_matches_module_path(&fv, q) {
            r.push(s.dup());
        }
        proof {
            let pref2 = cands@.subrange(0, i as int + 1);
            assert(pref2.drop_last() =~= pref);
            assert(pref2.last() == cands@[i as int]);
            reveal(Seq::filter);
            assert(spec_qual_filtered(pref2, q@) == if spec_file_matches_module_path(
                cands@[i as int].file@,
                q@,
            ) {
                spec_qual_filtered(pref, q@).push(cands@[i as int])
            } else {
                spec_qual_filtered(pref, q@)
            });
        }
        i = i + 1;
    }
    assert(cands@.subrange(0, cands@.len() as int) =~= cands@);
    r
}

#[verifier::loop_isolation(false)]
fn filter_callable(v: &Vec<Symbol>) -> (r: Vec<Symbol>)
    ensures
        r@ == spec_callable_of(v@),
{
    let mut r: Vec<Symbol> = Vec::new();
    let mut i: usize = 0;
    while i < v.len()
        invariant
            i <= v@.len(),
            r@ == spec_callable_of(v@.subrange(0, i as int)),
        decreases v.len() - i,
    {
        let ghost pref = v@.subrange(0, i as int);
        let s = &v[i];
        if s.kind == SymbolKind::Function || s.kind == SymbolKind::Method {
            r.push(s.dup());
        }
        proof {
            let pref2 = v@.subrange(0, i as int + 1);
            assert(pref2.drop_last() =~= pref);
            assert(pref2.last() == v@[i as int]);
            reveal(Seq::filter);
            assert(spec_callable_of(pref2) == if is_callable(v@[i as int].kind) {
                spec_callable_of(pref).push(v@[i as int])
            } else {
                spec_callable_of(pref)
            });
        }
        i = i + 1;
    }
    assert(v@.subrange(0, v@.len() as int) =~= v@);
    r
}

#[verifier::loop_isolation(false)]
fn collect_prefixed_values(m: &ImportMap, marker: &str, want_export: bool) -> (r: Vec<Vec<char>>)
    requires
        want_export ==> marker@ == "__export_glob__"@,
        !want_export ==> marker@ == "__glob__"@,
    ensures
        want_export ==> r.deep_view() == spec_export_globs_of(m.entries.deep_view()),
        !want_export ==> r.deep_view() == spec_globs_of(m.entries.deep_view()),
{
    let ghost ev = m.entries.deep_view();
    let markerv = str_to_chars(marker);
    let mut r: Vec<Vec<char>> = Vec::new();
    let mut i: usize = 0;
    proof {
        assert(ev.subrange(0, 0) =~= Seq::<ImportEntryV>::empty());
        assert(r.deep_view() =~~= Seq::<Seq<char>>::empty());
        assert(spec_globs_of(ev.subrange(0, 0)) =~= Seq::<Seq<char>>::empty()) by {
            reveal(Seq::filter);
        }
        assert(spec_export_globs_of(ev.subrange(0, 0)) =~= Seq::<Seq<char>>::empty()) by {
            reveal(Seq::filter);
        }
    }
    while i < m.entries.len()
        invariant
            i <= m.entries@.len(),
            ev == m.entries.deep_view(),
            ev.len() == m.entries@.len(),
            markerv@ == marker@,
            want_export ==> marker@ == "__export_glob__"@,
            !want_export ==> marker@ == "__glob__"@,
            want_export ==> r.deep_view() == spec_export_globs_of(ev.subrange(0, i as int)),
            !want_export ==> r.deep_view() == spec_globs_of(ev.subrange(0, i as int)),
        decreases m.entries.len() - i,
    {
        let ghost pref = ev.subrange(0, i as int);
        let ghost r0 = r.deep_view();
        let e = &m.entries[i];
        assert(e@ == ev[i as int]) by {
            assert(m.entries.deep_view()[i as int] == m.entries@[i as int].deep_view());
        }
        let kv = str_to_chars(e.key.as_str());
        if starts_with(&kv, &markerv) {
            let vv = str_to_chars(e.value.as_str());
            r.push(vv);
            proof {
                assert(r.deep_view() =~~= r0.push(ev[i as int].value));
            }
        }
        proof {
            let pref2 = ev.subrange(0, i as int + 1);
            assert(pref2.drop_last() =~= pref);
            assert(pref2.last() == ev[i as int]);
            reveal(Seq::filter);
            if want_export {
                let p = |e: ImportEntryV| is_prefix("__export_glob__"@, e.key);
                assert(pref2.filter(p) == if p(ev[i as int]) {
                    pref.filter(p).push(ev[i as int])
                } else {
                    pref.filter(p)
                });
                if p(ev[i as int]) {
                    assert(spec_export_globs_of(pref2) =~= spec_export_globs_of(pref).push(
                        ev[i as int].value,
                    ));
                } else {
                    assert(spec_export_globs_of(pref2) =~= spec_export_globs_of(pref));
                }
            } else {
                let p = |e: ImportEntryV| is_prefix("__glob__"@, e.key);
                assert(pref2.filter(p) == if p(ev[i as int]) {
                    pref.filter(p).push(ev[i as int])
                } else {
                    pref.filter(p)
                });
                if p(ev[i as int]) {
                    assert(spec_globs_of(pref2) =~= spec_globs_of(pref).push(ev[i as int].value));
                } else {
                    assert(spec_globs_of(pref2) =~= spec_globs_of(pref));
                }
            }
        }
        i = i + 1;
    }
    proof {
        assert(ev.subrange(0, ev.len() as int) =~= ev);
    }
    r
}

/// Normalization of a call-site qualifier: language separators folded
/// to `::`, a leading alias substituted from the import map, and the
/// relative heads expanded against the current module.
pub open spec fn spec_normalize_qualifier(
    q: Seq<char>,
    entries: Seq<ImportEntryV>,
    from_mod: Seq<char>,
) -> Option<Seq<char>> {
    let q2 = spec_replace(q, "."@, "::"@);
    let parts = spec_split(q2, "::"@);
    let m = map_of(entries);
    if m.contains_key(parts[0]) {
        let mapped = m[parts[0]];
        let nw = if parts.len() > 1 {
            mapped + "::"@ + spec_join(parts.subrange(1, parts.len() as int), "::"@)
        } else {
            mapped
        };
        Option::Some(spec_expand_relative(from_mod, nw))
    } else {
        Option::Some(spec_expand_relative(from_mod, q2))
    }
}

/// Normalize a qualifier using the file's import map.
pub fn normalize_qualifier_with_imports(q: &str, imports: &ImportMap, from_mod: &str) -> (r:
    Option<String>)
    ensures
        opt_str_view(r) == spec_normalize_qualifier(q@, imports.entries.deep_view(), from_mod@),
{
    let qv = str_to_chars(q);
    let dot = str_to_chars(".");
    let cc = str_to_chars("::");
    proof {
        reveal_strlit(".");
        reveal_strlit("::");
    }
    let q2 = replace_sub(&qv, &dot, &cc);
    let parts = split_sub(&q2, &cc);
    proof {
        crate::strutil::lemma_split_nonempty(q2@, "::"@);
        assert(parts.deep_view()[0] == parts@[0]@);
    }
    let first = chars_to_string(&subvec(&parts[0], 0, parts[0].len()));
    proof {
        assert(parts@[0]@.subrange(0, parts@[0]@.len() as int) =~= parts@[0]@);
    }
    match imports.lookup(first.as_str()) {
        Some(mapped) => {
            let mappedv = str_to_chars(mapped.as_str());
            if parts.len() > 1 {
                let mut nw = mappedv;
                let ghost n0 = nw@;
                crate::ir::append_chars(&mut nw, &cc);
                let ghost rest = parts.deep_view().subrange(1, parts.deep_view().len() as int);
                let mut restv: Vec<Vec<char>> = Vec::new();
                let mut k: usize = 1;
                proof {
                    assert(restv.deep_view() =~~= parts.deep_view().subrange(1, 1));
                }
                #[verifier::loop_isolation(false)]
                while k < parts.len()
                    invariant
                        1 <= k <= parts@.len(),
                        restv.deep_view() == parts.deep_view().subrange(1, k as int),
                    decreases parts.len() - k,
                {
                    let pk = &parts[k];
                    assert(pk@ == parts.deep_view()[k as int]) by {
                        assert(parts.deep_view()[k as int] == parts@[k as int].deep_view());
                    }
                    restv.push(subvec(pk, 0, pk.len()));
                    proof {
                        assert(parts.deep_view()[k as int].subrange(
                            0,
                            parts.deep_view()[k as int].len() as int,
                        ) =~= parts.deep_view()[k as int]);
                        assert(restv.deep_view() =~~= parts.deep_view().subrange(1, k as int).push(
                            parts.deep_view()[k as int],
                        ));
                        assert(parts.deep_view().subrange(1, k as int + 1) =~= parts.deep_view()
                            .subrange(1, k as int).push(parts.deep_view()[k as int]));
                    }
                    k = k + 1;
                }
                let joined = join_chars(&restv, &cc);
                crate::ir::append_chars(&mut nw, &joined);
                assert(nw@ =~= n0 + "::"@ + joined@);
                Some(expand_relative_path(from_mod, chars_to_string(&nw).as_str()))
            } else {
                Some(expand_relative_path(from_mod, mapped.as_str()))
            }
        },
        None => Some(expand_relative_path(from_mod, chars_to_string(&q2).as_str())),
    }
}

/// A file that is an `index.*` module root.
pub open spec fn spec_is_index_file(f: Seq<char>) -> bool {
    is_suffix("/index.js"@, f) || is_suffix("/index.ts"@, f) || is_suffix("/index.tsx"@, f)
}

/// The first file record at or after `i` matching module path `ip`;
/// with `want_index`, only `index.*` files count.
pub open spec fn spec_first_agg(
    fis: Seq<FileImportsV>,
    ip: Seq<char>,
    i: int,
    want_index: bool,
) -> Option<int>
    decreases fis.len() - i,
{
    if i < 0 || i >= fis.len() {
        Option::None
    } else if spec_file_matches_module_path(fis[i].file, ip) && (!want_index || spec_is_index_file(
        fis[i].file,
    )) {
        Option::Some(i)
    } else {
        spec_first_agg(fis, ip, i + 1, want_index)
    }
}

/// The aggregator file for a module path: the first `index.*` match,
/// else the first match.
pub open spec fn spec_agg_of(fis: Seq<FileImportsV>, ip: Seq<char>) -> Option<int> {
    match spec_first_agg(fis, ip, 0, true) {
        Option::Some(j) => Option::Some(j),
        Option::None => spec_first_agg(fis, ip, 0, false),
    }
}

#[verifier::loop_isolation(false)]
fn first_agg(fis: &Vec<FileImports>, ip: &Vec<char>, want_index: bool) -> (r: Option<usize>)
    ensures
        match r {
            Some(j) => spec_first_agg(fis.deep_view(), ip@, 0, want_index) == Option::Some(
                j as int,
            ) && j < fis@.len(),
            None => spec_first_agg(fis.deep_view(), ip@, 0, want_index) is None,
        },
{
    let ghost fv = fis.deep_view();
    let idx_js = str_to_chars("/index.js");
    let idx_ts = str_to_chars("/index.ts");
    let idx_tsx = str_to_chars("/index.tsx");
    let mut i: usize = 0;
    while i < fis.len()
        invariant
            i <= fis@.len(),
            fv == fis.deep_view(),
            fv.len() == fis@.len(),
            idx_js@ == "/index.js"@,
            idx_ts@ == "/index.ts"@,
            idx_tsx@ == "/index.tsx"@,
            spec_first_agg(fv, ip@, 0, want_index) == spec_first_agg(
                fv,
                ip@,
                i as int,
                want_index,
            ),
        decreases fis.len() - i,
    {
        let f = &fis[i];
        assert(f@ == fv[i as int]) by {
            assert(fis.deep_view()[i as int] == fis@[i as int].deep_view());
        }
        let filev = str_to_chars(f.file.as_str());
        let matches_path = file_matches_module_path(&filev, ip);
        let is_idx = ends_with(&filev, &idx_js) || ends_with(&filev, &idx_ts) || ends_with(
            &filev,
            &idx_tsx,
        );
        if matches_path && (!want_index || is_idx) {
            return Some(i);
        }
        i = i + 1;
    }
    None
}

fn agg_first(fis: &Vec<FileImports>, ip: &Vec<char>) -> (r: Option<usize>)
    ensures
        match r {
            Some(j) => spec_agg_of(fis.deep_view(), ip@) == Option::Some(j as int) && j
                < fis@.len(),
            None => spec_agg_of(fis.deep_view(), ip@) is None,
        },
{
    match first_agg(fis, ip, true) {
        Some(j) => Some(j),
        None => first_agg(fis, ip, false),
    }
}

/// Follow the re-export chain published by aggregator modules: while
/// the imported prefix names a file whose map re-exports the target,
/// move to the underlying module; bounded, with cycle detection.
pub open spec fn spec_chase(
    fis: Seq<FileImportsV>,
    ip: Seq<char>,
    target: Seq<char>,
    globs: Seq<Seq<char>>,
    visited: Seq<Seq<char>>,
    fuel: nat,
) -> (Seq<char>, Seq<char>, Seq<Seq<char>>)
    decreases fuel,
{
    if fuel == 0 {
        (ip, target, globs)
    } else if visited.contains(ip) {
        (ip, target, globs)
    } else {
        match spec_agg_of(fis, ip) {
            Option::None => (ip, target, globs),
            Option::Some(j) => {
                let entries = fis[j].entries;
                let globs2 = globs + spec_export_globs_of(entries);
                let key = "__export__"@ + target;
                let m = map_of(entries);
                if m.contains_key(key) {
                    let rp = m[key];
                    spec_chase(
                        fis,
                        spec_prefix_seg(rp),
                        spec_last_seg(rp),
                        globs2,
                        visited.push(ip),
                        (fuel - 1) as nat,
                    )
                } else {
                    (ip, target, globs2)
                }
            },
        }
    }
}

#[verifier::loop_isolation(false)]
fn visited_contains(visited: &Vec<Vec<char>>, x: &Vec<char>) -> (r: bool)
    ensures
        r == visited.deep_view().contains(x@),
{
    let ghost vv = visited.deep_view();
    let mut i: usize = 0;
    while i < visited.len()
        invariant
            i <= visited@.len(),
            vv == visited.deep_view(),
            vv.len() == visited@.len(),
            forall|j: int| 0 <= j < i ==> vv[j] != x@,
        decreases visited.len() - i,
    {
        let v = &visited[i];
        assert(v@ == vv[i as int]) by {
            assert(visited.deep_view()[i as int] == visited@[i as int].deep_view());
        }
        if eq_chars(v, x) {
            assert(vv.contains(x@));
            return true;
        }
        i = i + 1;
    }
    assert(!vv.contains(x@));
    false
}

#[verifier::loop_isolation(false)]
fn append_glob_vec(globs: &mut Vec<Vec<char>>, more: &Vec<Vec<char>>)
    ensures
        final(globs).deep_view() == old(globs).deep_view() + more.deep_view(),
{
    let mut i: usize = 0;
    while i < more.len()
        invariant
            i <= more@.len(),
            globs.deep_view() == old(globs).deep_view() + more.deep_view().subrange(0, i as int),
        decreases more.len() - i,
    {
        let m = &more[i];
        assert(m@ == more.deep_view()[i as int]) by {
            assert(more.deep_view()[i as int] == more@[i as int].deep_view());
        }
        let ghost gprev = globs.deep_view();
        globs.push(subvec(m, 0, m.len()));
        proof {
            let mv = more.deep_view()[i as int];
            assert(mv.subrange(0, mv.len() as int) =~= mv);
            assert(globs.deep_view() =~~= gprev.push(mv));
            assert(gprev.push(mv) =~~= old(globs).deep_view() + more.deep_view().subrange(
                0,
                i as int + 1,
            ));
        }
        i = i + 1;
    }
    proof {
        assert(more.deep_view().subrange(0, more.deep_view().len() as int) =~= more.deep_view());
    }
}

/// Walk the aggregator chain, accumulating re-export glob prefixes.
#[verifier::loop_isolation(false)]
#[verifier::rlimit(60)]
fn chase(fis: &Vec<FileImports>, ip0: Vec<char>, target0: Vec<char>, globs0: Vec<Vec<char>>) -> (r:
    (Vec<char>, Vec<char>, Vec<Vec<char>>))
    ensures
        ({
            let c = spec_chase(
                fis.deep_view(),
                ip0@,
                target0@,
                globs0.deep_view(),
                Seq::empty(),
                10,
            );
            r.0@ == c.0 && r.1@ == c.1 && r.2.deep_view() == c.2
        }),
{
    let ghost fv = fis.deep_view();
    let ghost goal = spec_chase(fv, ip0@, target0@, globs0.deep_view(), Seq::empty(), 10);
    let mut ip = ip0;
    let mut target = target0;
    let mut globs = globs0;
    let mut visited: Vec<Vec<char>> = Vec::new();
    let mut fuel: usize = 10;
    let mut done = false;
    proof {
        assert(visited.deep_view() =~~= Seq::<Seq<char>>::empty());
    }
    while !done && fuel > 0
        invariant
            fuel <= 10,
            fv == fis.deep_view(),
            done ==> goal == (ip@, target@, globs.deep_view()),
            !done ==> goal == spec_chase(
                fv,
                ip@,
                target@,
                globs.deep_view(),
                visited.deep_view(),
                fuel as nat,
            ),
        decreases 2 * fuel + (if done {
            0int
        } else {
            1int
        }),
    {
        if visited_contains(&visited, &ip) {
            done = true;
        } else {
            let ghost vis0 = visited.deep_view();
            visited.push(subvec(&ip, 0, ip.len()));
            proof {
                assert(ip@.subrange(0, ip@.len() as int) =~= ip@);
                assert(visited.deep_view() =~~= vis0.push(ip@));
            }
            match agg_first(fis, &ip) {
                None => {
                    done = true;
                },
                Some(j) => {
                    let ghost g0 = globs.deep_view();
                    let m = &fis[j].imports;
                    proof {
                        assert(fis.deep_view()[j as int] == fis@[j as int].deep_view());
                    }
                    let eglobs = collect_prefixed_values(m, "__export_glob__", true);
                    append_glob_vec(&mut globs, &eglobs);
                    let mut key = str_to_chars("__export__");
                    let ghost k0 = key@;
                    crate::ir::append_chars(&mut key, &target);
                    assert(key@ =~= "__export__"@ + target@);
                    match m.lookup(chars_to_string(&key).as_str()) {
                        Some(rp) => {
                            let realv = str_to_chars(rp.as_str());
                            let pair = rsplit_path(&realv);
                            ip = pair.0;
                            target = pair.1;
                            fuel = fuel - 1;
                        },
                        None => {
                            done = true;
                        },
                    }
                },
            }
        }
    }
    (ip, target, globs)
}

/// The running argmax over candidates: higher score wins; an equal
/// score wins only with a lexicographically smaller id, so ties break
/// deterministically by symbol id.
pub open spec fn spec_pick_step(
    cands: Seq<Symbol>,
    from_file: Seq<char>,
    qualifier: Option<Seq<char>>,
    ip: Option<Seq<char>>,
    globs: Seq<Seq<char>>,
    is_method: bool,
    i: int,
    best: Option<int>,
) -> Option<int>
    decreases cands.len() - i,
{
    if i < 0 || i >= cands.len() {
        best
    } else {
        let nb = match best {
            Option::None => Option::Some(i),
            Option::Some(b) => {
                let si = spec_multi_score(from_file, qualifier, ip, globs, cands[i], is_method);
                let sb = spec_multi_score(from_file, qualifier, ip, globs, cands[b], is_method);
                if si > sb || (si == sb && lex_lt(cands[i].id.0@, cands[b].id.0@)) {
                    Option::Some(i)
                } else {
                    best
                }
            },
        };
        spec_pick_step(cands, from_file, qualifier, ip, globs, is_method, i + 1, nb)
    }
}

pub open spec fn spec_pick(
    cands: Seq<Symbol>,
    from_file: Seq<char>,
    qualifier: Option<Seq<char>>,
    ip: Option<Seq<char>>,
    globs: Seq<Seq<char>>,
    is_method: bool,
) -> Option<int> {
    spec_pick_step(cands, from_file, qualifier, ip, globs, is_method, 0, Option::None)
}

pub proof fn lemma_pick_step_range(
    cands: Seq<Symbol>,
    from_file: Seq<char>,
    qualifier: Option<Seq<char>>,
    ip: Option<Seq<char>>,
    globs: Seq<Seq<char>>,
    is_method: bool,
    i: int,
    best: Option<int>,
)
    requires
        best matches Some(b) ==> 0 <= b < cands.len(),
    ensures
        spec_pick_step(cands, from_file, qualifier, ip, globs, is_method, i, best) matches Some(p)
            ==> 0 <= p < cands.len(),
        best is Some ==> spec_pick_step(
            cands,
            from_file,
            qualifier,
            ip,
            globs,
            is_method,
            i,
            best,
        ) is Some,
    decreases cands.len() - i,
{
    if i < 0 || i >= cands.len() {
    } else {
        let nb = match best {
            Option::None => Option::Some(i),
            Option::Some(b) => {
                let si = spec_multi_score(from_file, qualifier, ip, globs, cands[i], is_method);
                let sb = spec_multi_score(from_file, qualifier, ip, globs, cands[b], is_method);
                if si > sb || (si == sb && lex_lt(cands[i].id.0@, cands[b].id.0@)) {
                    Option::Some(i)
                } else {
                    best
                }
            },
        };
        lemma_pick_step_range(cands, from_file, qualifier, ip, globs, is_method, i + 1, nb);
    }
}

/// Pick the best candidate by score, ties to the smallest id.
#[verifier::loop_isolation(false)]
fn pick_best(
    cands: &Vec<Symbol>,
    from_file: &Vec<char>,
    qualifier: &Option<Vec<char>>,
    ip: &Option<Vec<char>>,
    globs: &Vec<Vec<char>>,
    is_method: bool,
) -> (r: Option<usize>)
    ensures
        match r {
            Some(b) => spec_pick(
                cands@,
                from_file@,
                opt_chars_view(*qualifier),
                opt_chars_view(*ip),
                globs.deep_view(),
                is_method,
            ) == Option::Some(b as int) && b < cands@.len(),
            None => spec_pick(
                cands@,
                from_file@,
                opt_chars_view(*qualifier),
                opt_chars_view(*ip),
                globs.deep_view(),
                is_method,
            ) is None,
        },
{
    let ghost qv = opt_chars_view(*qualifier);
    let ghost ipv = opt_chars_view(*ip);
    let ghost gv = globs.deep_view();
    let mut best: Option<usize> = None;
    let mut best_score: i32 = 0;
    let mut i: usize = 0;
    while i < cands.len()
        invariant
            i <= cands@.len(),
            gv == globs.deep_view(),
            spec_pick(cands@, from_file@, qv, ipv, gv, is_method) == spec_pick_step(
                cands@,
                from_file@,
                qv,
                ipv,
                gv,
                is_method,
                i as int,
                match best {
                    None => Option::<int>::None,
                    Some(b) => Option::Some(b as int),
                },
            ),
            match best {
                None => i == 0,
                Some(b) => b < i && b < cands@.len() && best_score as int == spec_multi_score(
                    from_file@,
                    qv,
                    ipv,
                    gv,
                    cands@[b as int],
                    is_method,
                ),
            },
        decreases cands.len() - i,
    {
        let s = &cands[i];
        let sc = multi_score(from_file, qualifier, ip, globs, s, is_method);
        match best {
            None => {
                best = Some(i);
                best_score = sc;
            },
            Some(b) => {
                let take = if sc > best_score {
                    true
                } else if sc == best_score {
                    let idv = str_to_chars(s.id.0.as_str());
                    let bdv = str_to_chars(cands[b].id.0.as_str());
                    crate::strutil::lex_lt_chars(&idv, &bdv)
                } else {
                    false
                };
                if take {
                    best = Some(i);
                    best_score = sc;
                }
            },
        }
        i = i + 1;
    }
    best
}

/// Add each glob prefix not already present to the module hints.
pub open spec fn spec_add_hints(hints: Seq<Seq<char>>, globs: Seq<Seq<char>>, i: int) -> Seq<
    Seq<char>,
>
    decreases globs.len() - i,
{
    if i < 0 || i >= globs.len() {
        hints
    } else {
        spec_add_hints(
            if hints.contains(globs[i]) {
                hints
            } else {
                hints.push(globs[i])
            },
            globs,
            i + 1,
        )
    }
}

/// The callable symbols whose file matches one of the module hints.
pub open spec fn spec_hint_cands(syms: Seq<Symbol>, hints: Seq<Seq<char>>) -> Seq<Symbol> {
    syms.filter(
        |s: Symbol|
            is_callable(s.kind) && exists|k: int|
                0 <= k < hints.len() && spec_file_matches_module_path(s.file@, #[trigger] hints[k]),
    )
}

#[verifier::loop_isolation(false)]
fn add_hints(hints0: Vec<Vec<char>>, globs: &Vec<Vec<char>>) -> (r: Vec<Vec<char>>)
    ensures
        r.deep_view() == spec_add_hints(hints0.deep_view(), globs.deep_view(), 0),
{
    let ghost h0 = hints0.deep_view();
    let ghost gv = globs.deep_view();
    let mut hints = hints0;
    let mut i: usize = 0;
    while i < globs.len()
        invariant
            i <= globs@.len(),
            gv == globs.deep_view(),
            gv.len() == globs@.len(),
            spec_add_hints(h0, gv, 0) == spec_add_hints(hints.deep_view(), gv, i as int),
        decreases globs.len() - i,
    {
        let g = &globs[i];
        assert(g@ == gv[i as int]) by {
            assert(globs.deep_view()[i as int] == globs@[i as int].deep_view());
        }
        let ghost hprev = hints.deep_view();
        if !visited_contains(&hints, g) {
            hints.push(subvec(g, 0, g.len()));
            proof {
                assert(gv[i as int].subrange(0, gv[i as int].len() as int) =~= gv[i as int]);
                assert(hints.deep_view() =~~= hprev.push(gv[i as int]));
            }
        }
        i = i + 1;
    }
    hints
}

#[verifier::loop_isolation(false)]
fn hint_cands(syms: &Vec<Symbol>, hints: &Vec<Vec<char>>) -> (r: Vec<Symbol>)
    ensures
        r@ == spec_hint_cands(syms@, hints.deep_view()),
{
    let ghost hv = hints.deep_view();
    let mut r: Vec<Symbol> = Vec::new();
    let mut i: usize = 0;
    while i < syms.len()
        invariant
            i <= syms@.len(),
            hv == hints.deep_view(),
            hv.len() == hints@.len(),
            r@ == spec_hint_cands(syms@.subrange(0, i as int), hv),
        decreases syms.len() - i,
    {
        let ghost pref = syms@.subrange(0, i as int);
        let s = &syms[i];
        let callable = s.kind == SymbolKind::Function || s.kind == SymbolKind::Method;
        let mut matched = false;
        let fv = str_to_chars(s.file.as_str());
        let mut k: usize = 0;
        if callable {
            while k < hints.len()
                invariant
                    k <= hints@.len(),
                    hv == hints.deep_view(),
                    hv.len() == hints@.len(),
                    fv@ == syms@[i as int].file@,
                    matched ==> exists|j: int|
                        0 <= j < hv.len() && spec_file_matches_module_path(
                            syms@[i as int].file@,
                            #[trigger] hv[j],
                        ),
                    !matched ==> forall|j: int|
                        0 <= j < k ==> !spec_file_matches_module_path(
                            syms@[i as int].file@,
                            #[trigger] hv[j],
                        ),
                decreases hints.len() - k,
            {
                let h = &hints[k];
                assert(h@ == hv[k as int]) by {
                    assert(hints.deep_view()[k as int] == hints@[k as int].deep_view());
                }
                if file_matches_module_path(&fv, h) {
                    matched = true;
                }
                k = k + 1;
            }
        }
        if callable && matched {
            r.push(s.dup());
        }
        proof {
            let pref2 = syms@.subrange(0, i as int + 1);
            assert(pref2.drop_last() =~= pref);
            assert(pref2.last() == syms@[i as int]);
            reveal(Seq::filter);
            let p = |s: Symbol|
                is_callable(s.kind) && exists|j: int|
                    0 <= j < hv.len() && spec_file_matches_module_path(s.file@, #[trigger] hv[j]);
            assert(pref2.filter(p) == if p(syms@[i as int]) {
                pref.filter(p).push(syms@[i as int])
            } else {
                pref.filter(p)
            });
            if callable && matched {
                assert(p(syms@[i as int]));
            } else {
                assert(!p(syms@[i as int]));
            }
        }
        i = i + 1;
    }
    assert(syms@.subrange(0, syms@.len() as int) =~= syms@);
    r
}

/// Resolve one call site, per the scoring algorithm: locate the
/// enclosing source symbol, normalize the qualifier, resolve aliases
/// and re-exports, then pick the best-scoring callable candidate.
pub open spec fn spec_resolve_one(syms: Seq<Symbol>, fis: Seq<FileImportsV>, r: URefV) -> Option<
    ReferenceV,
> {
    match spec_enclosing_idx(syms, r.file, r.line) {
        Option::None => Option::None,
        Option::Some(fi) => {
            let from_sym = syms[fi];
            let entries = spec_imports_entries_of(fis, r.file);
            let m = map_of(entries);
            let from_mod = spec_module_path_for_file(r.file);
            let nq = match r.qualifier {
                Option::None => Option::None,
                Option::Some(q) => spec_normalize_qualifier(q, entries, from_mod),
            };
            let qualifier = if nq is Some {
                nq
            } else {
                r.qualifier
            };
            let globs0 = spec_globs_of(entries);
            let pair = if qualifier is None && m.contains_key(r.name) {
                let full = m[r.name];
                let prior = spec_prefix_seg(full);
                let ipx = if contains_seq(prior, "self::"@) || contains_seq(prior, "super::"@)
                    || contains_seq(prior, "crate::"@) {
                    spec_expand_relative(from_mod, prior)
                } else {
                    prior
                };
                (Option::Some(ipx), spec_last_seg(full))
            } else {
                (Option::<Seq<char>>::None, r.name)
            };
            let trip = match pair.0 {
                Option::None => (pair.0, pair.1, globs0),
                Option::Some(ipv) => {
                    let c = spec_chase(fis, ipv, pair.1, globs0, Seq::empty(), 10);
                    (Option::Some(c.0), c.1, c.2)
                },
            };
            let cands0 = crate::ir::reference::spec_named_of(syms, trip.1);
            let c1 = match qualifier {
                Option::Some(q) => {
                    let f = spec_qual_filtered(cands0, q);
                    if f.len() == 0 {
                        cands0
                    } else {
                        f
                    }
                },
                Option::None => cands0,
            };
            let callable = spec_callable_of(c1);
            let best = match spec_pick(callable, r.file, qualifier, trip.0, trip.2, r.is_method) {
                Option::Some(b) => Option::Some(callable[b]),
                Option::None => {
                    let hints0 = match qualifier {
                        Option::Some(q) => seq![q],
                        Option::None => Seq::<Seq<char>>::empty(),
                    };
                    let hints1 = match trip.0 {
                        Option::Some(p) => if p.len() > 0 {
                            hints0.push(p)
                        } else {
                            hints0
                        },
                        Option::None => hints0,
                    };
                    let hints = spec_add_hints(hints1, trip.2, 0);
                    if hints.len() > 0 {
                        let c2 = spec_hint_cands(syms, hints);
                        match spec_pick(c2, r.file, qualifier, trip.0, trip.2, r.is_method) {
                            Option::Some(b) => Option::Some(c2[b]),
                            Option::None => Option::None,
                        }
                    } else {
                        Option::None
                    }
                },
            };
            match best {
                Option::None => Option::None,
                Option::Some(t) => Option::Some(
                    ReferenceV {
                        from: from_sym.id.0@,
                        to: t.id.0@,
                        kind: RefKind::Call,
                        file: r.file,
                        line: r.line,
                    },
                ),
            }
        },
    }
}

/// What every resolved edge satisfies: it is a call edge at the site's
/// file and line, its source is the enclosing symbol there, and its
/// target is a declared function or method.
pub open spec fn spec_edge_sound(syms: Seq<Symbol>, rv: ReferenceV) -> bool {
    &&& rv.kind == RefKind::Call
    &&& (spec_enclosing_idx(syms, rv.file, rv.line) matches Option::Some(b) && 0 <= b < syms.len()
        && syms[b].id.0@ == rv.from)
    &&& exists|j: int|
        0 <= j < syms.len() && (#[trigger] syms[j]).id.0@ == rv.to && is_callable(syms[j].kind)
}

pub proof fn lemma_enc_step_range(
    syms: Seq<Symbol>,
    file: Seq<char>,
    line: u32,
    i: int,
    best: Option<int>,
)
    requires
        best matches Option::Some(b) ==> 0 <= b < syms.len(),
    ensures
        crate::ir::reference::spec_enc_step(syms, file, line, i, best) matches Option::Some(b2)
            ==> 0 <= b2 < syms.len(),
    decreases syms.len() - i,
{
    if i < 0 || i >= syms.len() {
    } else {
        let nb = if crate::ir::reference::sym_contains(syms[i], file, line) {
            match best {
                Option::None => Option::Some(i),
                Option::Some(b) => if crate::ir::reference::rsize(syms[i])
                    < crate::ir::reference::rsize(syms[b]) {
                    Option::Some(i)
                } else {
                    best
                },
            }
        } else {
            best
        };
        lemma_enc_step_range(syms, file, line, i + 1, nb);
    }
}

/// A produced edge is sound: call kind, enclosing source, callable
/// target.
pub proof fn lemma_resolve_one_sound(syms: Seq<Symbol>, fis: Seq<FileImportsV>, r: URefV)
    requires
        spec_resolve_one(syms, fis, r) is Some,
    ensures
        ({
            let rv = spec_resolve_one(syms, fis, r)->Some_0;
            rv.file == r.file && rv.line == r.line && spec_edge_sound(syms, rv)
        }),
{
    let rv = spec_resolve_one(syms, fis, r)->Some_0;
    lemma_enc_step_range(syms, r.file, r.line, 0, Option::None);
    match spec_enclosing_idx(syms, r.file, r.line) {
        Option::None => {
            assert(false);
        },
        Option::Some(fi) => {
            let from_sym = syms[fi];
            let entries = spec_imports_entries_of(fis, r.file);
            let m = map_of(entries);
            let from_mod = spec_module_path_for_file(r.file);
            let nq = match r.qualifier {
                Option::None => Option::<Seq<char>>::None,
                Option::Some(q) => spec_normalize_qualifier(q, entries, from_mod),
            };
            let qualifier = if nq is Some {
                nq
            } else {
                r.qualifier
            };
            let globs0 = spec_globs_of(entries);
            let pair = if qualifier is None && m.contains_key(r.name) {
                let full = m[r.name];
                let prior = spec_prefix_seg(full);
                let ipx = if contains_seq(prior, "self::"@) || contains_seq(prior, "super::"@)
                    || contains_seq(prior, "crate::"@) {
                    spec_expand_relative(from_mod, prior)
                } else {
                    prior
                };
                (Option::Some(ipx), spec_last_seg(full))
            } else {
                (Option::<Seq<char>>::None, r.name)
            };
            let trip = match pair.0 {
                Option::None => (pair.0, pair.1, globs0),
                Option::Some(ipv) => {
                    let c = spec_chase(fis, ipv, pair.1, globs0, Seq::empty(), 10);
                    (Option::Some(c.0), c.1, c.2)
                },
            };
            let cands0 = crate::ir::reference::spec_named_of(syms, trip.1);
            let c1 = match qualifier {
                Option::Some(q) => {
                    let f = spec_qual_filtered(cands0, q);
                    if f.len() == 0 {
                        cands0
                    } else {
                        f
                    }
                },
                Option::None => cands0,
            };
            let callable = spec_callable_of(c1);
            match spec_pick(callable, r.file, qualifier, trip.0, trip.2, r.is_method) {
                Option::Some(b) => {
                    lemma_pick_step_range(
                        callable,
                        r.file,
                        qualifier,
                        trip.0,
                        trip.2,
                        r.is_method,
                        0,
                        Option::None,
                    );
                    let t = callable[b];
                    c1.lemma_filter_pred(|s: Symbol| is_callable(s.kind), b);
                    assert(is_callable(t.kind));
                    assert(callable.contains(t));
                    c1.lemma_filter_contains_rev(|s: Symbol| is_callable(s.kind), t);
                    assert(c1.contains(t));
                    match qualifier {
                        Option::Some(q) => {
                            let f = spec_qual_filtered(cands0, q);
                            if f.len() != 0 {
                                cands0.lemma_filter_contains_rev(
                                    |s: Symbol| spec_file_matches_module_path(s.file@, q),
                                    t,
                                );
                            }
                        },
                        Option::None => {},
                    }
                    assert(cands0.contains(t));
                    syms.lemma_filter_contains_rev(|s: Symbol| s.name@ == trip.1, t);
                    assert(syms.contains(t));
                    let j = choose|j: int| 0 <= j < syms.len() && syms[j] == t;
                    assert(syms[j].id.0@ == rv.to && is_callable(syms[j].kind));
                },
                Option::None => {
                    let hints0 = match qualifier {
                        Option::Some(q) => seq![q],
                        Option::None => Seq::<Seq<char>>::empty(),
                    };
                    let hints1 = match trip.0 {
                        Option::Some(p) => if p.len() > 0 {
                            hints0.push(p)
                        } else {
                            hints0
                        },
                        Option::None => hints0,
                    };
                    let hints = spec_add_hints(hints1, trip.2, 0);
                    let c2 = spec_hint_cands(syms, hints);
                    match spec_pick(c2, r.file, qualifier, trip.0, trip.2, r.is_method) {
                        Option::Some(b) => {
                            lemma_pick_step_range(
                                c2,
                                r.file,
                                qualifier,
                                trip.0,
                                trip.2,
                                r.is_method,
                                0,
                                Option::None,
                            );
                            let t = c2[b];
                            let p = |s: Symbol|
                                is_callable(s.kind) && exists|k: int|
                                    0 <= k < hints.len() && spec_file_matches_module_path(
                                        s.file@,
                                        #[trigger] hints[k],
                                    );
                            syms.lemma_filter_pred(p, b);
                            assert(is_callable(t.kind));
                            syms.lemma_filter_contains_rev(p, t);
                            assert(syms.contains(t));
                            let j = choose|j: int| 0 <= j < syms.len() && syms[j] == t;
                            assert(syms[j].id.0@ == rv.to && is_callable(syms[j].kind));
                        },
                        Option::None => {
                            assert(false);
                        },
                    }
                },
            }
        },
    }
}

/// Resolve one unresolved call site to an edge, if a candidate wins.
#[verifier::loop_isolation(false)]
#[verifier::rlimit(100)]
pub fn resolve_one(index: &SymbolIndex, uref: &UnresolvedRef, fis: &Vec<FileImports>) -> (r:
    Option<Reference>)
    ensures
        match r {
            Some(e) => spec_resolve_one(index.symbols@, fis.deep_view(), uref@) matches Some(rv)
                && e@ == rv,
            None => spec_resolve_one(index.symbols@, fis.deep_view(), uref@) is None,
        },
{
    let ghost syms = index.symbols@;
    let ghost fv = fis.deep_view();
    let ghost rv0 = uref@;
    let from_sym = match index.enclosing_symbol(uref.file.as_str(), uref.line) {
        None => {
            return None;
        },
        Some(s) => s,
    };
    let m = imports_entries_of(fis, uref.file.as_str());
    let ghost entries = spec_imports_entries_of(fv, rv0.file);
    let from_mod = module_path_for_file(uref.file.as_str());
    let nq: Option<String> = match &uref.qualifier {
        None => None,
        Some(q) => normalize_qualifier_with_imports(q.as_str(), &m, from_mod.as_str()),
    };
    let qualifier: Option<Vec<char>> = match &nq {
        Some(x) => Some(str_to_chars(x.as_str())),
        None => match &uref.qualifier {
            Some(q) => Some(str_to_chars(q.as_str())),
            None => None,
        },
    };
    let globs0 = collect_prefixed_values(&m, "__glob__", false);
    let lit_self = str_to_chars("self::");
    let lit_super = str_to_chars("super::");
    let lit_crate = str_to_chars("crate::");
    proof {
        reveal_strlit("self::");
        reveal_strlit("super::");
        reveal_strlit("crate::");
    }
    let looked = match &qualifier {
        Some(_) => None,
        None => m.lookup(uref.name.as_str()),
    };
    let (ip_opt, target): (Option<Vec<char>>, Vec<char>) = match looked {
        Some(full) => {
            let fullv = str_to_chars(full.as_str());
            let pair = rsplit_path(&fullv);
            let prior = pair.0;
            let has_rel = contains_sub(&prior, &lit_self) || contains_sub(&prior, &lit_super)
                || contains_sub(&prior, &lit_crate);
            let ipx: Vec<char> = if has_rel {
                str_to_chars(
                    expand_relative_path(
                        from_mod.as_str(),
                        chars_to_string(&prior).as_str(),
                    ).as_str(),
                )
            } else {
                prior
            };
            (Some(ipx), pair.1)
        },
        None => (None, str_to_chars(uref.name.as_str())),
    };
    let (ip2, target2, globs2): (Option<Vec<char>>, Vec<char>, Vec<Vec<char>>) = match ip_opt {
        None => (None, target, globs0),
        Some(ipv) => {
            let c = chase(fis, ipv, target, globs0);
            (Some(c.0), c.1, c.2)
        },
    };
    let cands0 = index.symbols_named(chars_to_string(&target2).as_str());
    let c1: Vec<Symbol> = match &qualifier {
        Some(q) => {
            let f = filter_by_qual(&cands0, q);
            if f.len() == 0 {
                cands0
            } else {
                f
            }
        },
        None => cands0,
    };
    let callable = filter_callable(&c1);
    let from_filev = str_to_chars(uref.file.as_str());
    let best_sym: Option<Symbol> = match pick_best(
        &callable,
        &from_filev,
        &qualifier,
        &ip2,
        &globs2,
        uref.is_method,
    ) {
        Some(b) => Some(callable[b].dup()),
        None => {
            let mut hints: Vec<Vec<char>> = Vec::new();
            proof {
                assert(hints.deep_view() =~~= Seq::<Seq<char>>::empty());
            }
            match &qualifier {
                Some(q) => {
                    let ghost hprev = hints.deep_view();
                    hints.push(subvec(q, 0, q.len()));
                    proof {
                        assert(q@.subrange(0, q@.len() as int) =~= q@);
                        assert(hints.deep_view() =~~= hprev.push(q@));
                        assert(hints.deep_view() =~~= seq![q@]);
                    }
                },
                None => {},
            }
            match &ip2 {
                Some(p) => {
                    if p.len() > 0 {
                        let ghost hprev = hints.deep_view();
                        hints.push(subvec(p, 0, p.len()));
                        proof {
                            assert(p@.subrange(0, p@.len() as int) =~= p@);
                            assert(hints.deep_view() =~~= hprev.push(p@));
                        }
                    }
                },
                None => {},
            }
            let hints2 = add_hints(hints, &globs2);
            if hints2.len() > 0 {
                let c2 = hint_cands(&index.symbols, &hints2);
                proof {
                    assert(hints2.deep_view().len() == hints2@.len());
                }
                match pick_best(&c2, &from_filev, &qualifier, &ip2, &globs2, uref.is_method) {
                    Some(b) => Some(c2[b].dup()),
                    None => None,
                }
            } else {
                proof {
                    assert(hints2.deep_view().len() == hints2@.len());
                }
                None
            }
        },
    };
    match best_sym {
        None => None,
        Some(t) => Some(
            Reference {
                from: from_sym.id.dup(),
                to: t.id.dup(),
                kind: RefKind::Call,
                file: uref.file.clone(),
                line: uref.line,
            },
        ),
    }
}

/// Resolve every call site in order, keeping the successful edges.
pub open spec fn spec_resolve_all(
    syms: Seq<Symbol>,
    fis: Seq<FileImportsV>,
    urefs: Seq<URefV>,
    i: int,
    acc: Seq<ReferenceV>,
) -> Seq<ReferenceV>
    decreases urefs.len() - i,
{
    if i < 0 || i >= urefs.len() {
        acc
    } else {
        match spec_resolve_one(syms, fis, urefs[i]) {
            Option::None => spec_resolve_all(syms, fis, urefs, i + 1, acc),
            Option::Some(rv) => spec_resolve_all(syms, fis, urefs, i + 1, acc.push(rv)),
        }
    }
}

/// Turn unresolved call sites into resolved edges.
///
/// Besides the exact result, every produced edge is sound: a call edge
/// whose source is the enclosing symbol at its site and whose target
/// is a declared function or method.
#[verifier::loop_isolation(false)]
pub fn resolve_references(
    index: &SymbolIndex,
    urefs: &Vec<UnresolvedRef>,
    file_imports: &Vec<FileImports>,
) -> (r: Vec<Reference>)
    ensures
        r.deep_view() == spec_resolve_all(
            index.symbols@,
            file_imports.deep_view(),
            urefs.deep_view(),
            0,
            Seq::empty(),
        ),
        forall|k: int|
            0 <= k < r.deep_view().len() ==> spec_edge_sound(
                index.symbols@,
                #[trigger] r.deep_view()[k],
            ),
{
    let ghost syms = index.symbols@;
    let ghost fv = file_imports.deep_view();
    let ghost uv = urefs.deep_view();
    let mut out: Vec<Reference> = Vec::new();
    let mut i: usize = 0;
    proof {
        assert(out.deep_view() =~~= Seq::<ReferenceV>::empty());
    }
    while i < urefs.len()
        invariant
            i <= urefs@.len(),
            fv == file_imports.deep_view(),
            uv == urefs.deep_view(),
            uv.len() == urefs@.len(),
            spec_resolve_all(syms, fv, uv, 0, Seq::empty()) == spec_resolve_all(
                syms,
                fv,
                uv,
                i as int,
                out.deep_view(),
            ),
            forall|k: int|
                0 <= k < out.deep_view().len() ==> spec_edge_sound(
                    syms,
                    #[trigger] out.deep_view()[k],
                ),
        decreases urefs.len() - i,
    {
        let u = &urefs[i];
        assert(u@ == uv[i as int]) by {
            assert(urefs.deep_view()[i as int] == urefs@[i as int].deep_view());
        }
        let ghost o0 = out.deep_view();
        match resolve_one(index, u, file_imports) {
            None => {},
            Some(e) => {
                proof {
                    lemma_resolve_one_sound(syms, fv, uv[i as int]);
                }
                out.push(e);
                proof {
                    assert(out.deep_view() =~~= o0.push(
                        spec_resolve_one(syms, fv, uv[i as int])->Some_0,
                    ));
                }
            },
        }
        i = i + 1;
    }
    out
}

#[derive(Debug, Clone, Copy, PartialEq, Eq, Structural)]
pub enum ImpactDirection {
    Callers,
    Callees,
    Both,
}

/// Options of the traversal: direction, depth bound, whether to emit
/// the justifying edges, and directory prefixes to ignore.
#[derive(Debug, Clone, PartialEq, Eq)]
pub struct ImpactOptions {
    pub direction: ImpactDirection,
    pub max_depth: Option<usize>,
    pub with_edges: Option<bool>,
    pub ignore_dirs: Vec<String>,
}

/// Symbols of one file, for the per-file grouping of the output.
#[derive(Debug, Clone, PartialEq, Eq)]
pub struct FileGroup {
    pub file: String,
    pub symbols: Vec<Symbol>,
}

#[derive(Debug, Clone, PartialEq, Eq)]
pub struct ImpactOutput {
    pub changed_symbols: Vec<Symbol>,
    pub impacted_symbols: Vec<Symbol>,
    pub impacted_files: Vec<String>,
    pub edges: Vec<Reference>,
    pub impacted_by_file: Vec<FileGroup>,
}

/// A path lies under one of the ignored directory prefixes.
pub open spec fn spec_path_is_ignored(path: Seq<char>, dirs: Seq<Seq<char>>) -> bool {
    exists|i: int|
        0 <= i < dirs.len() && (#[trigger] dirs[i]).len() > 0 && (path == dirs[i] || is_prefix(
            dirs[i] + "/"@,
            path,
        ))
}

/// Whether a path is filtered out by the ignore list.
#[verifier::loop_isolation(false)]
pub fn path_is_ignored(path: &str, ignore_dirs: &Vec<String>) -> (r: bool)
    ensures
        r == spec_path_is_ignored(path@, ignore_dirs.deep_view()),
{
    let ghost dv = ignore_dirs.deep_view();
    let pv = str_to_chars(path);
    let mut i: usize = 0;
    while i < ignore_dirs.len()
        invariant
            i <= ignore_dirs@.len(),
            dv == ignore_dirs.deep_view(),
            dv.len() == ignore_dirs@.len(),
            pv@ == path@,
            forall|j: int|
                0 <= j < i ==> !((#[trigger] dv[j]).len() > 0 && (path@ == dv[j] || is_prefix(
                    dv[j] + "/"@,
                    path@,
                ))),
        decreases ignore_dirs.len() - i,
    {
        let d = &ignore_dirs[i];
        assert(d@ == dv[i as int]) by {
            assert(ignore_dirs.deep_view()[i as int] == ignore_dirs@[i as int].deep_view());
        }
        let dvv = str_to_chars(d.as_str());
        if dvv.len() > 0 {
            let mut dslash = subvec(&dvv, 0, dvv.len());
            let ghost d0 = dslash@;
            dslash.push('/');
            proof {
                assert(dvv@.subrange(0, dvv@.len() as int) =~= dvv@);
                assert(dslash@ =~= dv[i as int] + "/"@) by {
                    reveal_strlit("/");
                }
            }
            if eq_chars(&pv, &dvv) || starts_with(&pv, &dslash) {
                assert(spec_path_is_ignored(path@, dv));
                return true;
            }
        }
        i = i + 1;
    }
    false
}

/// One step along an edge in the chosen direction, out of `prev`.
pub open spec fn spec_edge_succ(
    e: Reference,
    dir: ImpactDirection,
    prev: Set<Seq<char>>,
    b: Seq<char>,
) -> bool {
    match dir {
        ImpactDirection::Callers => prev.contains(e.to.0@) && b == e.from.0@,
        ImpactDirection::Callees => prev.contains(e.from.0@) && b == e.to.0@,
        ImpactDirection::Both => (prev.contains(e.to.0@) && b == e.from.0@) || (prev.contains(
            e.from.0@,
        ) && b == e.to.0@),
    }
}

/// The ids reachable from the seed set within `k` expansion rounds.
pub open spec fn spec_reach(
    refs: Seq<Reference>,
    dir: ImpactDirection,
    seeds: Set<Seq<char>>,
    k: nat,
) -> Set<Seq<char>>
    decreases k,
{
    if k == 0 {
        seeds
    } else {
        let prev = spec_reach(refs, dir, seeds, (k - 1) as nat);
        prev + Set::new(
            |b: Seq<char>|
                exists|j: int| 0 <= j < refs.len() && spec_edge_succ(#[trigger] refs[j], dir, prev, b),
        )
    }
}

/// The visited set of the traversal: expansion bounded by the depth
/// option, an absent bound meaning the machine's own limit.
pub open spec fn spec_visited(
    refs: Seq<Reference>,
    dir: ImpactDirection,
    seeds: Set<Seq<char>>,
    max_depth: Option<usize>,
) -> Set<Seq<char>> {
    match max_depth {
        Option::Some(d) => spec_reach(refs, dir, seeds, d as nat),
        Option::None => spec_reach(refs, dir, seeds, usize::MAX as nat),
    }
}

/// Once a round adds nothing, every later round agrees.
pub proof fn lemma_reach_stable(
    refs: Seq<Reference>,
    dir: ImpactDirection,
    seeds: Set<Seq<char>>,
    i: nat,
    k: nat,
)
    requires
        spec_reach(refs, dir, seeds, (i + 1) as nat) == spec_reach(refs, dir, seeds, i),
        i <= k,
    ensures
        spec_reach(refs, dir, seeds, k) == spec_reach(refs, dir, seeds, i),
    decreases k,
{
    if k > i {
        lemma_reach_stable(refs, dir, seeds, i, (k - 1) as nat);
        assert(spec_reach(refs, dir, seeds, k) == spec_reach(refs, dir, seeds, (k - 1) as nat)
            + Set::new(
            |b: Seq<char>|
                exists|j: int|
                    0 <= j < refs.len() && spec_edge_succ(
                        #[trigger] refs[j],
                        dir,
                        spec_reach(refs, dir, seeds, (k - 1) as nat),
                        b,
                    ),
        ));
    }
}

/// The seed ids that survive the ignore filter.
pub open spec fn spec_kept_seeds(changed: Seq<Symbol>, dirs: Seq<Seq<char>>) -> Seq<Symbol> {
    changed.filter(|s: Symbol| !spec_path_is_ignored(s.file@, dirs))
}

/// The id set of a symbol sequence.
pub open spec fn spec_id_set(syms: Seq<Symbol>) -> Set<Seq<char>> {
    Set::new(|x: Seq<char>| exists|i: int| 0 <= i < syms.len() && (#[trigger] syms[i]).id.0@ == x)
}

/// Ids in strictly increasing lexicographic order.
pub open spec fn spec_sorted_ids(s: Seq<Symbol>) -> bool {
    forall|i: int, j: int| 0 <= i < j < s.len() ==> lex_lt(s[i].id.0@, s[j].id.0@)
}

/// Strings in strictly increasing lexicographic order.
pub open spec fn spec_sorted_strs(s: Seq<Seq<char>>) -> bool {
    forall|i: int, j: int| 0 <= i < j < s.len() ==> lex_lt(s[i], s[j])
}

#[verifier::loop_isolation(false)]
fn contains_id(v: &Vec<String>, x: &str) -> (r: bool)
    ensures
        r == v.deep_view().contains(x@),
{
    let ghost vv = v.deep_view();
    let mut i: usize = 0;
    while i < v.len()
        invariant
            i <= v@.len(),
            vv == v.deep_view(),
            vv.len() == v@.len(),
            forall|j: int| 0 <= j < i ==> vv[j] != x@,
        decreases v.len() - i,
    {
        assert(v@[i as int]@ == vv[i as int]) by {
            assert(v.deep_view()[i as int] == v@[i as int].deep_view());
        }
        if str_eq(v[i].as_str(), x) {
            assert(vv.contains(x@));
            return true;
        }
        i = i + 1;
    }
    assert(!vv.contains(x@));
    false
}

/// The set of ids a string sequence holds.
pub open spec fn seq_set(v: Seq<Seq<char>>) -> Set<Seq<char>> {
    Set::new(|x: Seq<char>| v.contains(x))
}

/// Pushing a string extends the held set by exactly that element.
pub proof fn lemma_seq_set_push(v: Seq<Seq<char>>, x: Seq<char>)
    ensures
        seq_set(v.push(x)) == seq_set(v).insert(x),
{
    assert forall|y: Seq<char>| seq_set(v.push(x)).contains(y) implies seq_set(v).insert(
        x,
    ).contains(y) by {
        let k = choose|k: int| 0 <= k < v.push(x).len() && v.push(x)[k] == y;
        if k < v.len() {
            assert(v[k] == y);
        }
    }
    assert forall|y: Seq<char>| seq_set(v).insert(x).contains(y) implies seq_set(
        v.push(x),
    ).contains(y) by {
        if y == x {
            assert(v.push(x)[v.len() as int] == y);
        } else {
            let k = choose|k: int| 0 <= k < v.len() && v[k] == y;
            assert(v.push(x)[k] == y);
        }
    }
    assert(seq_set(v.push(x)) =~= seq_set(v).insert(x));
}

/// Add all successors of the visited set along the edges; reports
/// whether anything new appeared.
#[verifier::loop_isolation(false)]
#[verifier::rlimit(100)]
fn expand(refs: &Vec<Reference>, dir: ImpactDirection, visited: &mut Vec<String>) -> (added: bool)
    ensures
        ({
            let prev = seq_set(old(visited).deep_view());
            let step = Set::new(
                |b: Seq<char>|
                    exists|j: int|
                        0 <= j < refs@.len() && spec_edge_succ(#[trigger] refs@[j], dir, prev, b),
            );
            &&& seq_set(final(visited).deep_view()) == prev + step
            &&& (!added ==> final(visited).deep_view() == old(visited).deep_view())
        }),
{
    let ghost prev = seq_set(old(visited).deep_view());
    let mut base: Vec<String> = Vec::new();
    let mut bi: usize = 0;
    while bi < visited.len()
        invariant
            bi <= visited@.len(),
            visited.deep_view() == old(visited).deep_view(),
            base.deep_view() == visited.deep_view().subrange(0, bi as int),
        decreases visited.len() - bi,
    {
        base.push(visited[bi].clone());
        proof {
            assert(base.deep_view() =~~= visited.deep_view().subrange(0, bi as int + 1));
        }
        bi = bi + 1;
    }
    proof {
        assert(base.deep_view() =~~= visited.deep_view());
    }
    let mut added = false;
    let mut j: usize = 0;
    while j < refs.len()
        invariant
            j <= refs@.len(),
            base.deep_view() == old(visited).deep_view(),
            prev == seq_set(old(visited).deep_view()),
            !added ==> visited.deep_view() == old(visited).deep_view(),
            // everything old is still there
            forall|x: Seq<char>| prev.contains(x) ==> seq_set(visited.deep_view()).contains(x),
            // everything new has a witness edge
            forall|x: Seq<char>|
                seq_set(visited.deep_view()).contains(x) && !prev.contains(x)
                    ==> exists|j2: int|
                    0 <= j2 < refs@.len() && spec_edge_succ(#[trigger] refs@[j2], dir, prev, x),
            // processed edges have contributed their successors
            forall|j2: int, b: Seq<char>|
                0 <= j2 < j && #[trigger] spec_edge_succ(refs@[j2], dir, prev, b) ==> seq_set(
                    visited.deep_view(),
                ).contains(b),
        decreases refs.len() - j,
    {
        let e = &refs[j];
        assert(e@ == refs.deep_view()[j as int]) by {
            assert(refs.deep_view()[j as int] == refs@[j as int].deep_view());
        }
        let check_callers = match dir {
            ImpactDirection::Callers => true,
            ImpactDirection::Callees => false,
            ImpactDirection::Both => true,
        };
        let check_callees = match dir {
            ImpactDirection::Callers => false,
            ImpactDirection::Callees => true,
            ImpactDirection::Both => true,
        };
        if check_callers {
            if contains_id(&base, e.to.0.as_str()) && !contains_id(visited, e.from.0.as_str()) {
                let ghost v0 = visited.deep_view();
                visited.push(e.from.0.clone());
                added = true;
                proof {
                    assert(visited.deep_view() =~~= v0.push(refs@[j as int].from.0@));
                    lemma_seq_set_push(v0, refs@[j as int].from.0@);
                    assert(spec_edge_succ(refs@[j as int], dir, prev, refs@[j as int].from.0@));
                }
            }
        }
        if check_callees {
            if contains_id(&base, e.from.0.as_str()) && !contains_id(visited, e.to.0.as_str()) {
                let ghost v0 = visited.deep_view();
                visited.push(e.to.0.clone());
                added = true;
                proof {
                    assert(visited.deep_view() =~~= v0.push(refs@[j as int].to.0@));
                    lemma_seq_set_push(v0, refs@[j as int].to.0@);
                    assert(spec_edge_succ(refs@[j as int], dir, prev, refs@[j as int].to.0@));
                }
            }
        }
        proof {
            // edge j is now fully contributed
            assert forall|b: Seq<char>|
                spec_edge_succ(refs@[j as int], dir, prev, b) implies seq_set(
                visited.deep_view(),
            ).contains(b) by {
                match dir {
                    ImpactDirection::Callers => {
                        assert(b == refs@[j as int].from.0@);
                    },
                    ImpactDirection::Callees => {
                        assert(b == refs@[j as int].to.0@);
                    },
                    ImpactDirection::Both => {},
                }
            }
        }
        j = j + 1;
    }
    proof {
        let step = Set::new(
            |b: Seq<char>|
                exists|j2: int|
                    0 <= j2 < refs@.len() && spec_edge_succ(#[trigger] refs@[j2], dir, prev, b),
        );
        assert(seq_set(visited.deep_view()) =~= prev + step);
    }
    added
}

/// Insert a symbol into an id-sorted vector unless its id is present.
#[verifier::loop_isolation(false)]
#[verifier::rlimit(60)]
fn insert_sorted_symbol(v: &mut Vec<Symbol>, s: Symbol)
    requires
        spec_sorted_ids(old(v)@),
    ensures
        spec_sorted_ids(final(v)@),
        spec_id_set(final(v)@) == spec_id_set(old(v)@).insert(s.id.0@),
        forall|k: int|
            0 <= k < final(v)@.len() ==> old(v)@.contains(#[trigger] final(v)@[k]) || final(v)@[k]
                == s,
        forall|k: int| 0 <= k < old(v)@.len() ==> final(v)@.contains(#[trigger] old(v)@[k]),
{
    let sid = str_to_chars(s.id.0.as_str());
    let mut p: usize = 0;
    while p < v.len()
        invariant
            p <= v@.len(),
            sid@ == s.id.0@,
            spec_sorted_ids(v@),
            v@ == old(v)@,
            forall|k: int| 0 <= k < p ==> lex_lt((#[trigger] v@[k]).id.0@, s.id.0@),
        decreases v.len() - p,
    {
        let vid = str_to_chars(v[p].id.0.as_str());
        if eq_chars(&vid, &sid) {
            proof {
                assert(v@[p as int].id.0@ == s.id.0@);
                assert(spec_id_set(v@).insert(s.id.0@) =~= spec_id_set(v@));
            }
            return;
        }
        if crate::strutil::lex_lt_chars(&sid, &vid) {
            let ghost v0 = v@;
            v.insert(p, s);
            proof {
                assert(v@.len() == v0.len() + 1);
                assert(forall|k: int| 0 <= k < p ==> v@[k] == v0[k]);
                assert(v@[p as int] == s);
                assert(forall|k: int| p < k < v@.len() ==> v@[k] == v0[k - 1]);
                assert forall|i: int, j: int| 0 <= i < j < v@.len() implies lex_lt(
                    v@[i].id.0@,
                    v@[j].id.0@,
                ) by {
                    if i < p && j == p {
                    } else if i == p && j > p {
                        if j - 1 > p - 1 && p as int <= j - 1 {
                            if p as int == j - 1 {
                            } else {
                                crate::strutil::lemma_lex_trans(
                                    s.id.0@,
                                    v0[p as int].id.0@,
                                    v0[j - 1].id.0@,
                                );
                            }
                        }
                    } else if i < p && j > p {
                    } else {
                    }
                }
                assert(spec_id_set(v@) =~= spec_id_set(v0).insert(s.id.0@)) by {
                    assert forall|x: Seq<char>| spec_id_set(v@).contains(x) implies spec_id_set(
                        v0,
                    ).insert(s.id.0@).contains(x) by {
                        let k = choose|k: int| 0 <= k < v@.len() && v@[k].id.0@ == x;
                        if k < p {
                            assert(v0[k].id.0@ == x);
                        } else if k == p {
                        } else {
                            assert(v0[k - 1].id.0@ == x);
                        }
                    }
                    assert forall|x: Seq<char>|
                        spec_id_set(v0).insert(s.id.0@).contains(x) implies spec_id_set(
                        v@,
                    ).contains(x) by {
                        if x == s.id.0@ {
                            assert(v@[p as int].id.0@ == x);
                        } else {
                            let k = choose|k: int| 0 <= k < v0.len() && v0[k].id.0@ == x;
                            if k < p {
                                assert(v@[k].id.0@ == x);
                            } else {
                                assert(v@[k + 1].id.0@ == x);
                            }
                        }
                    }
                }
                assert forall|k: int| 0 <= k < v@.len() implies v0.contains(#[trigger] v@[k])
                    || v@[k] == s by {
                    if k < p {
                        assert(v@[k] == v0[k]);
                        assert(v0.contains(v0[k]));
                    } else if k > p {
                        assert(v@[k] == v0[k - 1]);
                        assert(v0.contains(v0[k - 1]));
                    }
                }
                assert forall|k: int| 0 <= k < v0.len() implies v@.contains(#[trigger] v0[k]) by {
                    if k < p {
                        assert(v@[k] == v0[k]);
                    } else {
                        assert(v@[k + 1] == v0[k]);
                    }
                }
            }
            return;
        }
        proof {
            crate::strutil::lemma_lex_total(s.id.0@, v@[p as int].id.0@);
        }
        p = p + 1;
    }
    let ghost v0 = v@;
    v.push(s);
    proof {
        assert(v@ =~= v0.push(s));
        assert forall|i: int, j: int| 0 <= i < j < v@.len() implies lex_lt(
            v@[i].id.0@,
            v@[j].id.0@,
        ) by {
            if j == v@.len() - 1 {
                assert(lex_lt(v0[i].id.0@, s.id.0@));
            }
        }
        assert(spec_id_set(v@) =~= spec_id_set(v0).insert(s.id.0@)) by {
            assert forall|x: Seq<char>| spec_id_set(v@).contains(x) implies spec_id_set(v0).insert(
                s.id.0@,
            ).contains(x) by {
                let k = choose|k: int| 0 <= k < v@.len() && v@[k].id.0@ == x;
                if k < v0.len() {
                    assert(v0[k].id.0@ == x);
                }
            }
            assert forall|x: Seq<char>|
                spec_id_set(v0).insert(s.id.0@).contains(x) implies spec_id_set(v@).contains(
                x,
            ) by {
                if x == s.id.0@ {
                    assert(v@[v@.len() - 1].id.0@ == x);
                } else {
                    let k = choose|k: int| 0 <= k < v0.len() && v0[k].id.0@ == x;
                    assert(v@[k].id.0@ == x);
                }
            }
        }
        assert forall|k: int| 0 <= k < v0.len() implies v@.contains(#[trigger] v0[k]) by {
            assert(v@[k] == v0[k]);
        }
    }
}

/// Insert a string into a sorted vector unless present.
#[verifier::loop_isolation(false)]
#[verifier::rlimit(60)]
pub fn insert_sorted_string(v: &mut Vec<String>, s: String)
    requires
        spec_sorted_strs(old(v).deep_view()),
    ensures
        spec_sorted_strs(final(v).deep_view()),
        seq_set(final(v).deep_view()) == seq_set(old(v).deep_view()).insert(s@),
{
    let sv = str_to_chars(s.as_str());
    let ghost w0 = old(v).deep_view();
    let mut p: usize = 0;
    while p < v.len()
        invariant
            p <= v@.len(),
            sv@ == s@,
            v.deep_view() == w0,
            v.deep_view().len() == v@.len(),
            spec_sorted_strs(v.deep_view()),
            forall|k: int| 0 <= k < p ==> lex_lt(#[trigger] v.deep_view()[k], s@),
        decreases v.len() - p,
    {
        assert(v@[p as int]@ == v.deep_view()[p as int]) by {
            assert(v.deep_view()[p as int] == v@[p as int].deep_view());
        }
        let vp = str_to_chars(v[p].as_str());
        if eq_chars(&vp, &sv) {
            proof {
                assert(v.deep_view()[p as int] == s@);
                assert(seq_set(v.deep_view()).contains(s@));
                assert(seq_set(w0).insert(s@) =~= seq_set(w0));
            }
            return;
        }
        if crate::strutil::lex_lt_chars(&sv, &vp) {
            v.insert(p, s);
            proof {
                assert(v.deep_view() =~~= w0.subrange(0, p as int) + seq![s@] + w0.subrange(
                    p as int,
                    w0.len() as int,
                ));
                let w1 = v.deep_view();
                assert(w1.len() == w0.len() + 1);
                assert(forall|k: int| 0 <= k < p ==> w1[k] == w0[k]);
                assert(w1[p as int] == s@);
                assert(forall|k: int| p < k < w1.len() ==> w1[k] == w0[k - 1]);
                assert forall|i: int, j: int| 0 <= i < j < w1.len() implies lex_lt(
                    w1[i],
                    w1[j],
                ) by {
                    if i == p && j > p {
                        if p as int == j - 1 {
                        } else {
                            crate::strutil::lemma_lex_trans(s@, w0[p as int], w0[j - 1]);
                        }
                    }
                }
                assert(seq_set(w1) =~= seq_set(w0).insert(s@)) by {
                    assert forall|x: Seq<char>| seq_set(w1).contains(x) implies seq_set(w0).insert(
                        s@,
                    ).contains(x) by {
                        let k = choose|k: int| 0 <= k < w1.len() && w1[k] == x;
                        if k < p {
                            assert(w0.contains(x));
                        } else if k > p {
                            assert(w0[k - 1] == x);
                            assert(w0.contains(x));
                        }
                    }
                    assert forall|x: Seq<char>|
                        seq_set(w0).insert(s@).contains(x) implies seq_set(w1).contains(x) by {
                        if x == s@ {
                            assert(w1[p as int] == x);
                        } else {
                            let k = choose|k: int| 0 <= k < w0.len() && w0[k] == x;
                            if k < p {
                                assert(w1[k] == x);
                            } else {
                                assert(w1[k + 1] == x);
                            }
                        }
                    }
                }
            }
            return;
        }
        proof {
            crate::strutil::lemma_lex_total(s@, v.deep_view()[p as int]);
        }
        p = p + 1;
    }
    v.push(s);
    proof {
        let w1 = v.deep_view();
        assert(w1 =~~= w0.push(s@));
        assert forall|i: int, j: int| 0 <= i < j < w1.len() implies lex_lt(w1[i], w1[j]) by {
            if j == w1.len() - 1 {
                assert(lex_lt(w0[i], s@));
            }
        }
        assert(seq_set(w1) =~= seq_set(w0).insert(s@)) by {
            assert forall|x: Seq<char>| seq_set(w1).contains(x) implies seq_set(w0).insert(
                s@,
            ).contains(x) by {
                let k = choose|k: int| 0 <= k < w1.len() && w1[k] == x;
                if k < w0.len() {
                    assert(w0.contains(x));
                }
            }
            assert forall|x: Seq<char>| seq_set(w0).insert(s@).contains(x) implies seq_set(
                w1,
            ).contains(x) by {
                if x == s@ {
                    assert(w1[w1.len() - 1] == x);
                } else {
                    let k = choose|k: int| 0 <= k < w0.len() && w0[k] == x;
                    assert(w1[k] == x);
                }
            }
        }
    }
}

/// The files of a symbol sequence, as a set.
pub open spec fn spec_file_set(syms: Seq<Symbol>) -> Set<Seq<char>> {
    Set::new(|f: Seq<char>| exists|i: int| 0 <= i < syms.len() && (#[trigger] syms[i]).file@ == f)
}

/// The edges with at least one endpoint among the given node ids.
pub open spec fn spec_edges_kept(refs: Seq<Reference>, nodes: Set<Seq<char>>) -> Seq<Reference> {
    refs.filter(|e: Reference| nodes.contains(e.from.0@) || nodes.contains(e.to.0@))
}

/// The symbols of one file, in order.
pub open spec fn spec_file_group(syms: Seq<Symbol>, f: Seq<char>) -> Seq<Symbol> {
    syms.filter(|s: Symbol| s.file@ == f)
}

pub proof fn lemma_id_set_push(syms: Seq<Symbol>, s: Symbol)
    ensures
        spec_id_set(syms.push(s)) == spec_id_set(syms).insert(s.id.0@),
{
    assert forall|x: Seq<char>| spec_id_set(syms.push(s)).contains(x) implies spec_id_set(
        syms,
    ).insert(s.id.0@).contains(x) by {
        let k = choose|k: int| 0 <= k < syms.push(s).len() && syms.push(s)[k].id.0@ == x;
        if k < syms.len() {
            assert(syms[k].id.0@ == x);
        }
    }
    assert forall|x: Seq<char>| spec_id_set(syms).insert(s.id.0@).contains(x) implies spec_id_set(
        syms.push(s),
    ).contains(x) by {
        if x == s.id.0@ {
            assert(syms.push(s)[syms.len() as int].id.0@ == x);
        } else {
            let k = choose|k: int| 0 <= k < syms.len() && syms[k].id.0@ == x;
            assert(syms.push(s)[k].id.0@ == x);
        }
    }
    assert(spec_id_set(syms.push(s)) =~= spec_id_set(syms).insert(s.id.0@));
}

pub proof fn lemma_file_set_push(syms: Seq<Symbol>, s: Symbol)
    ensures
        spec_file_set(syms.push(s)) == spec_file_set(syms).insert(s.file@),
{
    assert forall|x: Seq<char>| spec_file_set(syms.push(s)).contains(x) implies spec_file_set(
        syms,
    ).insert(s.file@).contains(x) by {
        let k = choose|k: int| 0 <= k < syms.push(s).len() && syms.push(s)[k].file@ == x;
        if k < syms.len() {
            assert(syms[k].file@ == x);
        }
    }
    assert forall|x: Seq<char>|
        spec_file_set(syms).insert(s.file@).contains(x) implies spec_file_set(
        syms.push(s),
    ).contains(x) by {
        if x == s.file@ {
            assert(syms.push(s)[syms.len() as int].file@ == x);
        } else {
            let k = choose|k: int| 0 <= k < syms.len() && syms[k].file@ == x;
            assert(syms.push(s)[k].file@ == x);
        }
    }
    assert(spec_file_set(syms.push(s)) =~= spec_file_set(syms).insert(s.file@));
}

pub proof fn lemma_seq_set_append(a: Seq<Seq<char>>, b: Seq<Seq<char>>)
    ensures
        seq_set(a + b) == seq_set(a) + seq_set(b),
{
    assert forall|x: Seq<char>| seq_set(a + b).contains(x) implies (seq_set(a) + seq_set(
        b,
    )).contains(x) by {
        let k = choose|k: int| 0 <= k < (a + b).len() && (a + b)[k] == x;
        if k < a.len() {
            assert(a[k] == x);
        } else {
            assert(b[k - a.len()] == x);
        }
    }
    assert forall|x: Seq<char>| (seq_set(a) + seq_set(b)).contains(x) implies seq_set(
        a + b,
    ).contains(x) by {
        if seq_set(a).contains(x) {
            let k = choose|k: int| 0 <= k < a.len() && a[k] == x;
            assert((a + b)[k] == x);
        } else {
            let k = choose|k: int| 0 <= k < b.len() && b[k] == x;
            assert((a + b)[a.len() + k] == x);
        }
    }
    assert(seq_set(a + b) =~= seq_set(a) + seq_set(b));
}

#[verifier::loop_isolation(false)]
fn dup_symbols(v: &Vec<Symbol>) -> (r: Vec<Symbol>)
    ensures
        r@ == v@,
{
    let mut r: Vec<Symbol> = Vec::new();
    let mut i: usize = 0;
    while i < v.len()
        invariant
            i <= v@.len(),
            r@ == v@.subrange(0, i as int),
        decreases v.len() - i,
    {
        r.push(v[i].dup());
        assert(r@ =~= v@.subrange(0, i as int + 1));
        i = i + 1;
    }
    assert(r@ =~= v@);
    r
}

#[verifier::loop_isolation(false)]
fn dup_strings(v: &Vec<String>) -> (r: Vec<String>)
    ensures
        r@ == v@,
        r.deep_view() == v.deep_view(),
{
    let mut r: Vec<String> = Vec::new();
    let mut i: usize = 0;
    while i < v.len()
        invariant
            i <= v@.len(),
            r@ == v@.subrange(0, i as int),
        decreases v.len() - i,
    {
        r.push(v[i].clone());
        assert(r@ =~= v@.subrange(0, i as int + 1));
        i = i + 1;
    }
    assert(r@ =~= v@);
    assert(r.deep_view() =~~= v.deep_view());
    r
}

/// Walk the reference graph breadth-first from the changed symbols.
///
/// The impacted set is exactly the set of symbols reachable from the
/// surviving seeds along the direction-selected edges within the depth
/// bound, minus the seeds themselves; seeds and symbols in ignored
/// directories are dropped. The impacted symbols and files come sorted
/// and without duplicates, edges are included when asked for, and the
/// per-file grouping follows the sorted file list.
#[verifier::loop_isolation(false)]
#[verifier::rlimit(100)]
pub fn compute_impact(
    changed: &Vec<Symbol>,
    index: &SymbolIndex,
    refs: &Vec<Reference>,
    opts: &ImpactOptions,
) -> (o: ImpactOutput)
    ensures
        o.changed_symbols@ == changed@,
        ({
            let dirs = opts.ignore_dirs.deep_view();
            let kept = spec_kept_seeds(changed@, dirs);
            let seeds = spec_id_set(kept);
            let vis = spec_visited(refs@, opts.direction, seeds, opts.max_depth);
            &&& spec_sorted_ids(o.impacted_symbols@)
            &&& forall|i: int|
                0 <= i < o.impacted_symbols@.len() ==> {
                    let s = #[trigger] o.impacted_symbols@[i];
                    vis.contains(s.id.0@) && !seeds.contains(s.id.0@) && !spec_path_is_ignored(
                        s.file@,
                        dirs,
                    ) && index.symbols@.contains(s)
                }
            &&& forall|j: int|
                0 <= j < index.symbols@.len() ==> {
                    let t = #[trigger] index.symbols@[j];
                    (vis.contains(t.id.0@) && !seeds.contains(t.id.0@) && !spec_path_is_ignored(
                        t.file@,
                        dirs,
                    )) ==> spec_id_set(o.impacted_symbols@).contains(t.id.0@)
                }
            &&& spec_sorted_strs(o.impacted_files.deep_view())
            &&& seq_set(o.impacted_files.deep_view()) == spec_file_set(o.impacted_symbols@)
            &&& (opts.with_edges == Option::Some(true) ==> o.edges@ == spec_edges_kept(
                refs@,
                seeds + spec_id_set(o.impacted_symbols@),
            ))
            &&& (opts.with_edges != Option::Some(true) ==> o.edges@.len() == 0)
            &&& o.impacted_by_file@.len() == o.impacted_files@.len()
            &&& forall|k: int|
                0 <= k < o.impacted_by_file@.len() ==> (#[trigger] o.impacted_by_file@[k]).file@
                    == o.impacted_files.deep_view()[k] && o.impacted_by_file@[k].symbols@
                    == spec_file_group(o.impacted_symbols@, o.impacted_files.deep_view()[k])
        }),
{
    let ghost dirs = opts.ignore_dirs.deep_view();
    let ghost syms = index.symbols@;

    // seeds surviving the ignore filter
    let mut kept: Vec<Symbol> = Vec::new();
    let mut i: usize = 0;
    while i < changed.len()
        invariant
            i <= changed@.len(),
            kept@ == spec_kept_seeds(changed@.subrange(0, i as int), dirs),
        decreases changed.len() - i,
    {
        let ghost pref = changed@.subrange(0, i as int);
        let s = &changed[i];
        if !path_is_ignored(s.file.as_str(), &opts.ignore_dirs) {
            kept.push(s.dup());
        }
        proof {
            let pref2 = changed@.subrange(0, i as int + 1);
            assert(pref2.drop_last() =~= pref);
            assert(pref2.last() == changed@[i as int]);
            reveal(Seq::filter);
            assert(spec_kept_seeds(pref2, dirs) == if !spec_path_is_ignored(
                changed@[i as int].file@,
                dirs,
            ) {
                spec_kept_seeds(pref, dirs).push(changed@[i as int])
            } else {
                spec_kept_seeds(pref, dirs)
            });
        }
        i = i + 1;
    }
    assert(changed@.subrange(0, changed@.len() as int) =~= changed@);
    let ghost keptv = kept@;

    // seed id set
    let mut visited: Vec<String> = Vec::new();
    let mut k: usize = 0;
    proof {
        assert(seq_set(visited.deep_view()) =~= spec_id_set(keptv.subrange(0, 0)));
    }
    while k < kept.len()
        invariant
            k <= kept@.len(),
            kept@ == keptv,
            seq_set(visited.deep_view()) == spec_id_set(keptv.subrange(0, k as int)),
        decreases kept.len() - k,
    {
        let ghost v0 = visited.deep_view();
        let s = &kept[k];
        if !contains_id(&visited, s.id.0.as_str()) {
            visited.push(s.id.0.clone());
            proof {
                assert(visited.deep_view() =~~= v0.push(keptv[k as int].id.0@));
                lemma_seq_set_push(v0, keptv[k as int].id.0@);
            }
        }
        proof {
            let pref2 = keptv.subrange(0, k as int + 1);
            assert(pref2.drop_last() =~= keptv.subrange(0, k as int));
            assert(pref2 =~= keptv.subrange(0, k as int).push(keptv[k as int]));
            lemma_id_set_push(keptv.subrange(0, k as int), keptv[k as int]);
            if seq_set(v0).contains(keptv[k as int].id.0@) {
                assert(seq_set(visited.deep_view()) =~= spec_id_set(
                    keptv.subrange(0, k as int),
                ).insert(keptv[k as int].id.0@));
            }
        }
        k = k + 1;
    }
    proof {
        assert(keptv.subrange(0, keptv.len() as int) =~= keptv);
    }
    let ghost seeds_set = spec_id_set(keptv);
    let seeds_vec = dup_strings(&visited);

    // breadth-first rounds
    let bound: usize = match opts.max_depth {
        Some(d) => d,
        None => usize::MAX,
    };
    let mut round: usize = 0;
    let mut done = false;
    while round < bound && !done
        invariant
            round <= bound,
            seeds_set == spec_id_set(keptv),
            seq_set(seeds_vec.deep_view()) == seeds_set,
            !done ==> seq_set(visited.deep_view()) == spec_reach(
                refs@,
                opts.direction,
                seeds_set,
                round as nat,
            ),
            done ==> seq_set(visited.deep_view()) == spec_visited(
                refs@,
                opts.direction,
                seeds_set,
                opts.max_depth,
            ),
        decreases bound - round, (if done {
            0int
        } else {
            1int
        }),
    {
        let added = expand(refs, opts.direction, &mut visited);
        proof {
            assert(seq_set(visited.deep_view()) == spec_reach(
                refs@,
                opts.direction,
                seeds_set,
                (round + 1) as nat,
            ));
        }
        if !added {
            proof {
                assert(spec_reach(refs@, opts.direction, seeds_set, (round + 1) as nat)
                    == spec_reach(refs@, opts.direction, seeds_set, round as nat));
                match opts.max_depth {
                    Some(d) => {
                        lemma_reach_stable(
                            refs@,
                            opts.direction,
                            seeds_set,
                            round as nat,
                            d as nat,
                        );
                    },
                    None => {
                        lemma_reach_stable(
                            refs@,
                            opts.direction,
                            seeds_set,
                            round as nat,
                            usize::MAX as nat,
                        );
                    },
                }
            }
            done = true;
        } else {
            round = round + 1;
        }
    }
    proof {
        if !done {
            assert(round == bound);
            match opts.max_depth {
                Some(d) => {
                    assert(bound == d);
                },
                None => {
                    assert(bound == usize::MAX);
                },
            }
        }
    }
    let ghost vis = spec_visited(refs@, opts.direction, seeds_set, opts.max_depth);
    assert(seq_set(visited.deep_view()) == vis);

    // impacted symbols, sorted by id, one per id
    let mut impacted: Vec<Symbol> = Vec::new();
    let mut j: usize = 0;
    while j < index.symbols.len()
        invariant
            j <= syms.len(),
            syms == index.symbols@,
            seq_set(visited.deep_view()) == vis,
            seq_set(seeds_vec.deep_view()) == seeds_set,
            spec_sorted_ids(impacted@),
            forall|q: int|
                0 <= q < impacted@.len() ==> {
                    let s = #[trigger] impacted@[q];
                    vis.contains(s.id.0@) && !seeds_set.contains(s.id.0@)
                        && !spec_path_is_ignored(s.file@, dirs) && syms.contains(s)
                },
            forall|q: int|
                0 <= q < j ==> {
                    let t = #[trigger] syms[q];
                    (vis.contains(t.id.0@) && !seeds_set.contains(t.id.0@)
                        && !spec_path_is_ignored(t.file@, dirs)) ==> spec_id_set(
                        impacted@,
                    ).contains(t.id.0@)
                },
        decreases index.symbols.len() - j,
    {
        let t = &index.symbols[j];
        let ghost imp0 = impacted@;
        if contains_id(&visited, t.id.0.as_str()) && !contains_id(&seeds_vec, t.id.0.as_str())
            && !path_is_ignored(t.file.as_str(), &opts.ignore_dirs) {
            insert_sorted_symbol(&mut impacted, t.dup());
            proof {
                assert(spec_id_set(impacted@).contains(syms[j as int].id.0@));
                assert forall|q: int| 0 <= q < impacted@.len() implies {
                    let s = #[trigger] impacted@[q];
                    vis.contains(s.id.0@) && !seeds_set.contains(s.id.0@)
                        && !spec_path_is_ignored(s.file@, dirs) && syms.contains(s)
                } by {
                    if !imp0.contains(impacted@[q]) {
                        assert(impacted@[q] == syms[j as int]);
                        assert(syms.contains(syms[j as int]));
                    } else {
                        let w = choose|w: int| 0 <= w < imp0.len() && imp0[w] == impacted@[q];
                    }
                }
            }
        }
        proof {
            assert forall|q: int| 0 <= q < j + 1 implies {
                let t2 = #[trigger] syms[q];
                (vis.contains(t2.id.0@) && !seeds_set.contains(t2.id.0@)
                    && !spec_path_is_ignored(t2.file@, dirs)) ==> spec_id_set(
                    impacted@,
                ).contains(t2.id.0@)
            } by {
                if q < j {
                    if vis.contains(syms[q].id.0@) && !seeds_set.contains(syms[q].id.0@)
                        && !spec_path_is_ignored(syms[q].file@, dirs) {
                        assert(spec_id_set(imp0).contains(syms[q].id.0@));
                        let w = choose|w: int| 0 <= w < imp0.len() && imp0[w].id.0@
                            == syms[q].id.0@;
                        assert(impacted@.contains(imp0[w]));
                        let w2 = choose|w2: int|
                            0 <= w2 < impacted@.len() && impacted@[w2] == imp0[w];
                        assert(spec_id_set(impacted@).contains(syms[q].id.0@));
                    }
                }
            }
        }
        j = j + 1;
    }

    // impacted files, sorted, one each
    let mut files: Vec<String> = Vec::new();
    let mut fi: usize = 0;
    proof {
        assert(seq_set(files.deep_view()) =~= spec_file_set(impacted@.subrange(0, 0)));
    }
    while fi < impacted.len()
        invariant
            fi <= impacted@.len(),
            spec_sorted_strs(files.deep_view()),
            seq_set(files.deep_view()) == spec_file_set(impacted@.subrange(0, fi as int)),
        decreases impacted.len() - fi,
    {
        insert_sorted_string(&mut files, impacted[fi].file.clone());
        proof {
            let pref2 = impacted@.subrange(0, fi as int + 1);
            assert(pref2 =~= impacted@.subrange(0, fi as int).push(impacted@[fi as int]));
            lemma_file_set_push(impacted@.subrange(0, fi as int), impacted@[fi as int]);
        }
        fi = fi + 1;
    }
    proof {
        assert(impacted@.subrange(0, impacted@.len() as int) =~= impacted@);
    }

    // edges, when requested
    let with_e = match opts.with_edges {
        Some(b) => b,
        None => false,
    };
    let mut edges: Vec<Reference> = Vec::new();
    if with_e {
        let mut nodes = dup_strings(&seeds_vec);
        let ghost n0 = nodes.deep_view();
        let mut q: usize = 0;
        while q < impacted.len()
            invariant
                q <= impacted@.len(),
                nodes.deep_view() == n0 + impacted@.subrange(0, q as int).map_values(
                    |s: Symbol| s.id.0@,
                ),
            decreases impacted.len() - q,
        {
            let ghost nn = nodes.deep_view();
            nodes.push(impacted[q].id.0.clone());
            proof {
                assert(nodes.deep_view() =~~= nn.push(impacted@[q as int].id.0@));
                assert(nn.push(impacted@[q as int].id.0@) =~= n0 + impacted@.subrange(
                    0,
                    q as int + 1,
                ).map_values(|s: Symbol| s.id.0@));
            }
            q = q + 1;
        }
        proof {
            assert(impacted@.subrange(0, impacted@.len() as int) =~= impacted@);
            lemma_seq_set_append(n0, impacted@.map_values(|s: Symbol| s.id.0@));
            assert(seq_set(impacted@.map_values(|s: Symbol| s.id.0@)) =~= spec_id_set(
                impacted@,
            )) by {
                assert forall|x: Seq<char>|
                    seq_set(impacted@.map_values(|s: Symbol| s.id.0@)).contains(x)
                        implies spec_id_set(impacted@).contains(x) by {
                    let m = impacted@.map_values(|s: Symbol| s.id.0@);
                    let w = choose|w: int| 0 <= w < m.len() && #[trigger] m[w] == x;
                    assert(impacted@[w].id.0@ == x);
                }
                assert forall|x: Seq<char>|
                    spec_id_set(impacted@).contains(x) implies seq_set(
                    impacted@.map_values(|s: Symbol| s.id.0@),
                ).contains(x) by {
                    let w = choose|w: int| 0 <= w < impacted@.len() && impacted@[w].id.0@ == x;
                    assert(impacted@.map_values(|s: Symbol| s.id.0@)[w] == x);
                }
            }
            assert(seq_set(nodes.deep_view()) == seeds_set + spec_id_set(impacted@));
        }
        let ghost nodeset = seeds_set + spec_id_set(impacted@);
        let mut r: usize = 0;
        while r < refs.len()
            invariant
                r <= refs@.len(),
                seq_set(nodes.deep_view()) == nodeset,
                edges@ == spec_edges_kept(refs@.subrange(0, r as int), nodeset),
            decreases refs.len() - r,
        {
            let ghost pref = refs@.subrange(0, r as int);
            let e = &refs[r];
            if contains_id(&nodes, e.from.0.as_str()) || contains_id(&nodes, e.to.0.as_str()) {
                edges.push(e.dup());
            }
            proof {
                let pref2 = refs@.subrange(0, r as int + 1);
                assert(pref2.drop_last() =~= pref);
                assert(pref2.last() == refs@[r as int]);
                reveal(Seq::filter);
                assert(spec_edges_kept(pref2, nodeset) == if nodeset.contains(
                    refs@[r as int].from.0@,
                ) || nodeset.contains(refs@[r as int].to.0@) {
                    spec_edges_kept(pref, nodeset).push(refs@[r as int])
                } else {
                    spec_edges_kept(pref, nodeset)
                });
            }
            r = r + 1;
        }
        proof {
            assert(refs@.subrange(0, refs@.len() as int) =~= refs@);
        }
    }

    // per-file grouping
    let mut groups: Vec<FileGroup> = Vec::new();
    let mut gi: usize = 0;
    while gi < files.len()
        invariant
            gi <= files@.len(),
            groups@.len() == gi,
            forall|k2: int|
                0 <= k2 < gi ==> (#[trigger] groups@[k2]).file@ == files.deep_view()[k2]
                    && groups@[k2].symbols@ == spec_file_group(impacted@, files.deep_view()[k2]),
        decreases files.len() - gi,
    {
        let f = &files[gi];
        assert(f@ == files.deep_view()[gi as int]) by {
            assert(files.deep_view()[gi as int] == files@[gi as int].deep_view());
        }
        let fv = str_to_chars(f.as_str());
        let mut gsyms: Vec<Symbol> = Vec::new();
        let mut si: usize = 0;
        while si < impacted.len()
            invariant
                si <= impacted@.len(),
                fv@ == files.deep_view()[gi as int],
                gsyms@ == spec_file_group(impacted@.subrange(0, si as int), fv@),
            decreases impacted.len() - si,
        {
            let ghost pref = impacted@.subrange(0, si as int);
            let t = &impacted[si];
            let tf = str_to_chars(t.file.as_str());
            if eq_chars(&tf, &fv) {
                gsyms.push(t.dup());
            }
            proof {
                let pref2 = impacted@.subrange(0, si as int + 1);
                assert(pref2.drop_last() =~= pref);
                assert(pref2.last() == impacted@[si as int]);
                reveal(Seq::filter);
                assert(spec_file_group(pref2, fv@) == if impacted@[si as int].file@ == fv@ {
                    spec_file_group(pref, fv@).push(impacted@[si as int])
                } else {
                    spec_file_group(pref, fv@)
                });
            }
            si = si + 1;
        }
        proof {
            assert(impacted@.subrange(0, impacted@.len() as int) =~= impacted@);
        }
        groups.push(FileGroup { file: f.clone(), symbols: gsyms });
        gi = gi + 1;
    }

    ImpactOutput {
        changed_symbols: dup_symbols(changed),
        impacted_symbols: impacted,
        impacted_files: files,
        edges,
        impacted_by_file: groups,
    }
}

/// The declared symbols of every analyzed source, in file order.
pub open spec fn spec_graph_syms(
    sources: Seq<crate::mapping::SourceFileV>,
    i: int,
    acc: Seq<SymbolV>,
) -> Seq<SymbolV>
    decreases sources.len() - i,
{
    if i < 0 || i >= sources.len() {
        acc
    } else {
        let sf = sources[i];
        let acc2 = if crate::languages::spec_target_ext(
            sf.path,
            crate::languages::LanguageKind::Auto,
        ) == "rs"@ {
            acc + crate::languages::rust::spec_rust_symbols(
                sf.path,
                crate::diff::spec_lines(sf.text),
                0,
                Seq::empty(),
            )
        } else {
            acc
        };
        spec_graph_syms(sources, i + 1, acc2)
    }
}

/// The unresolved call sites of every analyzed source, in file order.
pub open spec fn spec_graph_urefs(
    sources: Seq<crate::mapping::SourceFileV>,
    i: int,
    acc: Seq<URefV>,
) -> Seq<URefV>
    decreases sources.len() - i,
{
    if i < 0 || i >= sources.len() {
        acc
    } else {
        let sf = sources[i];
        let acc2 = if crate::languages::spec_target_ext(
            sf.path,
            crate::languages::LanguageKind::Auto,
        ) == "rs"@ {
            acc + crate::languages::rust::spec_rust_urefs(
                sf.path,
                crate::diff::spec_lines(sf.text),
                0,
                Seq::empty(),
            )
        } else {
            acc
        };
        spec_graph_urefs(sources, i + 1, acc2)
    }
}

/// The import maps of every analyzed source, in file order.
pub open spec fn spec_graph_imports(
    sources: Seq<crate::mapping::SourceFileV>,
    i: int,
    acc: Seq<FileImportsV>,
) -> Seq<FileImportsV>
    decreases sources.len() - i,
{
    if i < 0 || i >= sources.len() {
        acc
    } else {
        let sf = sources[i];
        let acc2 = if crate::languages::spec_target_ext(
            sf.path,
            crate::languages::LanguageKind::Auto,
        ) == "rs"@ {
            acc.push(
                FileImportsV {
                    file: sf.path,
                    entries: crate::languages::rust::spec_rust_imports(
                        sf.path,
                        crate::diff::spec_lines(sf.text),
                    ),
                },
            )
        } else {
            acc
        };
        spec_graph_imports(sources, i + 1, acc2)
    }
}

#[verifier::loop_isolation(false)]
fn append_syms(dst: &mut Vec<Symbol>, src: Vec<Symbol>)
    ensures
        final(dst).deep_view() == old(dst).deep_view() + src.deep_view(),
{
    let n = src.len();
    let mut i: usize = 0;
    let mut src2 = src;
    let ghost srcv = src2.deep_view();
    while i < n
        invariant
            i <= n,
            n == src2@.len(),
            srcv == src2.deep_view(),
            srcv.len() == src2@.len(),
            dst.deep_view() == old(dst).deep_view() + srcv.subrange(0, i as int),
        decreases n - i,
    {
        let ghost d0 = dst.deep_view();
        dst.push(src2[i].dup());
        proof {
            assert(src2.deep_view()[i as int] == src2@[i as int].deep_view());
            assert(dst@.last() == src2@[i as int]);
            assert(dst.deep_view() =~~= d0.push(srcv[i as int]));
            assert(d0.push(srcv[i as int]) =~~= old(dst).deep_view() + srcv.subrange(
                0,
                i as int + 1,
            ));
        }
        i = i + 1;
    }
    proof {
        assert(srcv.subrange(0, srcv.len() as int) =~= srcv);
    }
}

#[verifier::loop_isolation(false)]
fn append_urefs(dst: &mut Vec<UnresolvedRef>, src: Vec<UnresolvedRef>)
    ensures
        final(dst).deep_view() == old(dst).deep_view() + src.deep_view(),
{
    let n = src.len();
    let mut i: usize = 0;
    let src2 = src;
    let ghost srcv = src2.deep_view();
    while i < n
        invariant
            i <= n,
            n == src2@.len(),
            srcv == src2.deep_view(),
            srcv.len() == src2@.len(),
            dst.deep_view() == old(dst).deep_view() + srcv.subrange(0, i as int),
        decreases n - i,
    {
        let u = &src2[i];
        let ghost d0 = dst.deep_view();
        dst.push(
            UnresolvedRef {
                name: u.name.clone(),
                kind: u.kind,
                file: u.file.clone(),
                line: u.line,
                qualifier: match &u.qualifier {
                    Some(q) => Some(q.clone()),
                    None => None,
                },
                is_method: u.is_method,
            },
        );
        proof {
            assert(src2.deep_view()[i as int] == src2@[i as int].deep_view());
            assert(dst@.last()@ == src2@[i as int]@);
            assert(dst.deep_view() =~~= d0.push(srcv[i as int]));
            assert(d0.push(srcv[i as int]) =~~= old(dst).deep_view() + srcv.subrange(
                0,
                i as int + 1,
            ));
        }
        i = i + 1;
    }
    proof {
        assert(srcv.subrange(0, srcv.len() as int) =~= srcv);
    }
}

/// Build the symbol index and the resolved edge set of a workspace
/// from its eligible sources.
#[verifier::loop_isolation(false)]
#[verifier::rlimit(100)]
pub fn build_project_graph(sources: &Vec<crate::mapping::SourceFile>) -> (r: (
    SymbolIndex,
    Vec<Reference>,
))
    ensures
        r.0.symbols.deep_view() == spec_graph_syms(sources.deep_view(), 0, Seq::empty()),
        r.1.deep_view() == spec_resolve_all(
            r.0.symbols@,
            spec_graph_imports(sources.deep_view(), 0, Seq::empty()),
            spec_graph_urefs(sources.deep_view(), 0, Seq::empty()),
            0,
            Seq::empty(),
        ),
        forall|k: int|
            0 <= k < r.1.deep_view().len() ==> spec_edge_sound(
                r.0.symbols@,
                #[trigger] r.1.deep_view()[k],
            ),
{
    let ghost sv = sources.deep_view();
    let mut all_syms: Vec<Symbol> = Vec::new();
    let mut all_urefs: Vec<UnresolvedRef> = Vec::new();
    let mut fis: Vec<FileImports> = Vec::new();
    let mut i: usize = 0;
    proof {
        assert(all_syms.deep_view() =~~= Seq::<SymbolV>::empty());
        assert(all_urefs.deep_view() =~~= Seq::<URefV>::empty());
        assert(fis.deep_view() =~~= Seq::<FileImportsV>::empty());
    }
    while i < sources.len()
        invariant
            i <= sources@.len(),
            sv == sources.deep_view(),
            sv.len() == sources@.len(),
            spec_graph_syms(sv, 0, Seq::empty()) == spec_graph_syms(
                sv,
                i as int,
                all_syms.deep_view(),
            ),
            spec_graph_urefs(sv, 0, Seq::empty()) == spec_graph_urefs(
                sv,
                i as int,
                all_urefs.deep_view(),
            ),
            spec_graph_imports(sv, 0, Seq::empty()) == spec_graph_imports(
                sv,
                i as int,
                fis.deep_view(),
            ),
        decreases sources.len() - i,
    {
        let sf = &sources[i];
        assert(sf@ == sv[i as int]) by {
            assert(sources.deep_view()[i as int] == sources@[i as int].deep_view());
        }
        match crate::languages::analyzer_for_path(
            sf.path.as_str(),
            crate::languages::LanguageKind::Auto,
        ) {
            Some(_ana) => {
                let syms = crate::languages::rust::rust_symbols_in_file(
                    sf.path.as_str(),
                    sf.text.as_str(),
                );
                append_syms(&mut all_syms, syms);
                let urefs = crate::languages::rust::rust_unresolved_refs(
                    sf.path.as_str(),
                    sf.text.as_str(),
                );
                append_urefs(&mut all_urefs, urefs);
                let im = crate::languages::rust::rust_imports_in_file(
                    sf.path.as_str(),
                    sf.text.as_str(),
                );
                let ghost f0 = fis.deep_view();
                fis.push(FileImports { file: sf.path.clone(), imports: im });
                proof {
                    assert(fis.deep_view() =~~= f0.push(
                        FileImportsV {
                            file: sv[i as int].path,
                            entries: crate::languages::rust::spec_rust_imports(
                                sv[i as int].path,
                                crate::diff::spec_lines(sv[i as int].text),
                            ),
                        },
                    ));
                }
            },
            None => {},
        }
        i = i + 1;
    }
    let index = SymbolIndex::build(all_syms);
    let refs = resolve_references(&index, &all_urefs, &fis);
    (index, refs)
}

/// A seed whose file lies under an ignored directory contributes
/// nothing: the surviving seed list is unchanged without it, so the
/// whole traversal sees the same seed set.
pub proof fn lemma_ignored_seed_dropped(changed: Seq<Symbol>, s: Symbol, dirs: Seq<Seq<char>>)
    requires
        spec_path_is_ignored(s.file@, dirs),
    ensures
        spec_kept_seeds(changed.push(s), dirs) == spec_kept_seeds(changed, dirs),
{
    reveal(Seq::filter);
    assert(changed.push(s).drop_last() =~= changed);
    assert(changed.push(s).last() == s);
}

} // verus!
