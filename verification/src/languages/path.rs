//! Path normalization shared by the analyzers: collapsing `.` and `..`
//! segments and resolving relative module specifiers, all without
//! touching the filesystem.

use vstd::prelude::*;
use crate::strutil::{
    chars_to_string, eq_chars, is_prefix, is_suffix, spec_join, spec_replace, spec_split,
    spec_trim, join_chars, replace_sub, split_sub, starts_with, ends_with, str_to_chars, subvec,
    trim,
};

verus! {

/// The extension of a path: what follows the last dot of the last
/// segment, provided that dot is not the segment's first character.
pub open spec fn spec_ext_of(p: Seq<char>) -> Seq<char> {
    let segs = spec_split(p, "/"@);
    let base = segs.last();
    let dots = spec_split(base, "."@);
    if dots.len() <= 1 || dots.first().len() == 0 && dots.len() == 2 {
        Seq::empty()
    } else {
        dots.last()
    }
}

/// The extension of a path, executably.
pub fn ext_of(p: &Vec<char>) -> (r: Vec<char>)
    ensures
        r@ == spec_ext_of(p@),
{
    let slash = str_to_chars("/");
    let dot = str_to_chars(".");
    proof {
        reveal_strlit("/");
        reveal_strlit(".");
    }
    let segs = split_sub(p, &slash);
    proof {
        crate::strutil::lemma_split_nonempty(p@, "/"@);
        assert(segs.deep_view().last() == segs@[segs@.len() - 1]@);
    }
    let base = &segs[segs.len() - 1];
    let dots = split_sub(base, &dot);
    proof {
        crate::strutil::lemma_split_nonempty(base@, "."@);
        assert(dots.deep_view().last() == dots@[dots@.len() - 1]@);
        assert(dots.deep_view().first() == dots@[0]@);
    }
    if dots.len() <= 1 || dots[0].len() == 0 && dots.len() == 2 {
        let r: Vec<char> = Vec::new();
        assert(r@ =~= Seq::<char>::empty());
        r
    } else {
        let last = &dots[dots.len() - 1];
        subvec(last, 0, last.len())
    }
}

/// Fold path segments left to right: empty and `.` segments vanish,
/// `..` removes the segment before it, anything else is kept.
pub open spec fn spec_norm_segs(segs: Seq<Seq<char>>, i: int, acc: Seq<Seq<char>>) -> Seq<
    Seq<char>,
>
    decreases segs.len() - i,
{
    if i < 0 || i >= segs.len() {
        acc
    } else {
        let s = segs[i];
        if s.len() == 0 || s == "."@ {
            spec_norm_segs(segs, i + 1, acc)
        } else if s == ".."@ {
            spec_norm_segs(segs, i + 1, if acc.len() > 0 {
                acc.drop_last()
            } else {
                acc
            })
        } else {
            spec_norm_segs(segs, i + 1, acc.push(s))
        }
    }
}

/// A path with `.` and `..` collapsed, separators joined by `/`, a
/// leading root kept, and backslashes turned to forward slashes.
pub open spec fn spec_normalize_path_like(p: Seq<char>) -> Seq<char> {
    let segs = spec_split(p, "/"@);
    let norm = spec_norm_segs(segs, 0, Seq::empty());
    let joined = spec_join(norm, "/"@);
    let rooted = if p.len() > 0 && p[0] == '/' {
        "/"@ + joined
    } else {
        joined
    };
    spec_replace(rooted, "\\"@, "/"@)
}

/// Normalize a path-like value by collapsing `.` and `..` without
/// touching the filesystem; backslashes become forward slashes.
#[verifier::loop_isolation(false)]
pub fn normalize_path_like(p: &str) -> (r: String)
    ensures
        r@ == spec_normalize_path_like(p@),
{
    let pv = str_to_chars(p);
    let slash = str_to_chars("/");
    let dot = str_to_chars(".");
    let dotdot = str_to_chars("..");
    let backslash = str_to_chars("\\");
    proof {
        reveal_strlit("/");
        reveal_strlit(".");
        reveal_strlit("..");
        reveal_strlit("\\");
    }
    let segs = split_sub(&pv, &slash);
    let ghost sv = segs.deep_view();
    let mut acc: Vec<Vec<char>> = Vec::new();
    let mut i: usize = 0;
    proof {
        assert(acc.deep_view() =~~= Seq::<Seq<char>>::empty());
    }
    while i < segs.len()
        invariant
            i <= segs@.len(),
            sv == segs.deep_view(),
            sv.len() == segs@.len(),
            dot@ == "."@,
            dotdot@ == ".."@,
            spec_norm_segs(sv, 0, Seq::empty()) == spec_norm_segs(sv, i as int, acc.deep_view()),
        decreases segs.len() - i,
    {
        let ghost a0 = acc.deep_view();
        let s = &segs[i];
        assert(s@ == sv[i as int]) by {
            assert(segs.deep_view()[i as int] == segs@[i as int].deep_view());
        }
        if s.len() == 0 || eq_chars(s, &dot) {
        } else if eq_chars(s, &dotdot) {
            if acc.len() > 0 {
                acc.pop();
                assert(acc.deep_view() =~~= a0.drop_last());
            }
        } else {
            acc.push(subvec(s, 0, s.len()));
            proof {
                assert(sv[i as int].subrange(0, sv[i as int].len() as int) =~= sv[i as int]);
                assert(acc.deep_view() =~~= a0.push(sv[i as int]));
            }
        }
        i = i + 1;
    }
    let joined = join_chars(&acc, &slash);
    let rooted: Vec<char> = if pv.len() > 0 && pv[0] == '/' {
        let mut t: Vec<char> = Vec::new();
        t.push('/');
        crate::ir::append_chars(&mut t, &joined);
        proof {
            assert(seq!['/'] =~= "/"@) by {
                reveal_strlit("/");
            }
        }
        t
    } else {
        joined
    };
    let out = replace_sub(&rooted, &backslash, &slash);
    chars_to_string(&out)
}

/// Everything before the last `/`, or nothing when the path has none.
pub open spec fn spec_dirname(p: Seq<char>) -> Seq<char> {
    let segs = spec_split(p, "/"@);
    if segs.len() <= 1 {
        Seq::empty()
    } else {
        spec_join(segs.drop_last(), "/"@)
    }
}

/// The directory part of a path, executably.
pub fn dirname(p: &Vec<char>) -> (r: Vec<char>)
    ensures
        r@ == spec_dirname(p@),
{
    let slash = str_to_chars("/");
    proof {
        reveal_strlit("/");
    }
    let mut segs = split_sub(p, &slash);
    proof {
        crate::strutil::lemma_split_nonempty(p@, "/"@);
    }
    if segs.len() <= 1 {
        let r: Vec<char> = Vec::new();
        assert(r@ =~= Seq::<char>::empty());
        r
    } else {
        let ghost sv0 = segs.deep_view();
        segs.pop();
        proof {
            assert(segs.deep_view() =~~= sv0.drop_last());
        }
        join_chars(&segs, &slash)
    }
}

/// Strip every suffix of `exts` in order from `s`.
pub open spec fn spec_strip_exts(s: Seq<char>, exts: Seq<Seq<char>>, i: int) -> Seq<char>
    decreases exts.len() - i,
{
    if i < 0 || i >= exts.len() {
        s
    } else {
        let e = exts[i];
        let s2 = if is_suffix(e, s) {
            s.subrange(0, s.len() - e.len())
        } else {
            s
        };
        spec_strip_exts(s2, exts, i + 1)
    }
}

/// A module specifier resolved to a normalized path-like string:
/// known source extensions trimmed, backslashes replaced, `./` and
/// `../` specifiers resolved against the importing file's directory,
/// bare specifiers kept with leading slashes removed.
pub open spec fn spec_resolve_module_path(
    cur_file: Seq<char>,
    raw: Seq<char>,
    exts: Seq<Seq<char>>,
) -> Option<Seq<char>> {
    let t = spec_trim(raw);
    let stripped = spec_strip_exts(t, exts, 0);
    let s = spec_replace(stripped, "\\"@, "/"@);
    if is_prefix("./"@, s) || is_prefix("../"@, s) {
        let base = spec_dirname(cur_file);
        let joined = if base.len() == 0 {
            s
        } else {
            base + "/"@ + s
        };
        Option::Some(spec_normalize_path_like(joined))
    } else {
        Option::Some(spec_trim_leading_slashes(s))
    }
}

/// `s` without its leading `/` characters.
pub open spec fn spec_trim_leading_slashes(s: Seq<char>) -> Seq<char>
    decreases s.len(),
{
    if s.len() > 0 && s[0] == '/' {
        spec_trim_leading_slashes(s.drop_first())
    } else {
        s
    }
}

#[verifier::loop_isolation(false)]
fn trim_leading_slashes(s: &Vec<char>) -> (r: Vec<char>)
    ensures
        r@ == spec_trim_leading_slashes(s@),
{
    let mut i: usize = 0;
    assert(s@.subrange(0, s@.len() as int) =~= s@);
    while i < s.len() && s[i] == '/'
        invariant
            i <= s@.len(),
            spec_trim_leading_slashes(s@) == spec_trim_leading_slashes(
                s@.subrange(i as int, s@.len() as int),
            ),
        decreases s.len() - i,
    {
        proof {
            assert(s@.subrange(i as int, s@.len() as int).drop_first() =~= s@.subrange(
                i as int + 1,
                s@.len() as int,
            ));
        }
        i = i + 1;
    }
    let r = subvec(s, i, s.len());
    proof {
        let tail = s@.subrange(i as int, s@.len() as int);
        assert(spec_trim_leading_slashes(tail) == tail);
    }
    r
}

/// Resolve a module specifier against the importing file.
#[verifier::loop_isolation(false)]
pub fn resolve_module_path(cur_file: &str, raw: &str, exts: &Vec<String>) -> (r: Option<String>)
    ensures
        ({
            let rr = spec_resolve_module_path(cur_file@, raw@, exts.deep_view());
            r matches Some(v) && rr matches Some(sv) && v@ == sv
        }),
{
    let rawv = str_to_chars(raw);
    let t = trim(&rawv);
    let ghost ev = exts.deep_view();
    let mut cur: Vec<char> = t;
    let mut i: usize = 0;
    while i < exts.len()
        invariant
            i <= exts@.len(),
            ev == exts.deep_view(),
            ev.len() == exts@.len(),
            spec_strip_exts(spec_trim(raw@), ev, 0) == spec_strip_exts(cur@, ev, i as int),
        decreases exts.len() - i,
    {
        let e = str_to_chars(exts[i].as_str());
        assert(e@ == ev[i as int]) by {
            assert(exts.deep_view()[i as int] == exts@[i as int].deep_view());
        }
        if ends_with(&cur, &e) {
            let newlen = cur.len() - e.len();
            cur = subvec(&cur, 0, newlen);
        }
        i = i + 1;
    }
    let backslash = str_to_chars("\\");
    let slash = str_to_chars("/");
    let s = replace_sub(&cur, &backslash, &slash);
    let dotslash = str_to_chars("./");
    let ddotslash = str_to_chars("../");
    if starts_with(&s, &dotslash) || starts_with(&s, &ddotslash) {
        let curv = str_to_chars(cur_file);
        let base = dirname(&curv);
        let joined: Vec<char> = if base.len() == 0 {
            s
        } else {
            let mut j = base;
            let ghost j0 = j@;
            j.push('/');
            assert(j@ =~= j0 + "/"@) by {
                reveal_strlit("/");
            }
            crate::ir::append_chars(&mut j, &s);
            j
        };
        Some(normalize_path_like(chars_to_string(&joined).as_str()))
    } else {
        Some(chars_to_string(&trim_leading_slashes(&s)))
    }
}

} // verus!
