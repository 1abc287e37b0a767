//! Unified diff parsing: a line-driven tokenizer for the common subset
//! of `diff --git` output - `---`/`+++` file markers, `@@` hunk headers,
//! and `+`/`-`/space-prefixed body lines.

use vstd::prelude::*;
use crate::strutil::{
    chars_to_string, dec_val, is_prefix, opt_str_view, spec_split, spec_trim, spec_trim_start,
    split_sub, starts_with, str_to_chars, subvec, trim, trim_start, valid_u32, parse_u32_or_zero,
    eq_chars,
};

verus! {

#[derive(Debug, Clone, PartialEq, Eq)]
pub enum DiffParseError {
    MissingHeader,
    InvalidHunkHeader(String),
}

#[derive(Debug, Clone, Copy, PartialEq, Eq, Structural)]
pub enum ChangeKind {
    Added,
    Removed,
    Context,
}

/// One changed, removed or context line of a hunk.
#[derive(Debug, Clone, PartialEq, Eq)]
pub struct Change {
    pub kind: ChangeKind,
    pub old_line: Option<u32>,
    pub new_line: Option<u32>,
    pub content: String,
}

/// All changes reported for one file of the diff.
#[derive(Debug, Clone, PartialEq, Eq)]
pub struct FileChanges {
    pub old_path: Option<String>,
    pub new_path: Option<String>,
    pub changes: Vec<Change>,
}

/// Mathematical value of a `Change`.
pub struct ChangeV {
    pub kind: ChangeKind,
    pub old_line: Option<u32>,
    pub new_line: Option<u32>,
    pub content: Seq<char>,
}

/// Mathematical value of a `FileChanges`.
pub struct FileChangesV {
    pub old_path: Option<Seq<char>>,
    pub new_path: Option<Seq<char>>,
    pub changes: Seq<ChangeV>,
}

/// Mathematical value of a `DiffParseError`.
pub enum DiffErrV {
    MissingHeader,
    InvalidHunkHeader(Seq<char>),
}

impl View for Change {
    type V = ChangeV;

    open spec fn view(&self) -> ChangeV {
        ChangeV {
            kind: self.kind,
            old_line: self.old_line,
            new_line: self.new_line,
            content: self.content@,
        }
    }
}

impl DeepView for Change {
    type V = ChangeV;

    open spec fn deep_view(&self) -> ChangeV {
        self@
    }
}

impl View for FileChanges {
    type V = FileChangesV;

    open spec fn view(&self) -> FileChangesV {
        FileChangesV {
            old_path: opt_str_view(self.old_path),
            new_path: opt_str_view(self.new_path),
            changes: self.changes.deep_view(),
        }
    }
}

impl DeepView for FileChanges {
    type V = FileChangesV;

    open spec fn deep_view(&self) -> FileChangesV {
        self@
    }
}

impl View for DiffParseError {
    type V = DiffErrV;

    open spec fn view(&self) -> DiffErrV {
        match self {
            DiffParseError::MissingHeader => DiffErrV::MissingHeader,
            DiffParseError::InvalidHunkHeader(h) => DiffErrV::InvalidHunkHeader(h@),
        }
    }
}

/// A line counter advances by one and pins at the type bound.
pub open spec fn spec_sat_inc(x: u32) -> u32 {
    if x == u32::MAX {
        x
    } else {
        (x + 1) as u32
    }
}

fn sat_inc(x: u32) -> (r: u32)
    ensures
        r == spec_sat_inc(x),
{
    if x == u32::MAX {
        x
    } else {
        x + 1
    }
}

/// A line with its one trailing carriage return removed.
pub open spec fn strip_cr(l: Seq<char>) -> Seq<char> {
    if l.len() > 0 && l[l.len() - 1] == '\r' {
        l.drop_last()
    } else {
        l
    }
}

/// The lines of a text: split on newline, final newline not opening an
/// extra empty line, carriage returns stripped.
pub open spec fn spec_lines(s: Seq<char>) -> Seq<Seq<char>> {
    if s.len() == 0 {
        Seq::empty()
    } else {
        let body = if s[s.len() - 1] == '\n' {
            s.drop_last()
        } else {
            s
        };
        spec_split(body, "\n"@).map_values(|l: Seq<char>| strip_cr(l))
    }
}

/// Split text into lines.
#[verifier::loop_isolation(false)]
pub fn split_lines(v: &Vec<char>) -> (r: Vec<Vec<char>>)
    ensures
        r.deep_view() == spec_lines(v@),
{
    if v.len() == 0 {
        let r: Vec<Vec<char>> = Vec::new();
        assert(r.deep_view() =~= spec_lines(v@));
        return r;
    }
    let body: Vec<char> = if v[v.len() - 1] == '\n' {
        subvec(v, 0, v.len() - 1)
    } else {
        subvec(v, 0, v.len())
    };
    proof {
        assert(v@.subrange(0, v@.len() - 1) =~= v@.drop_last());
        assert(v@.subrange(0, v@.len() as int) =~= v@);
    }
    let mut nl: Vec<char> = Vec::new();
    nl.push('\n');
    assert(nl@ =~= "\n"@) by {
        reveal_strlit("\n");
    }
    let parts = split_sub(&body, &nl);
    let ghost pdv = parts.deep_view();
    let mut out: Vec<Vec<char>> = Vec::new();
    let mut i: usize = 0;
    while i < parts.len()
        invariant
            i <= parts@.len(),
            pdv == parts.deep_view(),
            pdv.len() == parts@.len(),
            out.deep_view() == pdv.subrange(0, i as int).map_values(|l: Seq<char>| strip_cr(l)),
        decreases parts.len() - i,
    {
        let ghost o0 = out.deep_view();
        let p = &parts[i];
        assert(p@ == pdv[i as int]) by {
            assert(parts.deep_view()[i as int] =~= parts@[i as int]@);
        }
        if p.len() > 0 && p[p.len() - 1] == '\r' {
            let t = subvec(p, 0, p.len() - 1);
            assert(t@ =~= pdv[i as int].drop_last());
            out.push(t);
        } else {
            out.push(subvec(p, 0, p.len()));
            assert(pdv[i as int].subrange(0, pdv[i as int].len() as int) =~= pdv[i as int]);
        }
        proof {
            assert(out.deep_view() =~~= o0.push(strip_cr(pdv[i as int])));
            assert(pdv.subrange(0, i as int + 1).map_values(|l: Seq<char>| strip_cr(l)) =~= o0.push(
                strip_cr(pdv[i as int]),
            )) by {
                assert(pdv.subrange(0, i as int).map_values(|l: Seq<char>| strip_cr(l)) == o0);
                assert(pdv.subrange(0, i as int + 1).len() == i + 1);
            }
        }
        i = i + 1;
    }
    proof {
        assert(pdv.subrange(0, pdv.len() as int) =~= pdv);
    }
    out
}

/// Strip a leading `a/` or `b/` path prefix.
pub open spec fn spec_strip_ab(p: Seq<char>) -> Seq<char> {
    if is_prefix("a/"@, p) {
        p.subrange(2, p.len() as int)
    } else if is_prefix("b/"@, p) {
        p.subrange(2, p.len() as int)
    } else {
        p
    }
}

/// Read the path of a `---`/`+++` marker: trimmed, `/dev/null` meaning
/// absent, `a/`/`b/` prefixes stripped.
pub open spec fn spec_path_of(rest: Seq<char>) -> Option<Seq<char>> {
    let t = spec_trim(rest);
    if t == "/dev/null"@ {
        Option::None
    } else {
        Option::Some(spec_strip_ab(t))
    }
}

fn path_of(rest: &Vec<char>) -> (r: Option<String>)
    ensures
        opt_str_view(r) == spec_path_of(rest@),
{
    let t = trim(rest);
    let devnull = str_to_chars("/dev/null");
    if eq_chars(&t, &devnull) {
        return None;
    }
    let a = str_to_chars("a/");
    let b = str_to_chars("b/");
    proof {
        reveal_strlit("a/");
        reveal_strlit("b/");
    }
    if starts_with(&t, &a) {
        Some(chars_to_string(&subvec(&t, 2, t.len())))
    } else if starts_with(&t, &b) {
        Some(chars_to_string(&subvec(&t, 2, t.len())))
    } else {
        Some(chars_to_string(&t))
    }
}

/// First position of `c` in `s`.
pub open spec fn spec_find_char(s: Seq<char>, c: char) -> Option<int>
    decreases s.len(),
{
    if s.len() == 0 {
        Option::None
    } else if s[0] == c {
        Option::Some(0)
    } else {
        match spec_find_char(s.drop_first(), c) {
            Option::None => Option::None,
            Option::Some(i) => Option::Some(i + 1),
        }
    }
}

pub proof fn lemma_find_char(s: Seq<char>, c: char)
    ensures
        match spec_find_char(s, c) {
            Option::None => forall|j: int| 0 <= j < s.len() ==> s[j] != c,
            Option::Some(i) => 0 <= i < s.len() && s[i] == c && forall|j: int|
                0 <= j < i ==> s[j] != c,
        },
    decreases s.len(),
{
    if s.len() == 0 {
    } else if s[0] == c {
    } else {
        lemma_find_char(s.drop_first(), c);
        match spec_find_char(s.drop_first(), c) {
            Option::None => {
                assert forall|j: int| 0 <= j < s.len() implies s[j] != c by {
                    if j > 0 {
                        assert(s.drop_first()[j - 1] != c);
                    }
                }
            },
            Option::Some(k) => {
                assert(s[k + 1] == s.drop_first()[k]);
                assert forall|j: int| 0 <= j < k + 1 implies s[j] != c by {
                    if j > 0 {
                        assert(s.drop_first()[j - 1] != c);
                    }
                }
            },
        }
    }
}

/// Find the first `c` in `v`, executably, agreeing with `spec_find_char`.
#[verifier::loop_isolation(false)]
pub fn find_char(v: &Vec<char>, c: char) -> (r: Option<usize>)
    ensures
        match r {
            Some(i) => spec_find_char(v@, c) == Option::Some(i as int),
            None => spec_find_char(v@, c) == Option::<int>::None,
        },
{
    proof {
        lemma_find_char(v@, c);
    }
    let mut i: usize = 0;
    while i < v.len()
        invariant
            i <= v@.len(),
            forall|j: int| 0 <= j < i ==> v@[j] != c,
        decreases v.len() - i,
    {
        if v[i] == c {
            proof {
                match spec_find_char(v@, c) {
                    Option::None => {
                        assert(false);
                    },
                    Option::Some(k) => {
                        if k < i as int {
                            assert(v@[k] != c);
                            assert(false);
                        }
                        if k > i as int {
                            assert(v@[i as int] != c);
                            assert(false);
                        }
                    },
                }
            }
            return Some(i);
        }
        i = i + 1;
    }
    proof {
        match spec_find_char(v@, c) {
            Option::None => {},
            Option::Some(k) => {
                assert(v@[k] != c);
                assert(false);
            },
        }
    }
    None
}

/// `-12,3` or `-12`: start and length, unparsable numbers reading as 0,
/// a missing length reading as 1.
pub open spec fn spec_val32(t: Seq<char>) -> u32 {
    if valid_u32(t) {
        dec_val(t) as u32
    } else {
        0
    }
}

pub open spec fn spec_parse_start_len(s: Seq<char>) -> (u32, u32) {
    match spec_find_char(s, ',') {
        Option::Some(p) => (
            spec_val32(s.subrange(0, p)),
            spec_val32(s.subrange(p + 1, s.len() as int)),
        ),
        Option::None => (spec_val32(s), 1),
    }
}

fn parse_start_len(s: &Vec<char>) -> (r: (u32, u32))
    ensures
        r == spec_parse_start_len(s@),
{
    match find_char(s, ',') {
        Some(p) => {
            let n = s.len();
            proof {
                lemma_find_char(s@, ',');
            }
            assert(p < n);
            let a = subvec(s, 0, p);
            let b = subvec(s, p + 1, n);
            (parse_u32_or_zero(&a), parse_u32_or_zero(&b))
        },
        None => (parse_u32_or_zero(s), 1),
    }
}

/// Split at the first space after leading blanks; `None` when nothing
/// but blanks remain or no space follows.
pub open spec fn spec_split_at_space(s: Seq<char>) -> Option<(Seq<char>, Seq<char>)> {
    let t = spec_trim_start(s);
    if t.len() == 0 {
        Option::None
    } else {
        match spec_find_char(t, ' ') {
            Option::None => Option::None,
            Option::Some(p) => Option::Some(
                (t.subrange(0, p), t.subrange(p + 1, t.len() as int)),
            ),
        }
    }
}

fn split_at_space(s: &Vec<char>) -> (r: Option<(Vec<char>, Vec<char>)>)
    ensures
        match r {
            Some(pair) => spec_split_at_space(s@) == Option::Some((pair.0@, pair.1@)),
            None => spec_split_at_space(s@) == Option::<(Seq<char>, Seq<char>)>::None,
        },
{
    let t = trim_start(s);
    if t.len() == 0 {
        return None;
    }
    match find_char(&t, ' ') {
        None => None,
        Some(p) => {
            let n = t.len();
            proof {
                lemma_find_char(t@, ' ');
            }
            assert(p < n);
            let a = subvec(&t, 0, p);
            let b = subvec(&t, p + 1, n);
            Some((a, b))
        },
    }
}

/// Parse the `-l[,s] +l[,s]` part of a hunk header; `None` on malformed
/// input, else the old and new start lines.
pub open spec fn spec_parse_hunk_header(h: Seq<char>) -> Option<(u32, u32)> {
    match spec_split_at_space(h) {
        Option::None => Option::None,
        Option::Some(p1) => {
            let old_part = p1.0;
            if old_part.len() == 0 || old_part[0] != '-' {
                Option::None
            } else {
                match spec_split_at_space(p1.1) {
                    Option::None => Option::None,
                    Option::Some(p2) => {
                        let new_part = p2.0;
                        if new_part.len() == 0 || new_part[0] != '+' {
                            Option::None
                        } else {
                            Option::Some(
                                (
                                    spec_parse_start_len(
                                        old_part.subrange(1, old_part.len() as int),
                                    ).0,
                                    spec_parse_start_len(
                                        new_part.subrange(1, new_part.len() as int),
                                    ).0,
                                ),
                            )
                        }
                    },
                }
            }
        },
    }
}

fn parse_hunk_header(h: &Vec<char>) -> (r: Option<(u32, u32)>)
    ensures
        r == spec_parse_hunk_header(h@),
{
    match split_at_space(h) {
        None => None,
        Some((old_part, rest1)) => {
            if old_part.len() == 0 || old_part[0] != '-' {
                None
            } else {
                match split_at_space(&rest1) {
                    None => None,
                    Some((new_part, _rest2)) => {
                        if new_part.len() == 0 || new_part[0] != '+' {
                            None
                        } else {
                            let o = subvec(&old_part, 1, old_part.len());
                            let n = subvec(&new_part, 1, new_part.len());
                            Some((parse_start_len(&o).0, parse_start_len(&n).0))
                        }
                    },
                }
            }
        },
    }
}

/// The parser state between lines.
pub struct DiffStateV {
    pub files: Seq<FileChangesV>,
    pub old_path: Option<Seq<char>>,
    pub new_path: Option<Seq<char>>,
    pub changes: Seq<ChangeV>,
}

/// Close the pending file, if it holds anything.
pub open spec fn spec_flush(st: DiffStateV) -> DiffStateV {
    if st.changes.len() > 0 || st.old_path is Some || st.new_path is Some {
        DiffStateV {
            files: st.files.push(
                FileChangesV {
                    old_path: st.old_path,
                    new_path: st.new_path,
                    changes: st.changes,
                },
            ),
            old_path: Option::None,
            new_path: Option::None,
            changes: Seq::empty(),
        }
    } else {
        st
    }
}

/// A line that ends the body of a hunk.
pub open spec fn spec_stop_line(l: Seq<char>) -> bool {
    is_prefix("@@ "@, l) || is_prefix("diff --git "@, l) || is_prefix("--- "@, l)
}

/// Walk the body of one hunk from line `i`, classifying each line and
/// advancing the two line counters; yields the extended change list and
/// the index of the first line after the body.
pub open spec fn spec_hunk_body(
    lines: Seq<Seq<char>>,
    i: int,
    old_ln: u32,
    new_ln: u32,
    changes: Seq<ChangeV>,
) -> (Seq<ChangeV>, int)
    decreases lines.len() - i,
{
    if i < 0 || i >= lines.len() {
        (changes, i)
    } else {
        let l = lines[i];
        if spec_stop_line(l) {
            (changes, i)
        } else if l.len() > 0 && l[0] == '+' {
            spec_hunk_body(
                lines,
                i + 1,
                old_ln,
                spec_sat_inc(new_ln),
                changes.push(
                    ChangeV {
                        kind: ChangeKind::Added,
                        old_line: Option::None,
                        new_line: Option::Some(new_ln),
                        content: l.subrange(1, l.len() as int),
                    },
                ),
            )
        } else if l.len() > 0 && l[0] == '-' {
            spec_hunk_body(
                lines,
                i + 1,
                spec_sat_inc(old_ln),
                new_ln,
                changes.push(
                    ChangeV {
                        kind: ChangeKind::Removed,
                        old_line: Option::Some(old_ln),
                        new_line: Option::None,
                        content: l.subrange(1, l.len() as int),
                    },
                ),
            )
        } else if l.len() == 0 || l[0] == ' ' {
            spec_hunk_body(
                lines,
                i + 1,
                spec_sat_inc(old_ln),
                spec_sat_inc(new_ln),
                changes.push(
                    ChangeV {
                        kind: ChangeKind::Context,
                        old_line: Option::Some(old_ln),
                        new_line: Option::Some(new_ln),
                        content: if l.len() > 0 && l[0] == ' ' {
                            l.subrange(1, l.len() as int)
                        } else {
                            l
                        },
                    },
                ),
            )
        } else if l[0] == '\\' {
            spec_hunk_body(lines, i + 1, old_ln, new_ln, changes)
        } else {
            spec_hunk_body(
                lines,
                i + 1,
                spec_sat_inc(old_ln),
                spec_sat_inc(new_ln),
                changes.push(
                    ChangeV {
                        kind: ChangeKind::Context,
                        old_line: Option::Some(old_ln),
                        new_line: Option::Some(new_ln),
                        content: l,
                    },
                ),
            )
        }
    }
}

pub proof fn lemma_hunk_body_advances(
    lines: Seq<Seq<char>>,
    i: int,
    old_ln: u32,
    new_ln: u32,
    changes: Seq<ChangeV>,
)
    requires
        0 <= i <= lines.len(),
    ensures
        spec_hunk_body(lines, i, old_ln, new_ln, changes).1 >= i,
        spec_hunk_body(lines, i, old_ln, new_ln, changes).1 <= lines.len(),
    decreases lines.len() - i,
{
    if i >= lines.len() {
    } else {
        let l = lines[i];
        if spec_stop_line(l) {
        } else if l.len() > 0 && l[0] == '+' {
            lemma_hunk_body_advances(
                lines,
                i + 1,
                old_ln,
                spec_sat_inc(new_ln),
                changes.push(
                    ChangeV {
                        kind: ChangeKind::Added,
                        old_line: Option::None,
                        new_line: Option::Some(new_ln),
                        content: l.subrange(1, l.len() as int),
                    },
                ),
            );
        } else if l.len() > 0 && l[0] == '-' {
            lemma_hunk_body_advances(
                lines,
                i + 1,
                spec_sat_inc(old_ln),
                new_ln,
                changes.push(
                    ChangeV {
                        kind: ChangeKind::Removed,
                        old_line: Option::Some(old_ln),
                        new_line: Option::None,
                        content: l.subrange(1, l.len() as int),
                    },
                ),
            );
        } else if l.len() == 0 || l[0] == ' ' {
            lemma_hunk_body_advances(
                lines,
                i + 1,
                spec_sat_inc(old_ln),
                spec_sat_inc(new_ln),
                changes.push(
                    ChangeV {
                        kind: ChangeKind::Context,
                        old_line: Option::Some(old_ln),
                        new_line: Option::Some(new_ln),
                        content: if l.len() > 0 && l[0] == ' ' {
                            l.subrange(1, l.len() as int)
                        } else {
                            l
                        },
                    },
                ),
            );
        } else if l[0] == '\\' {
            lemma_hunk_body_advances(lines, i + 1, old_ln, new_ln, changes);
        } else {
            lemma_hunk_body_advances(
                lines,
                i + 1,
                spec_sat_inc(old_ln),
                spec_sat_inc(new_ln),
                changes.push(
                    ChangeV {
                        kind: ChangeKind::Context,
                        old_line: Option::Some(old_ln),
                        new_line: Option::Some(new_ln),
                        content: l,
                    },
                ),
            );
        }
    }
}

/// Parse from line `i` in state `st`; the final state's files, or the
/// first error.
pub open spec fn spec_parse_lines(lines: Seq<Seq<char>>, i: int, st: DiffStateV) -> Result<
    Seq<FileChangesV>,
    DiffErrV,
>
    decreases lines.len() - i, 1int,
{
    if i < 0 || i >= lines.len() {
        let f = spec_flush(st);
        if f.files.len() == 0 {
            Result::Err(DiffErrV::MissingHeader)
        } else {
            Result::Ok(f.files)
        }
    } else {
        let l = lines[i];
        if is_prefix("diff --git "@, l) {
            spec_parse_lines(lines, i + 1, spec_flush(st))
        } else if is_prefix("--- "@, l) {
            let old_path = spec_path_of(l.subrange(4, l.len() as int));
            if i + 1 < lines.len() {
                let nl = lines[i + 1];
                let new_path = if is_prefix("+++ "@, nl) {
                    spec_path_of(nl.subrange(4, nl.len() as int))
                } else {
                    st.new_path
                };
                spec_parse_lines(
                    lines,
                    i + 2,
                    DiffStateV { old_path, new_path, ..st },
                )
            } else {
                spec_parse_lines(lines, i + 1, DiffStateV { old_path, ..st })
            }
        } else if is_prefix("@@ "@, l) {
            let h = l.subrange(3, l.len() as int);
            match spec_parse_hunk_header(h) {
                Option::None => Result::Err(DiffErrV::InvalidHunkHeader(h)),
                Option::Some(starts) => spec_parse_hunk(lines, i, st, starts.0, starts.1),
            }
        } else {
            spec_parse_lines(lines, i + 1, st)
        }
    }
}

/// Consume the body of the hunk opened at line `i` and continue.
pub open spec fn spec_parse_hunk(
    lines: Seq<Seq<char>>,
    i: int,
    st: DiffStateV,
    old_start: u32,
    new_start: u32,
) -> Result<Seq<FileChangesV>, DiffErrV>
    decreases lines.len() - i, 0int,
        when 0 <= i < lines.len()
        via spec_parse_hunk_dec
{
    let body = spec_hunk_body(lines, i + 1, old_start, new_start, st.changes);
    spec_parse_lines(lines, body.1, DiffStateV { changes: body.0, ..st })
}

#[via_fn]
proof fn spec_parse_hunk_dec(
    lines: Seq<Seq<char>>,
    i: int,
    st: DiffStateV,
    old_start: u32,
    new_start: u32,
) {
    lemma_hunk_body_advances(lines, i + 1, old_start, new_start, st.changes);
}

/// The parsed unified diff of a text.
pub open spec fn spec_parse_unified_diff(s: Seq<char>) -> Result<Seq<FileChangesV>, DiffErrV> {
    spec_parse_lines(
        spec_lines(s),
        0,
        DiffStateV {
            files: Seq::empty(),
            old_path: Option::None,
            new_path: Option::None,
            changes: Seq::empty(),
        },
    )
}

/// An exact copy of an optional string.
fn opt_dup(o: &Option<String>) -> (r: Option<String>)
    ensures
        opt_str_view(r) == opt_str_view(*o),
{
    match o {
        None => None,
        Some(s) => Some(s.clone()),
    }
}

impl Change {
    /// An exact copy.
    pub fn dup(&self) -> (r: Change)
        ensures
            r@ == self@,
    {
        Change {
            kind: self.kind,
            old_line: self.old_line,
            new_line: self.new_line,
            content: self.content.clone(),
        }
    }
}

impl FileChanges {
    /// An exact copy.
    #[verifier::loop_isolation(false)]
    pub fn dup(&self) -> (r: FileChanges)
        ensures
            r@ == self@,
    {
        let mut ch: Vec<Change> = Vec::new();
        let mut i: usize = 0;
        while i < self.changes.len()
            invariant
                i <= self.changes@.len(),
                ch.deep_view() == self.changes.deep_view().subrange(0, i as int),
            decreases self.changes.len() - i,
        {
            ch.push(self.changes[i].dup());
            assert(ch.deep_view() =~~= self.changes.deep_view().subrange(0, i as int + 1));
            i = i + 1;
        }
        assert(ch.deep_view() =~~= self.changes.deep_view());
        let r = FileChanges {
            old_path: opt_dup(&self.old_path),
            new_path: opt_dup(&self.new_path),
            changes: ch,
        };
        assert(r@ == self@);
        r
    }
}

/// Close the pending file into `files`, as `spec_flush` describes.
fn flush(
    files: &mut Vec<FileChanges>,
    old_path: &mut Option<String>,
    new_path: &mut Option<String>,
    changes: &mut Vec<Change>,
)
    ensures
        ({
            let st0 = DiffStateV {
                files: old(files).deep_view(),
                old_path: opt_str_view(*old(old_path)),
                new_path: opt_str_view(*old(new_path)),
                changes: old(changes).deep_view(),
            };
            let st1 = spec_flush(st0);
            &&& final(files).deep_view() == st1.files
            &&& opt_str_view(*final(old_path)) == st1.old_path
            &&& opt_str_view(*final(new_path)) == st1.new_path
            &&& final(changes).deep_view() == st1.changes
        }),
{
    let has_any = changes.len() > 0 || old_path.is_some() || new_path.is_some();
    if has_any {
        let ghost f0 = files.deep_view();
        let op = opt_dup(old_path);
        let np = opt_dup(new_path);
        let mut ch: Vec<Change> = Vec::new();
        core::mem::swap(changes, &mut ch);
        files.push(FileChanges { old_path: op, new_path: np, changes: ch });
        *old_path = None;
        *new_path = None;
        proof {
            let st0 = DiffStateV {
                files: f0,
                old_path: opt_str_view(*old(old_path)),
                new_path: opt_str_view(*old(new_path)),
                changes: old(changes).deep_view(),
            };
            assert(files.deep_view() =~~= spec_flush(st0).files);
            assert(changes.deep_view() =~~= Seq::<ChangeV>::empty());
        }
    }
}

/// A line that ends a hunk body.
fn is_stop(l: &Vec<char>) -> (r: bool)
    ensures
        r == spec_stop_line(l@),
{
    let a = str_to_chars("@@ ");
    let d = str_to_chars("diff --git ");
    let m = str_to_chars("--- ");
    starts_with(l, &a) || starts_with(l, &d) || starts_with(l, &m)
}

/// Parse a unified diff into per-file change lists.
///
/// The result is exactly `spec_parse_unified_diff` of the input text: the
/// files in order of appearance, each with its markers' paths and its
/// hunks' lines; `MissingHeader` when nothing at all was found, and
/// `InvalidHunkHeader` carrying the malformed header text.
#[verifier::loop_isolation(false)]
#[verifier::rlimit(100)]
pub fn parse_unified_diff(input: &str) -> (r: Result<Vec<FileChanges>, DiffParseError>)
    ensures
        match r {
            Ok(files) => spec_parse_unified_diff(input@) matches Ok(fv) && files.deep_view() == fv,
            Err(e) => spec_parse_unified_diff(input@) matches Err(ev) && e@ == ev,
        },
{
    let chars = str_to_chars(input);
    let lines = split_lines(&chars);
    let ghost lv = lines.deep_view();
    let ghost target = spec_parse_unified_diff(input@);

    let mut files: Vec<FileChanges> = Vec::new();
    let mut old_path: Option<String> = None;
    let mut new_path: Option<String> = None;
    let mut changes: Vec<Change> = Vec::new();
    let mut i: usize = 0;

    let lit_diff = str_to_chars("diff --git ");
    let lit_minus = str_to_chars("--- ");
    let lit_plus = str_to_chars("+++ ");
    let lit_at = str_to_chars("@@ ");
    proof {
        reveal_strlit("diff --git ");
        reveal_strlit("--- ");
        reveal_strlit("+++ ");
        reveal_strlit("@@ ");
        assert(files.deep_view() =~~= Seq::<FileChangesV>::empty());
        assert(changes.deep_view() =~~= Seq::<ChangeV>::empty());
    }

    while i < lines.len()
        invariant
            i <= lines@.len(),
            lv == lines.deep_view(),
            lv.len() == lines@.len(),
            lit_diff@ == "diff --git "@,
            lit_minus@ == "--- "@,
            lit_plus@ == "+++ "@,
            lit_at@ == "@@ "@,
            spec_parse_lines(
                lv,
                i as int,
                DiffStateV {
                    files: files.deep_view(),
                    old_path: opt_str_view(old_path),
                    new_path: opt_str_view(new_path),
                    changes: changes.deep_view(),
                },
            ) == target,
        decreases lines.len() - i,
    {
        let ghost st0 = DiffStateV {
            files: files.deep_view(),
            old_path: opt_str_view(old_path),
            new_path: opt_str_view(new_path),
            changes: changes.deep_view(),
        };
        assert(lines[i as int]@ == lv[i as int]) by {
            assert(lines.deep_view()[i as int] == lines@[i as int].deep_view());
        }
        let l = &lines[i];
        if starts_with(l, &lit_diff) {
            flush(&mut files, &mut old_path, &mut new_path, &mut changes);
            i = i + 1;
        } else if starts_with(l, &lit_minus) {
            assert(l@.len() >= 4);
            let restv = subvec(l, 4, l.len());
            old_path = path_of(&restv);
            if i + 1 < lines.len() {
                assert(lines[i as int + 1]@ == lv[i as int + 1]) by {
                    assert(lines.deep_view()[i as int + 1] == lines@[i as int + 1].deep_view());
                }
                let nl2 = &lines[i + 1];
                if starts_with(nl2, &lit_plus) {
                    assert(nl2@.len() >= 4);
                    let nrest = subvec(nl2, 4, nl2.len());
                    new_path = path_of(&nrest);
                }
                i = i + 2;
            } else {
                i = i + 1;
            }
        } else if starts_with(l, &lit_at) {
            assert(l@.len() >= 3);
            let h = subvec(l, 3, l.len());
            match parse_hunk_header(&h) {
                None => {
                    return Err(DiffParseError::InvalidHunkHeader(chars_to_string(&h)));
                },
                Some(starts) => {
                    let ghost chv0 = changes.deep_view();
                    let ghost body = spec_hunk_body(lv, i as int + 1, starts.0, starts.1, chv0);
                    proof {
                        lemma_hunk_body_advances(lv, i as int + 1, starts.0, starts.1, chv0);
                    }
                    let mut old_ln = starts.0;
                    let mut new_ln = starts.1;
                    let mut j = i + 1;
                    let mut stopped = false;
                    while j < lines.len() && !stopped
                        invariant
                            i as int + 1 <= j as int <= lines@.len(),
                            stopped ==> j < lines@.len() && spec_stop_line(lv[j as int]),
                            spec_hunk_body(lv, j as int, old_ln, new_ln, changes.deep_view())
                                == body,
                        decreases lines.len() - j + (if stopped { 0int } else { 1int }),
                    {
                        assert(lines[j as int]@ == lv[j as int]) by {
                            assert(lines.deep_view()[j as int] == lines@[j as int].deep_view());
                        }
                        let bl = &lines[j];
                        if is_stop(bl) {
                            stopped = true;
                        } else {
                            let ghost cb = changes.deep_view();
                            if bl.len() > 0 && bl[0] == '+' {
                                let content = subvec(bl, 1, bl.len());
                                changes.push(
                                    Change {
                                        kind: ChangeKind::Added,
                                        old_line: None,
                                        new_line: Some(new_ln),
                                        content: chars_to_string(&content),
                                    },
                                );
                                proof {
                                    assert(changes.deep_view() =~~= cb.push(
                                        ChangeV {
                                            kind: ChangeKind::Added,
                                            old_line: Option::None,
                                            new_line: Option::Some(new_ln),
                                            content: lv[j as int].subrange(
                                                1,
                                                lv[j as int].len() as int,
                                            ),
                                        },
                                    ));
                                }
                                new_ln = sat_inc(new_ln);
                            } else if bl.len() > 0 && bl[0] == '-' {
                                let content = subvec(bl, 1, bl.len());
                                changes.push(
                                    Change {
                                        kind: ChangeKind::Removed,
                                        old_line: Some(old_ln),
                                        new_line: None,
                                        content: chars_to_string(&content),
                                    },
                                );
                                proof {
                                    assert(changes.deep_view() =~~= cb.push(
                                        ChangeV {
                                            kind: ChangeKind::Removed,
                                            old_line: Option::Some(old_ln),
                                            new_line: Option::None,
                                            content: lv[j as int].subrange(
                                                1,
                                                lv[j as int].len() as int,
                                            ),
                                        },
                                    ));
                                }
                                old_ln = sat_inc(old_ln);
                            } else if bl.len() == 0 || bl[0] == ' ' {
                                let content = if bl.len() > 0 {
                                    subvec(bl, 1, bl.len())
                                } else {
                                    subvec(bl, 0, bl.len())
                                };
                                proof {
                                    if lv[j as int].len() == 0 {
                                        assert(lv[j as int].subrange(0, lv[j as int].len() as int)
                                            =~= lv[j as int]);
                                    }
                                }
                                changes.push(
                                    Change {
                                        kind: ChangeKind::Context,
                                        old_line: Some(old_ln),
                                        new_line: Some(new_ln),
                                        content: chars_to_string(&content),
                                    },
                                );
                                proof {
                                    assert(changes.deep_view() =~~= cb.push(
                                        ChangeV {
                                            kind: ChangeKind::Context,
                                            old_line: Option::Some(old_ln),
                                            new_line: Option::Some(new_ln),
                                            content: if lv[j as int].len() > 0 && lv[j as int][0]
                                                == ' ' {
                                                lv[j as int].subrange(
                                                    1,
                                                    lv[j as int].len() as int,
                                                )
                                            } else {
                                                lv[j as int]
                                            },
                                        },
                                    ));
                                }
                                old_ln = sat_inc(old_ln);
                                new_ln = sat_inc(new_ln);
                            } else if bl[0] == '\\' {
                            } else {
                                let content = subvec(bl, 0, bl.len());
                                assert(content@ =~= lv[j as int]);
                                changes.push(
                                    Change {
                                        kind: ChangeKind::Context,
                                        old_line: Some(old_ln),
                                        new_line: Some(new_ln),
                                        content: chars_to_string(&content),
                                    },
                                );
                                proof {
                                    assert(changes.deep_view() =~~= cb.push(
                                        ChangeV {
                                            kind: ChangeKind::Context,
                                            old_line: Option::Some(old_ln),
                                            new_line: Option::Some(new_ln),
                                            content: lv[j as int],
                                        },
                                    ));
                                }
                                old_ln = sat_inc(old_ln);
                                new_ln = sat_inc(new_ln);
                            }
                            j = j + 1;
                        }
                    }
                    proof {
                        assert(spec_hunk_body(lv, j as int, old_ln, new_ln, changes.deep_view())
                            == (changes.deep_view(), j as int));
                        assert(body.0 == changes.deep_view() && body.1 == j as int);
                        assert(spec_parse_lines(lv, i as int, st0) == spec_parse_hunk(
                            lv,
                            i as int,
                            st0,
                            starts.0,
                            starts.1,
                        ));
                        assert(spec_parse_hunk(lv, i as int, st0, starts.0, starts.1)
                            == spec_parse_lines(
                            lv,
                            body.1,
                            DiffStateV { changes: body.0, ..st0 },
                        ));
                    }
                    i = j;
                },
            }
        } else {
            i = i + 1;
        }
    }
    flush(&mut files, &mut old_path, &mut new_path, &mut changes);
    if files.len() == 0 {
        proof {
            assert(files.deep_view().len() == 0);
        }
        Err(DiffParseError::MissingHeader)
    } else {
        Ok(files)
    }
}

} // verus!
