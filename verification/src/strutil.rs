//! Character-sequence utilities shared by the whole crate.
//!
//! Algorithms in this crate work over `Vec<char>` so that every step is
//! plain indexed data; `&str` and `String` appear only at the boundaries.

use vstd::prelude::*;

verus! {

/// Relies on `String::push`: appends one character at the end.
#[verifier::external_body]
pub fn push_char(s: &mut String, c: char)
    ensures
        final(s)@ == old(s)@ + seq![c],
{
    s.push(c);
}

/// Relies on `<str as PartialEq>::eq`: character-for-character equality.
#[verifier::external_body]
pub fn str_eq(a: &str, b: &str) -> (r: bool)
    ensures
        r == (a@ == b@),
{
    a == b
}

/// Copy the characters of a string slice into a vector.
#[verifier::loop_isolation(false)]
pub fn str_to_chars(s: &str) -> (v: Vec<char>)
    ensures
        v@ == s@,
{
    let n: usize = s.unicode_len();
    let mut v: Vec<char> = Vec::new();
    let mut i: usize = 0;
    while i < n
        invariant
            i <= n,
            v@ == s@.subrange(0, i as int),
        decreases n - i,
    {
        let c = s.get_char(i);
        v.push(c);
        i = i + 1;
    }
    assert(v@ =~= s@);
    v
}

/// Build an owned string from a vector of characters.
#[verifier::loop_isolation(false)]
pub fn chars_to_string(v: &Vec<char>) -> (s: String)
    ensures
        s@ == v@,
{
    let mut s = String::new();
    let mut i: usize = 0;
    while i < v.len()
        invariant
            i <= v.len(),
            s@ == v@.subrange(0, i as int),
        decreases v.len() - i,
    {
        push_char(&mut s, v[i]);
        assert(s@ =~= v@.subrange(0, i as int + 1));
        i = i + 1;
    }
    assert(s@ =~= v@);
    s
}

/// Compare two character vectors for equality.
#[verifier::loop_isolation(false)]
pub fn eq_chars(a: &Vec<char>, b: &Vec<char>) -> (r: bool)
    ensures
        r == (a@ == b@),
{
    if a.len() != b.len() {
        return false;
    }
    let mut i: usize = 0;
    while i < a.len()
        invariant
            i <= a.len(),
            a@.len() == b@.len(),
            forall|j: int| 0 <= j < i ==> a@[j] == b@[j],
        decreases a.len() - i,
    {
        if a[i] != b[i] {
            return false;
        }
        i = i + 1;
    }
    assert(a@ =~= b@);
    true
}

/// The view of an optional string.
pub open spec fn opt_str_view(o: Option<String>) -> Option<Seq<char>> {
    match o {
        Option::None => Option::None,
        Option::Some(s) => Option::Some(s@),
    }
}

/// A character sequence `p` stands at the start of `v`.
pub open spec fn is_prefix(p: Seq<char>, v: Seq<char>) -> bool {
    p.len() <= v.len() && v.subrange(0, p.len() as int) == p
}

/// A character sequence `p` stands at the end of `v`.
pub open spec fn is_suffix(p: Seq<char>, v: Seq<char>) -> bool {
    p.len() <= v.len() && v.subrange(v.len() - p.len(), v.len() as int) == p
}

/// `pat` occurs in `v` at position `i`.
pub open spec fn occurs_at(v: Seq<char>, pat: Seq<char>, i: int) -> bool {
    0 <= i && i + pat.len() <= v.len() && v.subrange(i, i + pat.len()) == pat
}

/// `pat` occurs somewhere in `v`.
pub open spec fn contains_seq(v: Seq<char>, pat: Seq<char>) -> bool {
    exists|i: int| occurs_at(v, pat, i)
}

#[verifier::loop_isolation(false)]
pub fn starts_with(v: &Vec<char>, p: &Vec<char>) -> (r: bool)
    ensures
        r == is_prefix(p@, v@),
{
    if p.len() > v.len() {
        return false;
    }
    let mut i: usize = 0;
    while i < p.len()
        invariant
            i <= p.len(),
            p@.len() <= v@.len(),
            forall|j: int| 0 <= j < i ==> v@[j] == p@[j],
        decreases p.len() - i,
    {
        if v[i] != p[i] {
            assert(v@.subrange(0, p@.len() as int)[i as int] != p@[i as int]);
            return false;
        }
        i = i + 1;
    }
    assert(v@.subrange(0, p@.len() as int) =~= p@);
    true
}

#[verifier::loop_isolation(false)]
pub fn ends_with(v: &Vec<char>, p: &Vec<char>) -> (r: bool)
    ensures
        r == is_suffix(p@, v@),
{
    if p.len() > v.len() {
        return false;
    }
    let off: usize = v.len() - p.len();
    let mut i: usize = 0;
    while i < p.len()
        invariant
            i <= p.len(),
            off == v@.len() - p@.len(),
            forall|j: int| 0 <= j < i ==> v@[off + j] == p@[j],
        decreases p.len() - i,
    {
        if v[off + i] != p[i] {
            assert(v@.subrange(v@.len() - p@.len(), v@.len() as int)[i as int] != p@[i as int]);
            return false;
        }
        i = i + 1;
    }
    assert(v@.subrange(v@.len() - p@.len(), v@.len() as int) =~= p@);
    true
}

/// Copy out `v[from..to]`.
#[verifier::loop_isolation(false)]
pub fn subvec(v: &Vec<char>, from: usize, to: usize) -> (r: Vec<char>)
    requires
        from <= to <= v@.len(),
    ensures
        r@ == v@.subrange(from as int, to as int),
{
    let mut r: Vec<char> = Vec::new();
    let mut i: usize = from;
    while i < to
        invariant
            from <= i <= to,
            r@ == v@.subrange(from as int, i as int),
        decreases to - i,
    {
        r.push(v[i]);
        assert(r@ =~= v@.subrange(from as int, i as int + 1));
        i = i + 1;
    }
    r
}

/// `pat` occurs at `i` in `v`, decided executably.
#[verifier::loop_isolation(false)]
fn occurs_at_exec(v: &Vec<char>, pat: &Vec<char>, i: usize) -> (r: bool)
    requires
        i + pat@.len() <= v@.len(),
    ensures
        r == occurs_at(v@, pat@, i as int),
{
    let n: usize = v.len();
    let mut j: usize = 0;
    while j < pat.len()
        invariant
            j <= pat.len(),
            n == v@.len(),
            i + pat@.len() <= v@.len(),
            forall|k: int| 0 <= k < j ==> v@[i + k] == pat@[k],
        decreases pat.len() - j,
    {
        assert(i + j < n);
        if v[i + j] != pat[j] {
            assert(v@.subrange(i as int, i + pat@.len())[j as int] != pat@[j as int]);
            return false;
        }
        j = j + 1;
    }
    assert(v@.subrange(i as int, i + pat@.len()) =~= pat@);
    true
}

/// Find the first occurrence of `pat` in `v` at or after `from`.
#[verifier::loop_isolation(false)]
pub fn index_of_sub(v: &Vec<char>, pat: &Vec<char>, from: usize) -> (r: Option<usize>)
    ensures
        match r {
            Some(i) => {
                &&& from <= i
                &&& occurs_at(v@, pat@, i as int)
                &&& forall|j: int| from <= j < i ==> !occurs_at(v@, pat@, j)
            },
            None => forall|j: int| from <= j ==> !occurs_at(v@, pat@, j),
        },
{
    if pat.len() == 0 {
        if from <= v.len() {
            assert(v@.subrange(from as int, from as int) =~= pat@);
            assert(occurs_at(v@, pat@, from as int));
            return Some(from);
        } else {
            return None;
        }
    }
    if pat.len() > v.len() {
        return None;
    }
    let last: usize = v.len() - pat.len();
    let mut i: usize = from;
    if from > last {
        assert(forall|j: int| from <= j ==> !occurs_at(v@, pat@, j));
        return None;
    }
    while i <= last
        invariant
            from <= i,
            i <= last + 1,
            pat@.len() >= 1,
            last == v@.len() - pat@.len(),
            forall|j: int| from <= j < i ==> !occurs_at(v@, pat@, j),
        decreases last + 1 - i,
    {
        if occurs_at_exec(v, pat, i) {
            return Some(i);
        }
        i = i + 1;
    }
    assert(forall|j: int| from <= j ==> !occurs_at(v@, pat@, j));
    None
}

/// Whether `pat` occurs anywhere in `v`.
pub fn contains_sub(v: &Vec<char>, pat: &Vec<char>) -> (r: bool)
    ensures
        r == contains_seq(v@, pat@),
{
    match index_of_sub(v, pat, 0) {
        Some(i) => {
            assert(occurs_at(v@, pat@, i as int));
            true
        },
        None => {
            assert forall|i: int| !occurs_at(v@, pat@, i) by {
                if 0 <= i {
                    assert(!occurs_at(v@, pat@, i));
                }
            }
            false
        },
    }
}

/// Find the first position at or after `from` holding character `c`.
pub fn index_of_char(v: &Vec<char>, c: char, from: usize) -> (r: Option<usize>)
    ensures
        match r {
            Some(i) => {
                &&& from <= i < v@.len()
                &&& v@[i as int] == c
                &&& forall|j: int| from <= j < i ==> v@[j] != c
            },
            None => forall|j: int| from <= j < v@.len() ==> v@[j] != c,
        },
{
    let mut i: usize = from;
    while i < v.len()
        invariant
            from <= i,
            forall|j: int| from <= j < i && j < v@.len() ==> v@[j] != c,
        decreases v.len() - i,
    {
        if v[i] == c {
            return Some(i);
        }
        i = i + 1;
    }
    None
}

/// A blank character: space, tab or carriage return.
pub open spec fn is_space(c: char) -> bool {
    c == ' ' || c == '\t' || c == '\r'
}

fn is_space_exec(c: char) -> (r: bool)
    ensures
        r == is_space(c),
{
    c == ' ' || c == '\t' || c == '\r'
}

/// `v` with its leading blanks removed.
pub open spec fn spec_trim_start(v: Seq<char>) -> Seq<char>
    decreases v.len(),
{
    if v.len() > 0 && is_space(v[0]) {
        spec_trim_start(v.drop_first())
    } else {
        v
    }
}

/// `v` with its trailing blanks removed.
pub open spec fn spec_trim_end(v: Seq<char>) -> Seq<char>
    decreases v.len(),
{
    if v.len() > 0 && is_space(v[v.len() - 1]) {
        spec_trim_end(v.drop_last())
    } else {
        v
    }
}

#[verifier::loop_isolation(false)]
pub fn trim_start(v: &Vec<char>) -> (r: Vec<char>)
    ensures
        r@ == spec_trim_start(v@),
{
    let mut i: usize = 0;
    assert(v@.subrange(0, v@.len() as int) =~= v@);
    while i < v.len() && is_space_exec(v[i])
        invariant
            i <= v@.len(),
            spec_trim_start(v@) == spec_trim_start(v@.subrange(i as int, v@.len() as int)),
        decreases v.len() - i,
    {
        proof {
            assert(v@.subrange(i as int, v@.len() as int).drop_first() =~= v@.subrange(
                i + 1 as int,
                v@.len() as int,
            ));
        }
        i = i + 1;
    }
    let r = subvec(v, i, v.len());
    proof {
        let tail = v@.subrange(i as int, v@.len() as int);
        assert(spec_trim_start(tail) == tail);
    }
    r
}

#[verifier::loop_isolation(false)]
pub fn trim_end(v: &Vec<char>) -> (r: Vec<char>)
    ensures
        r@ == spec_trim_end(v@),
{
    let mut j: usize = v.len();
    assert(v@.subrange(0, v@.len() as int) =~= v@);
    while j > 0 && is_space_exec(v[j - 1])
        invariant
            j <= v@.len(),
            spec_trim_end(v@) == spec_trim_end(v@.subrange(0, j as int)),
        decreases j,
    {
        proof {
            assert(v@.subrange(0, j as int).drop_last() =~= v@.subrange(0, j - 1 as int));
        }
        j = j - 1;
    }
    let r = subvec(v, 0, j);
    proof {
        let head = v@.subrange(0, j as int);
        assert(spec_trim_end(head) == head);
    }
    r
}

/// `v` trimmed on both ends.
pub open spec fn spec_trim(v: Seq<char>) -> Seq<char> {
    spec_trim_end(spec_trim_start(v))
}

pub fn trim(v: &Vec<char>) -> (r: Vec<char>)
    ensures
        r@ == spec_trim(v@),
{
    let t = trim_start(v);
    trim_end(&t)
}

/// Left-to-right, non-overlapping replacement of `pat` by `repl`.
pub open spec fn spec_replace(v: Seq<char>, pat: Seq<char>, repl: Seq<char>) -> Seq<char>
    decreases v.len(),
{
    if pat.len() == 0 || v.len() == 0 {
        v
    } else if pat.len() <= v.len() && v.subrange(0, pat.len() as int) == pat {
        repl + spec_replace(v.subrange(pat.len() as int, v.len() as int), pat, repl)
    } else {
        seq![v[0]] + spec_replace(v.drop_first(), pat, repl)
    }
}

#[verifier::loop_isolation(false)]
#[verifier::rlimit(60)]
pub fn replace_sub(v: &Vec<char>, pat: &Vec<char>, repl: &Vec<char>) -> (r: Vec<char>)
    ensures
        r@ == spec_replace(v@, pat@, repl@),
{
    if pat.len() == 0 {
        let mut out: Vec<char> = Vec::new();
        let mut i: usize = 0;
        while i < v.len()
            invariant
                i <= v.len(),
                out@ == v@.subrange(0, i as int),
            decreases v.len() - i,
        {
            out.push(v[i]);
            assert(out@ =~= v@.subrange(0, i as int + 1));
            i = i + 1;
        }
        assert(out@ =~= v@);
        return out;
    }
    let mut out: Vec<char> = Vec::new();
    let mut i: usize = 0;
    assert(v@.subrange(0, v@.len() as int) =~= v@);
    assert(Seq::<char>::empty() + spec_replace(v@, pat@, repl@) =~= spec_replace(v@, pat@, repl@));
    while i < v.len()
        invariant
            i <= v@.len(),
            pat@.len() > 0,
            out@ + spec_replace(v@.subrange(i as int, v@.len() as int), pat@, repl@)
                == spec_replace(v@, pat@, repl@),
        decreases v.len() - i,
    {
        let ghost tail = v@.subrange(i as int, v@.len() as int);
        let ghost out0 = out@;
        if pat.len() <= v.len() - i && occurs_at_exec(v, pat, i) {
            proof {
                assert(tail.subrange(0, pat@.len() as int) =~= v@.subrange(
                    i as int,
                    i as int + pat@.len(),
                ));
                assert(tail.subrange(pat@.len() as int, tail.len() as int) =~= v@.subrange(
                    i as int + pat@.len(),
                    v@.len() as int,
                ));
                assert(spec_replace(tail, pat@, repl@) == repl@ + spec_replace(
                    v@.subrange(i as int + pat@.len(), v@.len() as int),
                    pat@,
                    repl@,
                ));
            }
            let mut k: usize = 0;
            while k < repl.len()
                invariant
                    k <= repl.len(),
                    out@ == out0 + repl@.subrange(0, k as int),
                decreases repl.len() - k,
            {
                out.push(repl[k]);
                assert(out@ =~= out0 + repl@.subrange(0, k as int + 1));
                k = k + 1;
            }
            assert(out@ =~= out0 + repl@);
            i = i + pat.len();
            proof {
                let newtail = v@.subrange(i as int, v@.len() as int);
                assert((out0 + repl@) + spec_replace(newtail, pat@, repl@) =~= out0 + (repl@
                    + spec_replace(newtail, pat@, repl@)));
            }
        } else {
            proof {
                if pat@.len() <= tail.len() {
                    assert(tail.subrange(0, pat@.len() as int) =~= v@.subrange(
                        i as int,
                        i as int + pat@.len(),
                    ));
                }
                assert(tail.drop_first() =~= v@.subrange(i as int + 1, v@.len() as int));
                assert(spec_replace(tail, pat@, repl@) == seq![tail[0]] + spec_replace(
                    tail.drop_first(),
                    pat@,
                    repl@,
                ));
            }
            out.push(v[i]);
            proof {
                let newtail = v@.subrange(i as int + 1, v@.len() as int);
                assert((out0 + seq![v@[i as int]]) + spec_replace(newtail, pat@, repl@) =~= out0
                    + (seq![v@[i as int]] + spec_replace(newtail, pat@, repl@)));
            }
            i = i + 1;
        }
    }
    proof {
        assert(v@.subrange(i as int, v@.len() as int) =~= Seq::<char>::empty());
        assert(out@ + Seq::<char>::empty() =~= out@);
    }
    out
}

/// Replace the head token of a non-empty token list by `c` prepended to it.
pub open spec fn prepend_head(c: Seq<char>, ss: Seq<Seq<char>>) -> Seq<Seq<char>> {
    ss.update(0, c + ss[0])
}

/// Split `s` on `sep`, left to right, without overlap.
pub open spec fn spec_split(s: Seq<char>, sep: Seq<char>) -> Seq<Seq<char>>
    decreases s.len(),
{
    if sep.len() == 0 || s.len() == 0 {
        seq![s]
    } else if is_prefix(sep, s) {
        seq![Seq::<char>::empty()] + spec_split(s.subrange(sep.len() as int, s.len() as int), sep)
    } else {
        prepend_head(seq![s[0]], spec_split(s.drop_first(), sep))
    }
}

pub proof fn lemma_split_nonempty(s: Seq<char>, sep: Seq<char>)
    ensures
        spec_split(s, sep).len() >= 1,
    decreases s.len(),
{
    if sep.len() == 0 || s.len() == 0 {
    } else if is_prefix(sep, s) {
        lemma_split_nonempty(s.subrange(sep.len() as int, s.len() as int), sep);
    } else {
        lemma_split_nonempty(s.drop_first(), sep);
    }
}

#[verifier::loop_isolation(false)]
pub fn split_sub(v: &Vec<char>, sep: &Vec<char>) -> (r: Vec<Vec<char>>)
    requires
        sep@.len() > 0,
    ensures
        r.deep_view() == spec_split(v@, sep@),
{
    let n: usize = v.len();
    let mut out: Vec<Vec<char>> = Vec::new();
    let mut cur: Vec<char> = Vec::new();
    let mut i: usize = 0;
    proof {
        lemma_split_nonempty(v@, sep@);
        assert(v@.subrange(0, n as int) =~= v@);
        assert(prepend_head(cur@, spec_split(v@, sep@)) =~= spec_split(v@, sep@)) by {
            assert(Seq::<char>::empty() + spec_split(v@, sep@)[0] =~= spec_split(v@, sep@)[0]);
        }
        assert(out.deep_view() + prepend_head(cur@, spec_split(v@, sep@)) =~= spec_split(v@, sep@));
    }
    while i < n
        invariant
            i <= n,
            n == v@.len(),
            sep@.len() > 0,
            spec_split(v@, sep@) == out.deep_view() + prepend_head(
                cur@,
                spec_split(v@.subrange(i as int, n as int), sep@),
            ),
        decreases n - i,
    {
        let ghost tail = v@.subrange(i as int, n as int);
        let ghost out0 = out.deep_view();
        let ghost cur0 = cur@;
        proof {
            lemma_split_nonempty(tail, sep@);
        }
        if sep.len() <= n - i && occurs_at_exec(v, sep, i) {
            proof {
                assert(tail.subrange(0, sep@.len() as int) =~= v@.subrange(
                    i as int,
                    i as int + sep@.len(),
                ));
                assert(is_prefix(sep@, tail));
                let rest = tail.subrange(sep@.len() as int, tail.len() as int);
                assert(rest =~= v@.subrange(i as int + sep@.len(), n as int));
                lemma_split_nonempty(rest, sep@);
                assert(spec_split(tail, sep@) == seq![Seq::<char>::empty()] + spec_split(
                    rest,
                    sep@,
                ));
                assert(prepend_head(cur0, spec_split(tail, sep@)) =~= seq![cur0] + spec_split(
                    rest,
                    sep@,
                )) by {
                    assert(cur0 + Seq::<char>::empty() =~= cur0);
                }
                assert(prepend_head(Seq::<char>::empty(), spec_split(rest, sep@)) =~= spec_split(
                    rest,
                    sep@,
                )) by {
                    assert(Seq::<char>::empty() + spec_split(rest, sep@)[0] =~= spec_split(
                        rest,
                        sep@,
                    )[0]);
                }
            }
            out.push(cur);
            cur = Vec::new();
            proof {
                assert(out.deep_view() =~~= out0 + seq![cur0]);
                assert((out0 + seq![cur0]) + spec_split(
                    v@.subrange(i as int + sep@.len(), n as int),
                    sep@,
                ) =~= out0 + (seq![cur0] + spec_split(
                    v@.subrange(i as int + sep@.len(), n as int),
                    sep@,
                )));
            }
            i = i + sep.len();
            proof {
                assert(out.deep_view() + prepend_head(
                    cur@,
                    spec_split(v@.subrange(i as int, n as int), sep@),
                ) =~~= spec_split(v@, sep@));
            }
        } else {
            proof {
                if sep@.len() <= tail.len() {
                    assert(tail.subrange(0, sep@.len() as int) =~= v@.subrange(
                        i as int,
                        i as int + sep@.len(),
                    ));
                }
                assert(!is_prefix(sep@, tail));
                let rest = tail.drop_first();
                assert(rest =~= v@.subrange(i as int + 1, n as int));
                lemma_split_nonempty(rest, sep@);
                assert(spec_split(tail, sep@) == prepend_head(
                    seq![tail[0]],
                    spec_split(rest, sep@),
                ));
                assert(prepend_head(cur0, spec_split(tail, sep@)) =~= prepend_head(
                    cur0 + seq![v@[i as int]],
                    spec_split(rest, sep@),
                )) by {
                    assert(cur0 + (seq![tail[0]] + spec_split(rest, sep@)[0]) =~= (cur0 + seq![
                        v@[i as int],
                    ]) + spec_split(rest, sep@)[0]);
                }
            }
            cur.push(v[i]);
            i = i + 1;
            proof {
                assert(out.deep_view() + prepend_head(
                    cur@,
                    spec_split(v@.subrange(i as int, n as int), sep@),
                ) =~~= spec_split(v@, sep@));
            }
        }
    }
    proof {
        let tail = v@.subrange(i as int, n as int);
        assert(tail =~= Seq::<char>::empty());
        assert(spec_split(tail, sep@) == seq![tail]);
        assert(prepend_head(cur@, spec_split(tail, sep@)) =~= seq![cur@]) by {
            assert(cur@ + tail =~= cur@);
        }
    }
    let ghost outb = out.deep_view();
    let ghost curb = cur@;
    out.push(cur);
    proof {
        assert(out.deep_view() =~~= outb + seq![curb]);
    }
    out
}

/// Join token views with a separator.
pub open spec fn spec_join(parts: Seq<Seq<char>>, sep: Seq<char>) -> Seq<char>
    decreases parts.len(),
{
    if parts.len() == 0 {
        Seq::<char>::empty()
    } else if parts.len() == 1 {
        parts[0]
    } else {
        parts[0] + sep + spec_join(parts.drop_first(), sep)
    }
}

pub proof fn lemma_join_push(parts: Seq<Seq<char>>, sep: Seq<char>, x: Seq<char>)
    requires
        parts.len() >= 1,
    ensures
        spec_join(parts.push(x), sep) == spec_join(parts, sep) + sep + x,
    decreases parts.len(),
{
    if parts.len() == 1 {
        assert(parts.push(x).drop_first() =~= seq![x]);
        assert(spec_join(seq![x], sep) == x);
        assert(spec_join(parts.push(x), sep) == parts[0] + sep + x);
    } else {
        lemma_join_push(parts.drop_first(), sep, x);
        assert(parts.push(x).drop_first() =~= parts.drop_first().push(x));
        assert(parts[0] + sep + (spec_join(parts.drop_first(), sep) + sep + x) =~= (parts[0] + sep
            + spec_join(parts.drop_first(), sep)) + sep + x);
    }
}

#[verifier::loop_isolation(false)]
pub fn join_chars(parts: &Vec<Vec<char>>, sep: &Vec<char>) -> (r: Vec<char>)
    ensures
        r@ == spec_join(parts.deep_view(), sep@),
{
    let ghost pv = parts.deep_view();
    if parts.len() == 0 {
        let r: Vec<char> = Vec::new();
        return r;
    }
    let mut acc: Vec<char> = Vec::new();
    let first = &parts[0];
    let mut k: usize = 0;
    while k < first.len()
        invariant
            k <= first.len(),
            acc@ == pv[0].subrange(0, k as int),
            pv[0] == parts@[0]@,
        decreases first.len() - k,
    {
        acc.push(first[k]);
        assert(acc@ =~= pv[0].subrange(0, k as int + 1));
        k = k + 1;
    }
    assert(acc@ =~= pv[0]);
    proof {
        assert(pv.subrange(0, 1) =~= seq![pv[0]]);
        assert(spec_join(pv.subrange(0, 1), sep@) == pv[0]);
    }
    let mut i: usize = 1;
    while i < parts.len()
        invariant
            1 <= i <= parts.len(),
            acc@ == spec_join(pv.subrange(0, i as int), sep@),
        decreases parts.len() - i,
    {
        let ghost acc0 = acc@;
        let mut k: usize = 0;
        while k < sep.len()
            invariant
                k <= sep.len(),
                acc@ == acc0 + sep@.subrange(0, k as int),
            decreases sep.len() - k,
        {
            acc.push(sep[k]);
            assert(acc@ =~= acc0 + sep@.subrange(0, k as int + 1));
            k = k + 1;
        }
        assert(acc@ =~= acc0 + sep@);
        let ghost acc1 = acc@;
        let part = &parts[i];
        let mut k2: usize = 0;
        while k2 < part.len()
            invariant
                k2 <= part.len(),
                acc@ == acc1 + pv[i as int].subrange(0, k2 as int),
                pv[i as int] == parts@[i as int]@,
            decreases part.len() - k2,
        {
            acc.push(part[k2]);
            assert(acc@ =~= acc1 + pv[i as int].subrange(0, k2 as int + 1));
            k2 = k2 + 1;
        }
        assert(acc@ =~= acc1 + pv[i as int]);
        proof {
            lemma_join_push(pv.subrange(0, i as int), sep@, pv[i as int]);
            assert(pv.subrange(0, i as int).push(pv[i as int]) =~= pv.subrange(0, i as int + 1));
            assert((acc0 + sep@) + pv[i as int] =~= acc0 + sep@ + pv[i as int]);
        }
        i = i + 1;
    }
    assert(pv.subrange(0, parts@.len() as int) =~= pv);
    acc
}

/// The character for one decimal digit value.
pub open spec fn digit_char(d: int) -> char {
    if d == 0 { '0' } else if d == 1 { '1' } else if d == 2 { '2' } else if d == 3 { '3' }
    else if d == 4 { '4' } else if d == 5 { '5' } else if d == 6 { '6' } else if d == 7 { '7' }
    else if d == 8 { '8' } else { '9' }
}

/// Decimal representation of a natural number, most significant digit first.
pub open spec fn spec_dec(n: nat) -> Seq<char>
    decreases n,
{
    if n < 10 {
        seq![digit_char(n as int)]
    } else {
        spec_dec(n / 10) + seq![digit_char((n % 10) as int)]
    }
}

fn digit_char_exec(d: u64) -> (c: char)
    requires
        d < 10,
    ensures
        c == digit_char(d as int),
{
    if d == 0 { '0' } else if d == 1 { '1' } else if d == 2 { '2' } else if d == 3 { '3' }
    else if d == 4 { '4' } else if d == 5 { '5' } else if d == 6 { '6' } else if d == 7 { '7' }
    else if d == 8 { '8' } else { '9' }
}

/// Decimal digits of `n`, most significant first.
pub fn u64_to_chars(n: u64) -> (r: Vec<char>)
    ensures
        r@ == spec_dec(n as nat),
    decreases n,
{
    if n < 10 {
        let mut r: Vec<char> = Vec::new();
        r.push(digit_char_exec(n));
        assert(r@ =~= seq![digit_char(n as int)]);
        r
    } else {
        let mut r = u64_to_chars(n / 10);
        let ghost r0 = r@;
        r.push(digit_char_exec(n % 10));
        assert(r@ =~= r0 + seq![digit_char((n % 10) as int)]);
        r
    }
}

pub fn u32_to_chars(n: u32) -> (r: Vec<char>)
    ensures
        r@ == spec_dec(n as nat),
{
    u64_to_chars(n as u64)
}

/// The numeric value of a decimal digit character, or -1.
pub open spec fn digit_val(c: char) -> int {
    if c == '0' { 0 } else if c == '1' { 1 } else if c == '2' { 2 } else if c == '3' { 3 }
    else if c == '4' { 4 } else if c == '5' { 5 } else if c == '6' { 6 } else if c == '7' { 7 }
    else if c == '8' { 8 } else if c == '9' { 9 } else { -1 }
}

pub open spec fn is_digit(c: char) -> bool {
    digit_val(c) >= 0
}

pub open spec fn all_digits(s: Seq<char>) -> bool {
    forall|i: int| 0 <= i < s.len() ==> is_digit(s[i])
}

/// The value of a digit string read in base ten.
pub open spec fn dec_val(s: Seq<char>) -> int
    decreases s.len(),
{
    if s.len() == 0 {
        0
    } else {
        dec_val(s.drop_last()) * 10 + digit_val(s.last())
    }
}

/// A string that `u32::from_str` accepts: digits only, at least one, in range.
pub open spec fn valid_u32(s: Seq<char>) -> bool {
    s.len() > 0 && all_digits(s) && dec_val(s) <= u32::MAX
}

pub proof fn lemma_dec_val_nonneg(s: Seq<char>)
    requires
        all_digits(s),
    ensures
        dec_val(s) >= 0,
    decreases s.len(),
{
    if s.len() > 0 {
        assert(all_digits(s.drop_last()));
        lemma_dec_val_nonneg(s.drop_last());
    }
}

pub proof fn lemma_dec_val_prefix(s: Seq<char>, i: int)
    requires
        all_digits(s),
        0 <= i <= s.len(),
    ensures
        dec_val(s.subrange(0, i)) <= dec_val(s),
    decreases s.len() - i,
{
    if i == s.len() {
        assert(s.subrange(0, i) =~= s);
    } else {
        lemma_dec_val_prefix(s, i + 1);
        let p = s.subrange(0, i + 1);
        assert(p.drop_last() =~= s.subrange(0, i));
        assert(all_digits(p));
        lemma_dec_val_nonneg(s.subrange(0, i));
        assert(dec_val(p) == dec_val(s.subrange(0, i)) * 10 + digit_val(p.last()));
        assert(digit_val(p.last()) >= 0);
        assert(dec_val(s.subrange(0, i)) <= dec_val(p));
    }
}

fn digit_val_exec(c: char) -> (r: i32)
    ensures
        r as int == digit_val(c),
{
    if c == '0' { 0 } else if c == '1' { 1 } else if c == '2' { 2 } else if c == '3' { 3 }
    else if c == '4' { 4 } else if c == '5' { 5 } else if c == '6' { 6 } else if c == '7' { 7 }
    else if c == '8' { 8 } else if c == '9' { 9 } else { -1 }
}

/// Parse a decimal `u32`; malformed or out-of-range input yields zero.
#[verifier::loop_isolation(false)]
pub fn parse_u32_or_zero(v: &Vec<char>) -> (r: u32)
    ensures
        valid_u32(v@) ==> r as int == dec_val(v@),
        !valid_u32(v@) ==> r == 0,
{
    if v.len() == 0 {
        return 0;
    }
    let mut acc: u64 = 0;
    let mut i: usize = 0;
    while i < v.len()
        invariant
            i <= v@.len(),
            acc as int == dec_val(v@.subrange(0, i as int)),
            acc <= u32::MAX,
            forall|j: int| 0 <= j < i ==> is_digit(v@[j]),
        decreases v.len() - i,
    {
        let d = digit_val_exec(v[i]);
        if d < 0 {
            assert(!all_digits(v@));
            return 0;
        }
        let acc2: u64 = acc * 10 + (d as u64);
        proof {
            assert(v@.subrange(0, i as int + 1).drop_last() =~= v@.subrange(0, i as int));
        }
        if acc2 > u32::MAX as u64 {
            proof {
                if valid_u32(v@) {
                    lemma_dec_val_prefix(v@, i as int + 1);
                }
            }
            return 0;
        }
        acc = acc2;
        i = i + 1;
    }
    assert(v@.subrange(0, v@.len() as int) =~= v@);
    acc as u32
}

/// Strict lexicographic order on character sequences, by code point.
pub open spec fn lex_lt(a: Seq<char>, b: Seq<char>) -> bool
    decreases a.len(),
{
    if b.len() == 0 {
        false
    } else if a.len() == 0 {
        true
    } else if a[0] != b[0] {
        a[0] < b[0]
    } else {
        lex_lt(a.drop_first(), b.drop_first())
    }
}

pub open spec fn lex_le(a: Seq<char>, b: Seq<char>) -> bool {
    lex_lt(a, b) || a == b
}

/// The order is total.
pub proof fn lemma_lex_total(a: Seq<char>, b: Seq<char>)
    ensures
        lex_lt(a, b) || lex_lt(b, a) || a == b,
    decreases a.len(),
{
    if b.len() == 0 {
        if a.len() == 0 {
            assert(a =~= b);
        }
    } else if a.len() == 0 {
    } else if a[0] != b[0] {
    } else {
        lemma_lex_total(a.drop_first(), b.drop_first());
        if a.drop_first() == b.drop_first() {
            assert(a.drop_first().len() == b.drop_first().len());
            assert(a.len() == b.len());
            assert forall|i: int| 0 <= i < a.len() implies a[i] == b[i] by {
                if i >= 1 {
                    assert(a[i] == a.drop_first()[i - 1]);
                    assert(b[i] == b.drop_first()[i - 1]);
                }
            }
            assert(a =~= b);
        }
    }
}

/// If `a` and `b` agree on their first `i` characters, the order is decided
/// by the remainders.
pub proof fn lemma_lex_skip(a: Seq<char>, b: Seq<char>, i: int)
    requires
        0 <= i <= a.len(),
        i <= b.len(),
        forall|j: int| 0 <= j < i ==> a[j] == b[j],
    ensures
        lex_lt(a, b) == lex_lt(a.subrange(i, a.len() as int), b.subrange(i, b.len() as int)),
    decreases i,
{
    if i == 0 {
        assert(a.subrange(0, a.len() as int) =~= a);
        assert(b.subrange(0, b.len() as int) =~= b);
    } else {
        assert(a.len() > 0 && b.len() > 0 && a[0] == b[0]);
        lemma_lex_skip(a.drop_first(), b.drop_first(), i - 1);
        assert(a.drop_first().subrange(i - 1, a.drop_first().len() as int) =~= a.subrange(
            i,
            a.len() as int,
        ));
        assert(b.drop_first().subrange(i - 1, b.drop_first().len() as int) =~= b.subrange(
            i,
            b.len() as int,
        ));
    }
}

/// The strict order never relates a sequence to itself.
pub proof fn lemma_lex_irrefl(a: Seq<char>)
    ensures
        !lex_lt(a, a),
    decreases a.len(),
{
    if a.len() > 0 {
        lemma_lex_irrefl(a.drop_first());
    }
}

/// The strict order is transitive.
pub proof fn lemma_lex_trans(a: Seq<char>, b: Seq<char>, c: Seq<char>)
    requires
        lex_lt(a, b),
        lex_lt(b, c),
    ensures
        lex_lt(a, c),
    decreases a.len() + b.len() + c.len(),
{
    if c.len() == 0 {
    } else if a.len() == 0 {
    } else if b.len() == 0 {
    } else {
        if a[0] != b[0] {
            if b[0] != c[0] {
            } else {
            }
        } else {
            if b[0] != c[0] {
            } else {
                lemma_lex_trans(a.drop_first(), b.drop_first(), c.drop_first());
            }
        }
    }
}

/// Decide `lex_lt` on two character vectors.
pub fn lex_lt_chars(a: &Vec<char>, b: &Vec<char>) -> (r: bool)
    ensures
        r == lex_lt(a@, b@),
{
    let le = lex_le_chars(a, b);
    let e = eq_chars(a, b);
    proof {
        if e {
            lemma_lex_irrefl(a@);
        }
    }
    le && !e
}

/// Decide `lex_le` on two character vectors.
#[verifier::loop_isolation(false)]
pub fn lex_le_chars(a: &Vec<char>, b: &Vec<char>) -> (r: bool)
    ensures
        r == lex_le(a@, b@),
{
    let mut i: usize = 0;
    let an = a.len();
    let bn = b.len();
    let m = if an < bn { an } else { bn };
    while i < m
        invariant
            i <= m,
            m == if an < bn { an } else { bn },
            an == a@.len(),
            bn == b@.len(),
            forall|j: int| 0 <= j < i ==> a@[j] == b@[j],
        decreases m - i,
    {
        let ca = a[i];
        let cb = b[i];
        if ca != cb {
            proof {
                lemma_lex_skip(a@, b@, i as int);
                let ra = a@.subrange(i as int, a@.len() as int);
                let rb = b@.subrange(i as int, b@.len() as int);
                assert(ra[0] == a@[i as int] && rb[0] == b@[i as int]);
                if a@ == b@ {
                    assert(a@[i as int] == b@[i as int]);
                }
            }
            return ca < cb;
        }
        i = i + 1;
    }
    proof {
        lemma_lex_skip(a@, b@, m as int);
        let ra = a@.subrange(m as int, a@.len() as int);
        let rb = b@.subrange(m as int, b@.len() as int);
        if an == bn {
            assert(a@ =~= b@);
        } else if an < bn {
            assert(ra.len() == 0 && rb.len() > 0);
        } else {
            assert(rb.len() == 0);
            assert(!lex_lt(a@, b@));
            if a@ == b@ {
                assert(a@.len() == b@.len());
            }
        }
    }
    an <= bn
}


/// The position of the last occurrence of `pat` in `s`.
pub open spec fn spec_rfind_sub(s: Seq<char>, pat: Seq<char>) -> Option<int>
    decreases s.len(),
{
    if s.len() < pat.len() {
        Option::None
    } else if occurs_at(s, pat, s.len() - pat.len()) {
        Option::Some(s.len() - pat.len())
    } else if s.len() == 0 {
        Option::None
    } else {
        spec_rfind_sub(s.drop_last(), pat)
    }
}

pub proof fn lemma_rfind_sub(s: Seq<char>, pat: Seq<char>)
    ensures
        match spec_rfind_sub(s, pat) {
            Option::None => forall|j: int| !occurs_at(s, pat, j),
            Option::Some(i) => occurs_at(s, pat, i) && forall|j: int| j > i ==> !occurs_at(s, pat, j),
        },
    decreases s.len(),
{
    if s.len() < pat.len() {
        assert forall|j: int| true implies !occurs_at(s, pat, j) by {}
    } else if occurs_at(s, pat, s.len() - pat.len()) {
        assert forall|j: int| j > s.len() - pat.len() implies !occurs_at(s, pat, j) by {}
    } else if s.len() == 0 {
    } else {
        lemma_rfind_sub(s.drop_last(), pat);
        let d = s.drop_last();
        assert forall|j: int| 0 <= j && j + pat.len() <= d.len() implies (occurs_at(s, pat, j)
            == occurs_at(d, pat, j)) by {
            assert(d.subrange(j, j + pat.len() as int) =~= s.subrange(j, j + pat.len() as int));
        }
        match spec_rfind_sub(d, pat) {
            Option::None => {
                assert forall|j: int| true implies !occurs_at(s, pat, j) by {
                    if 0 <= j && j + pat.len() <= d.len() {
                        assert(!occurs_at(d, pat, j));
                    }
                }
            },
            Option::Some(i) => {
                assert(occurs_at(d, pat, i));
                assert(occurs_at(s, pat, i));
                assert forall|j: int| j > i implies !occurs_at(s, pat, j) by {
                    if 0 <= j && j + pat.len() <= d.len() {
                        assert(!occurs_at(d, pat, j));
                    }
                }
            },
        }
    }
}

/// Find the last occurrence of `pat`, executably.
#[verifier::loop_isolation(false)]
pub fn rfind_sub(v: &Vec<char>, pat: &Vec<char>) -> (r: Option<usize>)
    requires
        pat@.len() > 0,
    ensures
        match r {
            Some(i) => spec_rfind_sub(v@, pat@) == Option::Some(i as int),
            None => spec_rfind_sub(v@, pat@) == Option::<int>::None,
        },
{
    proof {
        lemma_rfind_sub(v@, pat@);
    }
    if pat.len() > v.len() {
        proof {
            match spec_rfind_sub(v@, pat@) {
                Option::None => {},
                Option::Some(i) => {
                    assert(occurs_at(v@, pat@, i));
                    assert(false);
                },
            }
        }
        return None;
    }
    let mut i: usize = v.len() - pat.len() + 1;
    while i > 0
        invariant
            i <= v@.len() - pat@.len() + 1,
            forall|j: int| i <= j ==> !occurs_at(v@, pat@, j),
        decreases i,
    {
        i = i - 1;
        if occurs_at_exec(v, pat, i) {
            proof {
                match spec_rfind_sub(v@, pat@) {
                    Option::None => {
                        assert(!occurs_at(v@, pat@, i as int));
                        assert(false);
                    },
                    Option::Some(k) => {
                        if k > i as int {
                            assert(!occurs_at(v@, pat@, k));
                            assert(false);
                        }
                        if k < i as int {
                            assert(!occurs_at(v@, pat@, i as int));
                            assert(false);
                        }
                    },
                }
            }
            return Some(i);
        }
    }
    proof {
        match spec_rfind_sub(v@, pat@) {
            Option::None => {},
            Option::Some(k) => {
                assert(!occurs_at(v@, pat@, k));
                assert(false);
            },
        }
    }
    None
}

/// Strip every repetition of a trailing `pat` from `s`.
pub open spec fn spec_strip_all_suffix(s: Seq<char>, pat: Seq<char>) -> Seq<char>
    decreases s.len(),
{
    if pat.len() > 0 && is_suffix(pat, s) {
        spec_strip_all_suffix(s.subrange(0, s.len() - pat.len()), pat)
    } else {
        s
    }
}

#[verifier::loop_isolation(false)]
pub fn strip_all_suffix(v: &Vec<char>, pat: &Vec<char>) -> (r: Vec<char>)
    requires
        pat@.len() > 0,
    ensures
        r@ == spec_strip_all_suffix(v@, pat@),
{
    let mut j: usize = v.len();
    assert(v@.subrange(0, v@.len() as int) =~= v@);
    while j >= pat.len() && occurs_at_exec(v, pat, j - pat.len())
        invariant
            j <= v@.len(),
            spec_strip_all_suffix(v@, pat@) == spec_strip_all_suffix(
                v@.subrange(0, j as int),
                pat@,
            ),
        decreases j,
    {
        proof {
            let head = v@.subrange(0, j as int);
            assert(head.subrange(head.len() - pat@.len(), head.len() as int) =~= v@.subrange(
                j - pat@.len(),
                j as int,
            ));
            assert(is_suffix(pat@, head));
            assert(head.subrange(0, head.len() - pat@.len()) =~= v@.subrange(
                0,
                j - pat@.len(),
            ));
        }
        j = j - pat.len();
    }
    proof {
        let head = v@.subrange(0, j as int);
        if pat@.len() <= head.len() {
            assert(head.subrange(head.len() - pat@.len(), head.len() as int) =~= v@.subrange(
                j - pat@.len(),
                j as int,
            ));
        }
        assert(!is_suffix(pat@, head));
    }
    subvec(v, 0, j)
}

/// The position of the first occurrence of `pat` in `s`.
pub open spec fn spec_find_sub(s: Seq<char>, pat: Seq<char>) -> Option<int>
    decreases s.len(),
{
    if pat.len() <= s.len() && s.subrange(0, pat.len() as int) == pat {
        Option::Some(0)
    } else if s.len() == 0 {
        Option::None
    } else {
        match spec_find_sub(s.drop_first(), pat) {
            Option::None => Option::None,
            Option::Some(i) => Option::Some(i + 1),
        }
    }
}

pub proof fn lemma_find_sub(s: Seq<char>, pat: Seq<char>)
    ensures
        match spec_find_sub(s, pat) {
            Option::None => forall|j: int| !occurs_at(s, pat, j),
            Option::Some(i) => occurs_at(s, pat, i) && forall|j: int|
                0 <= j < i ==> !occurs_at(s, pat, j),
        },
    decreases s.len(),
{
    if pat.len() <= s.len() && s.subrange(0, pat.len() as int) == pat {
    } else if s.len() == 0 {
        assert forall|j: int| true implies !occurs_at(s, pat, j) by {}
    } else {
        lemma_find_sub(s.drop_first(), pat);
        let d = s.drop_first();
        assert forall|j: int| 1 <= j && j + pat.len() <= s.len() implies (occurs_at(s, pat, j)
            == occurs_at(d, pat, j - 1)) by {
            assert(d.subrange(j - 1, j - 1 + pat.len() as int) =~= s.subrange(
                j,
                j + pat.len() as int,
            ));
        }
        match spec_find_sub(d, pat) {
            Option::None => {
                assert forall|j: int| true implies !occurs_at(s, pat, j) by {
                    if 1 <= j && j + pat.len() <= s.len() {
                        assert(!occurs_at(d, pat, j - 1));
                    }
                }
            },
            Option::Some(i) => {
                assert(occurs_at(d, pat, i));
                assert(occurs_at(s, pat, i + 1));
                assert forall|j: int| 0 <= j < i + 1 implies !occurs_at(s, pat, j) by {
                    if 1 <= j && j + pat.len() <= s.len() {
                        assert(!occurs_at(d, pat, j - 1));
                    }
                }
            },
        }
    }
}

/// Find the first occurrence of `pat`, agreeing with `spec_find_sub`.
pub fn find_sub(v: &Vec<char>, pat: &Vec<char>) -> (r: Option<usize>)
    ensures
        match r {
            Some(i) => spec_find_sub(v@, pat@) == Option::Some(i as int),
            None => spec_find_sub(v@, pat@) == Option::<int>::None,
        },
{
    proof {
        lemma_find_sub(v@, pat@);
    }
    match index_of_sub(v, pat, 0) {
        Some(i) => {
            proof {
                match spec_find_sub(v@, pat@) {
                    Option::None => {
                        assert(occurs_at(v@, pat@, i as int));
                        assert(false);
                    },
                    Option::Some(k) => {
                        if k < i as int {
                            assert(!occurs_at(v@, pat@, k));
                            assert(false);
                        }
                        if k > i as int {
                            assert(!occurs_at(v@, pat@, i as int));
                            assert(false);
                        }
                    },
                }
            }
            Some(i)
        },
        None => {
            proof {
                match spec_find_sub(v@, pat@) {
                    Option::None => {},
                    Option::Some(k) => {
                        assert(occurs_at(v@, pat@, k));
                        assert(false);
                    },
                }
            }
            None
        },
    }
}

/// Decide whether a character vector is a valid decimal `u32`
/// literal: nonempty, digits only, within range.
#[verifier::loop_isolation(false)]
pub fn is_valid_u32_chars(v: &Vec<char>) -> (r: bool)
    ensures
        r == valid_u32(v@),
{
    if v.len() == 0 {
        return false;
    }
    let mut i: usize = 0;
    while i < v.len()
        invariant
            i <= v@.len(),
            forall|j: int| 0 <= j < i ==> is_digit(v@[j]),
        decreases v.len() - i,
    {
        let c = v[i];
        let d = c == '0' || c == '1' || c == '2' || c == '3' || c == '4' || c == '5' || c == '6'
            || c == '7' || c == '8' || c == '9';
        if !d {
            assert(!is_digit(v@[i as int]));
            return false;
        }
        i = i + 1;
    }
    assert(all_digits(v@));
    let mut acc: u64 = 0;
    let mut k: usize = 0;
    while k < v.len()
        invariant
            k <= v@.len(),
            all_digits(v@),
            acc as int == dec_val(v@.subrange(0, k as int)),
            acc <= u32::MAX,
        decreases v.len() - k,
    {
        let c = v[k];
        let d: u64 = if c == '0' {
            0
        } else if c == '1' {
            1
        } else if c == '2' {
            2
        } else if c == '3' {
            3
        } else if c == '4' {
            4
        } else if c == '5' {
            5
        } else if c == '6' {
            6
        } else if c == '7' {
            7
        } else if c == '8' {
            8
        } else {
            9
        };
        proof {
            assert(v@.subrange(0, k as int + 1).drop_last() =~= v@.subrange(0, k as int));
        }
        let acc2 = acc * 10 + d;
        if acc2 > u32::MAX as u64 {
            proof {
                if valid_u32(v@) {
                    lemma_dec_val_prefix(v@, k as int + 1);
                }
            }
            return false;
        }
        acc = acc2;
        k = k + 1;
    }
    proof {
        assert(v@.subrange(0, v@.len() as int) =~= v@);
    }
    true
}

} // verus!
