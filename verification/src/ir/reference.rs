//! Call sites, resolved edges and the in-memory symbol index.

use vstd::prelude::*;
use crate::ir::{Symbol, SymbolId};
use crate::strutil::str_eq;

verus! {

#[derive(Debug, Clone, Copy, PartialEq, Eq, Structural)]
pub enum RefKind {
    Call,
}

/// A syntactic call site not yet resolved to a target symbol.
#[derive(Debug, Clone, PartialEq, Eq)]
pub struct UnresolvedRef {
    pub name: String,
    pub kind: RefKind,
    pub file: String,
    pub line: u32,
    pub qualifier: Option<String>,
    pub is_method: bool,
}

/// Mathematical value of an `UnresolvedRef`.
pub struct URefV {
    pub name: Seq<char>,
    pub kind: RefKind,
    pub file: Seq<char>,
    pub line: u32,
    pub qualifier: Option<Seq<char>>,
    pub is_method: bool,
}

impl View for UnresolvedRef {
    type V = URefV;

    open spec fn view(&self) -> URefV {
        URefV {
            name: self.name@,
            kind: self.kind,
            file: self.file@,
            line: self.line,
            qualifier: crate::strutil::opt_str_view(self.qualifier),
            is_method: self.is_method,
        }
    }
}

impl DeepView for UnresolvedRef {
    type V = URefV;

    open spec fn deep_view(&self) -> URefV {
        self@
    }
}

/// A resolved call edge between two symbols.
#[derive(Debug, Clone, PartialEq, Eq)]
pub struct Reference {
    pub from: SymbolId,
    pub to: SymbolId,
    pub kind: RefKind,
    pub file: String,
    pub line: u32,
}

/// Mathematical value of a `Reference`.
pub struct ReferenceV {
    pub from: Seq<char>,
    pub to: Seq<char>,
    pub kind: RefKind,
    pub file: Seq<char>,
    pub line: u32,
}

impl View for Reference {
    type V = ReferenceV;

    open spec fn view(&self) -> ReferenceV {
        ReferenceV {
            from: self.from.0@,
            to: self.to.0@,
            kind: self.kind,
            file: self.file@,
            line: self.line,
        }
    }
}

impl DeepView for Reference {
    type V = ReferenceV;

    open spec fn deep_view(&self) -> ReferenceV {
        self@
    }
}

impl Reference {
    /// An exact copy.
    pub fn dup(&self) -> (r: Reference)
        ensures
            r == *self,
    {
        Reference {
            from: self.from.dup(),
            to: self.to.dup(),
            kind: self.kind,
            file: self.file.clone(),
            line: self.line,
        }
    }
}

/// The full symbol set of a workspace. Lookups by name and by file are
/// derived from the one backing vector, so they can never go stale.
#[derive(Debug)]
pub struct SymbolIndex {
    pub symbols: Vec<Symbol>,
}

/// `s` is declared in `file` and its range contains `line`.
pub open spec fn sym_contains(s: Symbol, file: Seq<char>, line: u32) -> bool {
    s.file@ == file && s.range.start_line <= line && line <= s.range.end_line
}

/// The number of lines a symbol's range spans.
pub open spec fn rsize(s: Symbol) -> int {
    s.range.end_line - s.range.start_line
}

/// Index `i` names the enclosing symbol of `(file, line)`: its range
/// contains the line, no containing range is smaller, and no earlier
/// symbol has a range as small.
pub open spec fn is_enclosing_choice(
    syms: Seq<Symbol>,
    file: Seq<char>,
    line: u32,
    i: int,
) -> bool {
    &&& 0 <= i < syms.len()
    &&& sym_contains(syms[i], file, line)
    &&& forall|j: int|
        0 <= j < syms.len() && sym_contains(#[trigger] syms[j], file, line) ==> rsize(syms[i])
            <= rsize(syms[j])
    &&& forall|j: int|
        0 <= j < i && sym_contains(#[trigger] syms[j], file, line) ==> rsize(syms[j]) > rsize(
            syms[i],
        )
}

/// The running choice of the enclosing symbol: scan left to right,
/// adopting a containing symbol when it is the first seen or strictly
/// smaller than the current choice.
pub open spec fn spec_enc_step(
    syms: Seq<Symbol>,
    file: Seq<char>,
    line: u32,
    i: int,
    best: Option<int>,
) -> Option<int>
    decreases syms.len() - i,
{
    if i < 0 || i >= syms.len() {
        best
    } else {
        let nb = if sym_contains(syms[i], file, line) {
            match best {
                Option::None => Option::Some(i),
                Option::Some(b) => if rsize(syms[i]) < rsize(syms[b]) {
                    Option::Some(i)
                } else {
                    best
                },
            }
        } else {
            best
        };
        spec_enc_step(syms, file, line, i + 1, nb)
    }
}

/// The index of the enclosing symbol of `(file, line)`, if any.
pub open spec fn spec_enclosing_idx(syms: Seq<Symbol>, file: Seq<char>, line: u32) -> Option<
    int,
> {
    spec_enc_step(syms, file, line, 0, Option::None)
}

/// The symbols of `syms` that carry `name`, in order.
pub open spec fn spec_named_of(syms: Seq<Symbol>, name: Seq<char>) -> Seq<Symbol> {
    syms.filter(|s: Symbol| s.name@ == name)
}

impl SymbolIndex {
    /// Wrap the symbol set.
    pub fn build(symbols: Vec<Symbol>) -> (r: SymbolIndex)
        ensures
            r.symbols == symbols,
    {
        SymbolIndex { symbols }
    }

    /// The innermost declared symbol at `(file, line)`: the first symbol,
    /// in emission order, among those containing the line whose range is
    /// smallest. `None` when no symbol of that file contains the line.
    #[verifier::loop_isolation(false)]
    pub fn enclosing_symbol(&self, file: &str, line: u32) -> (r: Option<Symbol>)
        ensures
            r is Some <==> exists|j: int|
                0 <= j < self.symbols@.len() && sym_contains(#[trigger] self.symbols@[j], file@, line),
            match r {
                Some(s) => exists|i: int|
                    #[trigger] is_enclosing_choice(self.symbols@, file@, line, i)
                        && self.symbols@[i] == s,
                None => true,
            },
            match r {
                Some(s) => spec_enclosing_idx(self.symbols@, file@, line) matches Some(b) && 0 <= b
                    < self.symbols@.len() && self.symbols@[b] == s,
                None => spec_enclosing_idx(self.symbols@, file@, line) is None,
            },
    {
        let n = self.symbols.len();
        let mut best: Option<usize> = None;
        let mut i: usize = 0;
        while i < n
            invariant
                i <= n,
                n == self.symbols@.len(),
                spec_enclosing_idx(self.symbols@, file@, line) == spec_enc_step(
                    self.symbols@,
                    file@,
                    line,
                    i as int,
                    match best {
                        None => Option::<int>::None,
                        Some(b) => Option::Some(b as int),
                    },
                ),
                match best {
                    None => forall|j: int|
                        0 <= j < i ==> !sym_contains(#[trigger] self.symbols@[j], file@, line),
                    Some(b) => {
                        &&& b < i
                        &&& sym_contains(self.symbols@[b as int], file@, line)
                        &&& forall|j: int|
                            0 <= j < i && sym_contains(#[trigger] self.symbols@[j], file@, line)
                                ==> rsize(self.symbols@[b as int]) <= rsize(self.symbols@[j])
                        &&& forall|j: int|
                            0 <= j < b && sym_contains(#[trigger] self.symbols@[j], file@, line)
                                ==> rsize(self.symbols@[j]) > rsize(self.symbols@[b as int])
                    },
                },
            decreases n - i,
        {
            let s = &self.symbols[i];
            let contains = str_eq(s.file.as_str(), file) && s.range.start_line <= line && line
                <= s.range.end_line;
            if contains {
                match best {
                    None => {
                        best = Some(i);
                    },
                    Some(b) => {
                        let bs = &self.symbols[b];
                        let cur_size = s.range.end_line - s.range.start_line;
                        let best_size = bs.range.end_line - bs.range.start_line;
                        if cur_size < best_size {
                            best = Some(i);
                        }
                    },
                }
            }
            i = i + 1;
        }
        match best {
            None => None,
            Some(b) => {
                proof {
                    assert(is_enclosing_choice(self.symbols@, file@, line, b as int));
                }
                Some(self.symbols[b].dup())
            },
        }
    }

    /// All symbols carrying the given name, in emission order.
    #[verifier::loop_isolation(false)]
    pub fn symbols_named(&self, name: &str) -> (r: Vec<Symbol>)
        ensures
            r@ == spec_named_of(self.symbols@, name@),
    {
        let mut r: Vec<Symbol> = Vec::new();
        let mut i: usize = 0;
        while i < self.symbols.len()
            invariant
                i <= self.symbols@.len(),
                r@ == spec_named_of(self.symbols@.subrange(0, i as int), name@),
            decreases self.symbols.len() - i,
        {
            let ghost pref = self.symbols@.subrange(0, i as int);
            let s = &self.symbols[i];
            let ghost r0 = r@;
            if str_eq(s.name.as_str(), name) {
                r.push(s.dup());
            }
            proof {
                let pref2 = self.symbols@.subrange(0, i as int + 1);
                assert(pref2.drop_last() =~= pref);
                assert(pref2.last() == self.symbols@[i as int]);
                reveal(Seq::filter);
                assert(spec_named_of(pref2, name@) == if self.symbols@[i as int].name@ == name@ {
                    spec_named_of(pref, name@).push(self.symbols@[i as int])
                } else {
                    spec_named_of(pref, name@)
                });
            }
            i = i + 1;
        }
        assert(self.symbols@.subrange(0, self.symbols@.len() as int) =~= self.symbols@);
        r
    }

    /// An exact copy of the backing vector.
    #[verifier::loop_isolation(false)]
    pub fn symbols_dup(&self) -> (r: Vec<Symbol>)
        ensures
            r@ == self.symbols@,
    {
        let mut r: Vec<Symbol> = Vec::new();
        let mut i: usize = 0;
        while i < self.symbols.len()
            invariant
                i <= self.symbols@.len(),
                r@ == self.symbols@.subrange(0, i as int),
            decreases self.symbols.len() - i,
        {
            r.push(self.symbols[i].dup());
            assert(r@ =~= self.symbols@.subrange(0, i as int + 1));
            i = i + 1;
        }
        assert(r@ =~= self.symbols@);
        r
    }
}

} // verus!
