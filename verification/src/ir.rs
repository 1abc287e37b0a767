//! The symbol data model: kinds, ranges, stable identifiers.

use vstd::prelude::*;
use crate::strutil::{
    chars_to_string, dec_val, eq_chars, spec_dec, spec_split, split_sub, str_to_chars,
    u32_to_chars, valid_u32,
};

pub mod reference;

verus! {

/// Inclusive, 1-based line interval.
#[derive(Debug, Clone, Copy, PartialEq, Eq, Structural)]
pub struct TextRange {
    pub start_line: u32,
    pub end_line: u32,
}

/// `start <= end` must hold of a well-formed range.
pub open spec fn range_wf(r: TextRange) -> bool {
    r.start_line <= r.end_line
}

#[derive(Debug, Clone, Copy, PartialEq, Eq, Structural)]
pub enum SymbolKind {
    Function,
    Method,
    Struct,
    Enum,
    Trait,
    Module,
}

/// Only functions and methods can be the target of a call edge.
pub open spec fn is_callable(k: SymbolKind) -> bool {
    k == SymbolKind::Function || k == SymbolKind::Method
}

/// The short tag of a kind, as used inside symbol ids.
pub open spec fn spec_kind_tag(k: SymbolKind) -> Seq<char> {
    match k {
        SymbolKind::Function => "fn"@,
        SymbolKind::Method => "method"@,
        SymbolKind::Struct => "struct"@,
        SymbolKind::Enum => "enum"@,
        SymbolKind::Trait => "trait"@,
        SymbolKind::Module => "mod"@,
    }
}

/// The tag of a kind as a string slice.
pub fn kind_tag_str(k: &SymbolKind) -> (r: &'static str)
    ensures
        r@ == spec_kind_tag(*k),
{
    match k {
        SymbolKind::Function => "fn",
        SymbolKind::Method => "method",
        SymbolKind::Struct => "struct",
        SymbolKind::Enum => "enum",
        SymbolKind::Trait => "trait",
        SymbolKind::Module => "mod",
    }
}

/// Opaque stable key of a symbol.
#[derive(Debug, Clone, PartialEq, Eq)]
pub struct SymbolId(pub String);

/// The id text determined by its five inputs:
/// `lang:file:tag:name:start_line`, with `:` as the fixed separator.
pub open spec fn spec_symbol_id(
    lang: Seq<char>,
    file: Seq<char>,
    kind: SymbolKind,
    name: Seq<char>,
    start_line: u32,
) -> Seq<char> {
    lang + ":"@ + file + ":"@ + spec_kind_tag(kind) + ":"@ + name + ":"@ + spec_dec(
        start_line as nat,
    )
}

/// A named, ranged declaration in one file.
#[derive(Debug, Clone, PartialEq, Eq)]
pub struct Symbol {
    pub id: SymbolId,
    pub name: String,
    pub kind: SymbolKind,
    pub file: String,
    pub range: TextRange,
    pub language: String,
}

/// Mathematical value of a `Symbol`.
pub struct SymbolV {
    pub id: Seq<char>,
    pub name: Seq<char>,
    pub kind: SymbolKind,
    pub file: Seq<char>,
    pub range: TextRange,
    pub language: Seq<char>,
}

impl View for Symbol {
    type V = SymbolV;

    open spec fn view(&self) -> SymbolV {
        SymbolV {
            id: self.id.0@,
            name: self.name@,
            kind: self.kind,
            file: self.file@,
            range: self.range,
            language: self.language@,
        }
    }
}

impl DeepView for Symbol {
    type V = SymbolV;

    open spec fn deep_view(&self) -> SymbolV {
        self@
    }
}

/// The symbol value that `mk_symbol` yields from its parts.
pub open spec fn spec_mk_symbol(
    path: Seq<char>,
    lang: Seq<char>,
    name: Seq<char>,
    kind: SymbolKind,
    start_line: u32,
    end_line: u32,
) -> SymbolV {
    SymbolV {
        id: spec_symbol_id(lang, path, kind, name, start_line),
        name: name,
        kind: kind,
        file: path,
        range: TextRange { start_line, end_line },
        language: lang,
    }
}

impl SymbolId {
    /// Build the stable id; a pure function of its five inputs, so equal
    /// inputs give byte-equal ids in every run and process.
    pub fn new(lang: &str, file: &str, kind: &SymbolKind, name: &str, start_line: u32) -> (r:
        SymbolId)
        ensures
            r.0@ == spec_symbol_id(lang@, file@, *kind, name@, start_line),
    {
        let mut out: Vec<char> = str_to_chars(lang);
        let ghost g0 = out@;
        out.push(':');
        assert(out@ =~= g0 + ":"@) by {
            reveal_strlit(":");
        }
        let filev = str_to_chars(file);
        append_chars(&mut out, &filev);
        let ghost g1 = out@;
        out.push(':');
        assert(out@ =~= g1 + ":"@) by {
            reveal_strlit(":");
        }
        let tagv = str_to_chars(kind_tag_str(kind));
        append_chars(&mut out, &tagv);
        let ghost g2 = out@;
        out.push(':');
        assert(out@ =~= g2 + ":"@) by {
            reveal_strlit(":");
        }
        let namev = str_to_chars(name);
        append_chars(&mut out, &namev);
        let ghost g3 = out@;
        out.push(':');
        assert(out@ =~= g3 + ":"@) by {
            reveal_strlit(":");
        }
        let linev = u32_to_chars(start_line);
        append_chars(&mut out, &linev);
        assert(out@ =~= spec_symbol_id(lang@, file@, *kind, name@, start_line));
        SymbolId(chars_to_string(&out))
    }

    /// An exact copy.
    pub fn dup(&self) -> (r: SymbolId)
        ensures
            r == *self,
    {
        SymbolId(self.0.clone())
    }
}

impl Symbol {
    /// An exact copy.
    pub fn dup(&self) -> (r: Symbol)
        ensures
            r == *self,
    {
        Symbol {
            id: self.id.dup(),
            name: self.name.clone(),
            kind: self.kind,
            file: self.file.clone(),
            range: self.range,
            language: self.language.clone(),
        }
    }
}

/// Append all characters of `src` to `dst`.
#[verifier::loop_isolation(false)]
pub fn append_chars(dst: &mut Vec<char>, src: &Vec<char>)
    ensures
        final(dst)@ == old(dst)@ + src@,
{
    let mut i: usize = 0;
    while i < src.len()
        invariant
            i <= src@.len(),
            dst@ == old(dst)@ + src@.subrange(0, i as int),
        decreases src.len() - i,
    {
        dst.push(src[i]);
        assert(dst@ =~= old(dst)@ + src@.subrange(0, i as int + 1));
        i = i + 1;
    }
    assert(dst@ =~= old(dst)@ + src@);
}

/// Build an exec symbol whose id is the stable id of its parts.
pub fn mk_symbol(
    path: &str,
    lang: &str,
    name: &str,
    kind: SymbolKind,
    start_line: u32,
    end_line: u32,
) -> (r: Symbol)
    ensures
        r@ == spec_mk_symbol(path@, lang@, name@, kind, start_line, end_line),
{
    Symbol {
        id: SymbolId::new(lang, path, &kind, name, start_line),
        name: chars_to_string(&str_to_chars(name)),
        kind,
        file: chars_to_string(&str_to_chars(path)),
        range: TextRange { start_line, end_line },
        language: chars_to_string(&str_to_chars(lang)),
    }
}

/// The symbol kind a seed-id tag denotes; `fn` and `function`, and
/// `mod` and `module`, are aliases.
pub open spec fn spec_seed_kind(tag: Seq<char>) -> Option<SymbolKind> {
    if tag == "fn"@ || tag == "function"@ {
        Option::Some(SymbolKind::Function)
    } else if tag == "method"@ {
        Option::Some(SymbolKind::Method)
    } else if tag == "struct"@ {
        Option::Some(SymbolKind::Struct)
    } else if tag == "enum"@ {
        Option::Some(SymbolKind::Enum)
    } else if tag == "trait"@ {
        Option::Some(SymbolKind::Trait)
    } else if tag == "mod"@ || tag == "module"@ {
        Option::Some(SymbolKind::Module)
    } else {
        Option::None
    }
}

/// The symbol a seed id denotes: `language:path:kind-tag:name:line`,
/// with exactly five fields, a known kind tag and a decimal line; the
/// range covers the one line and the id is rebuilt canonically.
pub open spec fn spec_parse_seed(s: Seq<char>) -> Option<SymbolV> {
    let parts = spec_split(s, ":"@);
    if parts.len() != 5 {
        Option::None
    } else {
        match spec_seed_kind(parts[2]) {
            Option::None => Option::None,
            Option::Some(kind) => if !valid_u32(parts[4]) {
                Option::None
            } else {
                let line = dec_val(parts[4]) as u32;
                Option::Some(
                    spec_mk_symbol(parts[1], parts[0], parts[3], kind, line, line),
                )
            },
        }
    }
}

/// Parse a seed symbol id of the command surface.
pub fn parse_seed_symbol(s: &str) -> (r: Option<Symbol>)
    ensures
        match r {
            Some(sym) => spec_parse_seed(s@) matches Some(v) && sym@ == v,
            None => spec_parse_seed(s@) is None,
        },
{
    let sv = str_to_chars(s);
    let colon = str_to_chars(":");
    proof {
        reveal_strlit(":");
    }
    let parts = split_sub(&sv, &colon);
    if parts.len() != 5 {
        proof {
            assert(parts.deep_view().len() == parts@.len());
        }
        return None;
    }
    proof {
        assert(parts.deep_view().len() == parts@.len());
        assert(parts.deep_view()[0] == parts@[0]@);
        assert(parts.deep_view()[1] == parts@[1]@);
        assert(parts.deep_view()[2] == parts@[2]@);
        assert(parts.deep_view()[3] == parts@[3]@);
        assert(parts.deep_view()[4] == parts@[4]@);
    }
    let tag = &parts[2];
    let kind: Option<SymbolKind> = if eq_chars(tag, &str_to_chars("fn")) || eq_chars(
        tag,
        &str_to_chars("function"),
    ) {
        Some(SymbolKind::Function)
    } else if eq_chars(tag, &str_to_chars("method")) {
        Some(SymbolKind::Method)
    } else if eq_chars(tag, &str_to_chars("struct")) {
        Some(SymbolKind::Struct)
    } else if eq_chars(tag, &str_to_chars("enum")) {
        Some(SymbolKind::Enum)
    } else if eq_chars(tag, &str_to_chars("trait")) {
        Some(SymbolKind::Trait)
    } else if eq_chars(tag, &str_to_chars("mod")) || eq_chars(tag, &str_to_chars("module")) {
        Some(SymbolKind::Module)
    } else {
        None
    };
    let kind = match kind {
        Some(k) => k,
        None => {
            return None;
        },
    };
    if !crate::strutil::is_valid_u32_chars(&parts[4]) {
        return None;
    }
    let line = crate::strutil::parse_u32_or_zero(&parts[4]);
    let lang = chars_to_string(&subvec_part(&parts[0]));
    let file = chars_to_string(&subvec_part(&parts[1]));
    let name = chars_to_string(&subvec_part(&parts[3]));
    Some(mk_symbol(file.as_str(), lang.as_str(), name.as_str(), kind, line, line))
}

/// Copy out a whole part.
fn subvec_part(v: &Vec<char>) -> (r: Vec<char>)
    ensures
        r@ == v@,
{
    let r = crate::strutil::subvec(v, 0, v.len());
    proof {
        assert(v@.subrange(0, v@.len() as int) =~= v@);
    }
    r
}

} // verus!
