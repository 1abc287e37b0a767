//! Per-language source analysis: the analyzer capability and its
//! reference implementation.

use vstd::prelude::*;
use crate::ir::Symbol;
use crate::ir::reference::UnresolvedRef;
use crate::imports::ImportMap;

pub mod path;
pub mod rust;
pub mod util;

verus! {

/// What a language contributes to the core: declarations, call sites
/// and import maps, all as pure functions of the file's path and text.
pub trait LanguageAnalyzer {
    fn language(&self) -> &'static str;

    fn symbols_in_file(&self, path: &str, source: &str) -> Vec<Symbol>;

    fn unresolved_refs(&self, path: &str, source: &str) -> Vec<UnresolvedRef>;

    fn imports_in_file(&self, path: &str, source: &str) -> ImportMap;
}

#[derive(Debug, Clone, Copy, PartialEq, Eq, Structural)]
pub enum LanguageKind {
    Auto,
    Rust,
    Ruby,
    Javascript,
    Typescript,
    Tsx,
}

/// The file extension that a language mode selects; `Auto` follows the
/// path's own extension.
pub open spec fn spec_target_ext(path: Seq<char>, lang: LanguageKind) -> Seq<char> {
    match lang {
        LanguageKind::Rust => "rs"@,
        LanguageKind::Ruby => "rb"@,
        LanguageKind::Javascript => "js"@,
        LanguageKind::Typescript => "ts"@,
        LanguageKind::Tsx => "tsx"@,
        LanguageKind::Auto => crate::languages::path::spec_ext_of(path),
    }
}

/// The analyzer registered for a path under a language mode. The Rust
/// analyzer is the one reference implementation this crate carries, so
/// only `rs` files get an analyzer.
pub fn analyzer_for_path(p: &str, lang: LanguageKind) -> (r: Option<rust::RustAnalyzer>)
    ensures
        r is Some <==> spec_target_ext(p@, lang) == "rs"@,
{
    let pv = crate::strutil::str_to_chars(p);
    let ext = crate::languages::path::ext_of(&pv);
    let target: &'static str = match lang {
        LanguageKind::Rust => "rs",
        LanguageKind::Ruby => "rb",
        LanguageKind::Javascript => "js",
        LanguageKind::Typescript => "ts",
        LanguageKind::Tsx => "tsx",
        LanguageKind::Auto => "",
    };
    let is_rs = match lang {
        LanguageKind::Auto => {
            let rs = crate::strutil::str_to_chars("rs");
            crate::strutil::eq_chars(&ext, &rs)
        },
        _ => crate::strutil::str_eq(target, "rs"),
    };
    if is_rs {
        Some(rust::RustAnalyzer::new())
    } else {
        None
    }
}

} // verus!
