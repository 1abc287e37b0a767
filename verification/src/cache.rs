//! The persistent index's pure logic: cache path resolution, content
//! digests, row conversions, and the reconciliation plan that decides
//! which files an update must touch. The store engine itself lives
//! outside the library and calls in with plain values.

use vstd::prelude::*;
use vstd::string::StrSliceExecFns;
use vstd::string::StringSliceAdditionalSpecFns;
use crate::ir::{Symbol, SymbolId, SymbolKind, TextRange, spec_kind_tag};
use crate::languages::path::spec_ext_of;
use crate::strutil::{
    chars_to_string, eq_chars, spec_split, split_sub, str_to_chars, str_eq, subvec,
};

verus! {

#[derive(Debug, Clone, Copy, PartialEq, Eq, Structural)]
pub enum CacheScope {
    Local,
    Global,
}

/// The store's on-disk places: its directory, database file and lock.
#[derive(Debug, Clone, PartialEq, Eq)]
pub struct CachePaths {
    pub dir: String,
    pub db: String,
    pub lock: String,
}

/// Row counts of the store.
#[derive(Debug, Clone, Copy, PartialEq, Eq, Structural)]
pub struct CacheStats {
    pub files: i64,
    pub symbols: i64,
    pub edges: i64,
}

/// The directory the cache lives in: an override wins; the local
/// scope nests under the repository root; the global scope nests the
/// repository key under the user configuration root. The schema
/// version is part of the directory name.
pub open spec fn spec_cache_dir(
    scope: CacheScope,
    override_dir: Option<Seq<char>>,
    repo_root: Seq<char>,
    config_root: Seq<char>,
    key: Seq<char>,
) -> Seq<char> {
    match override_dir {
        Option::Some(d) => d,
        Option::None => match scope {
            CacheScope::Local => repo_root + "/.dimpact/cache/v1"@,
            CacheScope::Global => config_root + "/dimpact/cache/v1/"@ + key,
        },
    }
}

/// Resolve the store's paths from plain inputs. The caller supplies
/// the repository root and the user configuration root; `repo_key`
/// derives the global-scope key.
pub fn resolve_paths(
    scope: CacheScope,
    override_dir: Option<&str>,
    repo_root: &str,
    config_root: &str,
    key: &str,
) -> (r: CachePaths)
    ensures
        ({
            let d = spec_cache_dir(
                scope,
                match override_dir {
                    Option::Some(s) => Option::Some(s@),
                    Option::None => Option::None,
                },
                repo_root@,
                config_root@,
                key@,
            );
            r.dir@ == d && r.db@ == d + "/index.db"@ && r.lock@ == d + "/.lock"@
        }),
{
    let dirv: Vec<char> = match override_dir {
        Some(d) => str_to_chars(d),
        None => {
            match scope {
                CacheScope::Local => {
                    let mut v = str_to_chars(repo_root);
                    let suffix = str_to_chars("/.dimpact/cache/v1");
                    crate::ir::append_chars(&mut v, &suffix);
                    v
                },
                CacheScope::Global => {
                    let mut v = str_to_chars(config_root);
                    let mid = str_to_chars("/dimpact/cache/v1/");
                    crate::ir::append_chars(&mut v, &mid);
                    let keyv = str_to_chars(key);
                    crate::ir::append_chars(&mut v, &keyv);
                    v
                },
            }
        },
    };
    let mut dbv = subvec(&dirv, 0, dirv.len());
    let db_suffix = str_to_chars("/index.db");
    crate::ir::append_chars(&mut dbv, &db_suffix);
    let mut lockv = subvec(&dirv, 0, dirv.len());
    let lock_suffix = str_to_chars("/.lock");
    crate::ir::append_chars(&mut lockv, &lock_suffix);
    proof {
        assert(dirv@.subrange(0, dirv@.len() as int) =~= dirv@);
    }
    CachePaths {
        dir: chars_to_string(&dirv),
        db: chars_to_string(&dbv),
        lock: chars_to_string(&lockv),
    }
}

/// A lowercase hexadecimal digit.
pub open spec fn is_lower_hex(c: char) -> bool {
    ('0' <= c && c <= '9') || ('a' <= c && c <= 'f')
}

/// The lowercase hexadecimal digest of a byte string.
pub uninterp spec fn blake3_hex_of(bytes: Seq<u8>) -> Seq<char>;

/// Relies on `blake3::hash` and `blake3::Hash::to_hex`: the digest of
/// the bytes as 64 lowercase hexadecimal characters, a function of the
/// input alone.
#[verifier::external_body]
fn blake3_hex(bytes: &Vec<u8>) -> (r: String)
    ensures
        r@ == blake3_hex_of(bytes@),
        r@.len() == 64,
        forall|i: int| 0 <= i < r@.len() ==> is_lower_hex(#[trigger] r@[i]),
{
    blake3::hash(bytes.as_slice()).to_hex().as_str().to_string()
}

/// The content digest recorded for a file's bytes.
pub fn file_digest_hex(data: &Vec<u8>) -> (r: String)
    ensures
        r@ == blake3_hex_of(data@),
        r@.len() == 64,
        forall|i: int| 0 <= i < r@.len() ==> is_lower_hex(#[trigger] r@[i]),
{
    blake3_hex(data)
}

/// The last `/`-separated segment of a path, or `repo` when empty.
pub open spec fn spec_basename(p: Seq<char>) -> Seq<char> {
    let segs = spec_split(p, "/"@);
    if segs.last().len() == 0 {
        "repo"@
    } else {
        segs.last()
    }
}

/// The global-scope key of a repository root: ten digest characters,
/// a dash, and the root's base name. The caller hands in the
/// canonicalized root path.
pub fn repo_key(root: &str) -> (r: String)
    ensures
        r@ == blake3_hex_of(root.spec_bytes()).subrange(0, 10) + "-"@ + spec_basename(root@),
{
    let bytes: Vec<u8> = root.as_bytes_vec();
    let hex = blake3_hex(&bytes);
    let hexv = str_to_chars(hex.as_str());
    let mut out = subvec(&hexv, 0, 10);
    let ghost g0 = out@;
    out.push('-');
    proof {
        assert(out@ =~= g0 + "-"@) by {
            reveal_strlit("-");
        }
    }
    let rootv = str_to_chars(root);
    let slash = str_to_chars("/");
    proof {
        reveal_strlit("/");
    }
    let segs = split_sub(&rootv, &slash);
    proof {
        crate::strutil::lemma_split_nonempty(root@, "/"@);
        assert(segs.deep_view().last() == segs@[segs@.len() - 1]@);
    }
    let base = &segs[segs.len() - 1];
    if base.len() == 0 {
        let repo = str_to_chars("repo");
        crate::ir::append_chars(&mut out, &repo);
    } else {
        let bv = subvec(base, 0, base.len());
        proof {
            assert(segs@[segs@.len() - 1]@.subrange(0, segs@[segs@.len() - 1]@.len() as int)
                =~= segs@[segs@.len() - 1]@);
        }
        crate::ir::append_chars(&mut out, &bv);
    }
    chars_to_string(&out)
}

/// The signature hash of a symbol: the digest of its name's bytes
/// followed by its kind tag's bytes.
pub fn sig_hash_for(s: &Symbol) -> (r: String)
    ensures
        r@ == blake3_hex_of(vstd::utf8::encode_utf8(s.name@) + spec_tag_bytes(s.kind)),
{
    let mut bytes: Vec<u8> = s.name.as_str().as_bytes_vec();
    let ghost b0 = bytes@;
    let tag: &'static str = crate::ir::kind_tag_str(&s.kind);
    let tagb: Vec<u8> = tag.as_bytes_vec();
    let mut i: usize = 0;
    #[verifier::loop_isolation(false)]
    while i < tagb.len()
        invariant
            i <= tagb@.len(),
            bytes@ == b0 + tagb@.subrange(0, i as int),
        decreases tagb.len() - i,
    {
        bytes.push(tagb[i]);
        assert(bytes@ =~= b0 + tagb@.subrange(0, i as int + 1));
        i = i + 1;
    }
    proof {
        assert(tagb@.subrange(0, tagb@.len() as int) =~= tagb@);
        assert(tagb@ == spec_tag_bytes(s.kind));
    }
    blake3_hex(&bytes)
}

/// The UTF-8 bytes of a kind's tag.
pub open spec fn spec_tag_bytes(k: SymbolKind) -> Seq<u8> {
    vstd::utf8::encode_utf8(spec_kind_tag(k))
}

/// The language name a file extension selects.
pub open spec fn spec_lang_of_ext(p: Seq<char>) -> Seq<char> {
    let e = spec_ext_of(p);
    if e == "rs"@ {
        "rust"@
    } else if e == "rb"@ {
        "ruby"@
    } else if e == "js"@ {
        "javascript"@
    } else if e == "ts"@ {
        "typescript"@
    } else if e == "tsx"@ {
        "tsx"@
    } else {
        "unknown"@
    }
}

/// Guess a file's language from its extension.
pub fn guess_lang_from_ext(path: &str) -> (r: &'static str)
    ensures
        r@ == spec_lang_of_ext(path@),
{
    let pv = str_to_chars(path);
    let e = crate::languages::path::ext_of(&pv);
    if eq_chars(&e, &str_to_chars("rs")) {
        "rust"
    } else if eq_chars(&e, &str_to_chars("rb")) {
        "ruby"
    } else if eq_chars(&e, &str_to_chars("js")) {
        "javascript"
    } else if eq_chars(&e, &str_to_chars("ts")) {
        "typescript"
    } else if eq_chars(&e, &str_to_chars("tsx")) {
        "tsx"
    } else {
        "unknown"
    }
}

/// The tag stored for a kind in a symbol row.
pub fn kind_to_str(k: &SymbolKind) -> (r: &'static str)
    ensures
        r@ == spec_kind_tag(*k),
{
    crate::ir::kind_tag_str(k)
}

/// The kind a stored tag denotes; unknown tags read as functions.
pub open spec fn spec_kind_from_tag(t: Seq<char>) -> SymbolKind {
    if t == "fn"@ || t == "function"@ {
        SymbolKind::Function
    } else if t == "method"@ {
        SymbolKind::Method
    } else if t == "struct"@ {
        SymbolKind::Struct
    } else if t == "enum"@ {
        SymbolKind::Enum
    } else if t == "trait"@ {
        SymbolKind::Trait
    } else if t == "mod"@ || t == "module"@ {
        SymbolKind::Module
    } else {
        SymbolKind::Function
    }
}

/// Parse a stored kind tag.
pub fn kind_from_str(t: &str) -> (r: SymbolKind)
    ensures
        r == spec_kind_from_tag(t@),
{
    if str_eq(t, "fn") || str_eq(t, "function") {
        SymbolKind::Function
    } else if str_eq(t, "method") {
        SymbolKind::Method
    } else if str_eq(t, "struct") {
        SymbolKind::Struct
    } else if str_eq(t, "enum") {
        SymbolKind::Enum
    } else if str_eq(t, "trait") {
        SymbolKind::Trait
    } else if str_eq(t, "mod") || str_eq(t, "module") {
        SymbolKind::Module
    } else {
        SymbolKind::Function
    }
}

/// Build a symbol from one stored row.
pub fn symbol_from_row(
    sid: String,
    file: String,
    name: String,
    kind_tag: &str,
    start_line: u32,
    end_line: u32,
    language: String,
) -> (r: Symbol)
    ensures
        r.id.0@ == sid@,
        r.file@ == file@,
        r.name@ == name@,
        r.kind == spec_kind_from_tag(kind_tag@),
        r.range.start_line == start_line,
        r.range.end_line == end_line,
        r.language@ == language@,
{
    Symbol {
        id: SymbolId(sid),
        name,
        kind: kind_from_str(kind_tag),
        file,
        range: TextRange { start_line, end_line },
        language,
    }
}

/// A file row as the store holds it.
#[derive(Debug, Clone, PartialEq, Eq)]
pub struct DbFileRecord {
    pub path: String,
    pub digest: String,
    pub present: bool,
    pub lang: String,
}

/// A file as the workspace currently shows it.
#[derive(Debug, Clone, PartialEq, Eq)]
pub struct FsFileState {
    pub path: String,
    pub digest: String,
    pub lang: String,
}

/// The store's record for a path: the last row wins.
pub open spec fn spec_db_find(dbs: Seq<DbFileRecord>, path: Seq<char>) -> Option<DbFileRecord>
    decreases dbs.len(),
{
    if dbs.len() == 0 {
        Option::None
    } else if dbs.last().path@ == path {
        Option::Some(dbs.last())
    } else {
        spec_db_find(dbs.drop_last(), path)
    }
}

/// A workspace file disagrees with the store: unknown to it, or
/// recorded with another digest or language, or recorded absent.
pub open spec fn spec_db_disagrees(dbs: Seq<DbFileRecord>, f: FsFileState) -> bool {
    match spec_db_find(dbs, f.path@) {
        Option::None => true,
        Option::Some(d) => !(d.digest@ == f.digest@ && d.present && d.lang@ == f.lang@),
    }
}

/// The workspace currently holds a file at this path.
pub open spec fn spec_fs_has(fs: Seq<FsFileState>, path: Seq<char>) -> bool {
    exists|i: int| 0 <= i < fs.len() && (#[trigger] fs[i]).path@ == path
}

/// A path belongs in the reconciliation plan.
pub open spec fn spec_needs_update(
    dbs: Seq<DbFileRecord>,
    fs: Seq<FsFileState>,
    path: Seq<char>,
) -> bool {
    (exists|i: int|
        0 <= i < fs.len() && (#[trigger] fs[i]).path@ == path && spec_db_disagrees(dbs, fs[i]))
        || (exists|j: int|
        0 <= j < dbs.len() && (#[trigger] dbs[j]).path@ == path && dbs[j].present && !spec_fs_has(
            fs,
            dbs[j].path@,
        ))
}

#[verifier::loop_isolation(false)]
fn db_disagrees(db_files: &Vec<DbFileRecord>, fsf: &FsFileState) -> (r: bool)
    ensures
        r == spec_db_disagrees(db_files@, *fsf),
{
    let ghost dv = db_files@;
    let n = db_files.len();
    let mut i: usize = n;
    proof {
        assert(dv.subrange(0, n as int) =~= dv);
    }
    while i > 0
        invariant
            i <= n,
            n == db_files@.len(),
            spec_db_find(dv, fsf.path@) == spec_db_find(dv.subrange(0, i as int), fsf.path@),
        decreases i,
    {
        proof {
            assert(dv.subrange(0, i as int).last() == dv[i as int - 1]);
            assert(dv.subrange(0, i as int).drop_last() =~= dv.subrange(0, i as int - 1));
        }
        let d = &db_files[i - 1];
        if str_eq(d.path.as_str(), fsf.path.as_str()) {
            let clean = str_eq(d.digest.as_str(), fsf.digest.as_str()) && d.present && str_eq(
                d.lang.as_str(),
                fsf.lang.as_str(),
            );
            return !clean;
        }
        i = i - 1;
    }
    proof {
        assert(dv.subrange(0, 0) =~= Seq::<DbFileRecord>::empty());
    }
    true
}

#[verifier::loop_isolation(false)]
fn fs_has(fs_files: &Vec<FsFileState>, path: &str) -> (r: bool)
    ensures
        r == spec_fs_has(fs_files@, path@),
{
    let mut i: usize = 0;
    while i < fs_files.len()
        invariant
            i <= fs_files@.len(),
            forall|j: int| 0 <= j < i ==> (#[trigger] fs_files@[j]).path@ != path@,
        decreases fs_files.len() - i,
    {
        if str_eq(fs_files[i].path.as_str(), path) {
            return true;
        }
        i = i + 1;
    }
    false
}

/// The reconciliation plan of `verify`: exactly the paths that need
/// an update - every workspace file whose digest, language or
/// presence disagrees with the store, and every file the store
/// believes present that is now gone - sorted, without duplicates,
/// and nothing else.
#[verifier::loop_isolation(false)]
#[verifier::rlimit(100)]
pub fn files_to_update(db_files: &Vec<DbFileRecord>, fs_files: &Vec<FsFileState>) -> (r: Vec<
    String,
>)
    ensures
        crate::impact::spec_sorted_strs(r.deep_view()),
        forall|p: Seq<char>|
            crate::impact::seq_set(r.deep_view()).contains(p) ==> spec_needs_update(
                db_files@,
                fs_files@,
                p,
            ),
        forall|j: int|
            0 <= j < fs_files@.len() && spec_db_disagrees(db_files@, #[trigger] fs_files@[j])
                ==> crate::impact::seq_set(r.deep_view()).contains(fs_files@[j].path@),
        forall|j: int|
            0 <= j < db_files@.len() && (#[trigger] db_files@[j]).present && !spec_fs_has(
                fs_files@,
                db_files@[j].path@,
            ) ==> crate::impact::seq_set(r.deep_view()).contains(db_files@[j].path@),
{
    let ghost dv = db_files@;
    let ghost fv = fs_files@;
    let mut out: Vec<String> = Vec::new();
    let mut i: usize = 0;
    proof {
        assert(forall|p: Seq<char>| !crate::impact::seq_set(out.deep_view()).contains(p));
    }
    while i < fs_files.len()
        invariant
            i <= fs_files@.len(),
            fv == fs_files@,
            dv == db_files@,
            crate::impact::spec_sorted_strs(out.deep_view()),
            forall|p: Seq<char>|
                crate::impact::seq_set(out.deep_view()).contains(p) ==> spec_needs_update(
                    dv,
                    fv,
                    p,
                ),
            forall|j: int|
                0 <= j < i && spec_db_disagrees(dv, #[trigger] fv[j])
                    ==> crate::impact::seq_set(out.deep_view()).contains(fv[j].path@),
        decreases fs_files.len() - i,
    {
        let f = &fs_files[i];
        let ghost s0 = crate::impact::seq_set(out.deep_view());
        let dis = db_disagrees(db_files, f);
        if dis {
            crate::impact::insert_sorted_string(&mut out, f.path.clone());
            proof {
                assert(crate::impact::seq_set(out.deep_view()) =~= s0.insert(fv[i as int].path@));
                assert forall|p: Seq<char>|
                    crate::impact::seq_set(out.deep_view()).contains(p) implies spec_needs_update(
                    dv,
                    fv,
                    p,
                ) by {
                    if !s0.contains(p) {
                        assert(p == fv[i as int].path@);
                        assert(fv[i as int].path@ == p && spec_db_disagrees(dv, fv[i as int]));
                    }
                }
            }
        }
        proof {
            assert forall|j: int|
                0 <= j < i + 1 && spec_db_disagrees(dv, #[trigger] fv[j])
                    implies crate::impact::seq_set(out.deep_view()).contains(fv[j].path@) by {
                if j < i {
                    assert(s0.contains(fv[j].path@));
                } else {
                    assert(dis);
                }
            }
        }
        i = i + 1;
    }
    let mut j2: usize = 0;
    while j2 < db_files.len()
        invariant
            j2 <= db_files@.len(),
            dv == db_files@,
            fv == fs_files@,
            crate::impact::spec_sorted_strs(out.deep_view()),
            forall|p: Seq<char>|
                crate::impact::seq_set(out.deep_view()).contains(p) ==> spec_needs_update(
                    dv,
                    fv,
                    p,
                ),
            forall|j: int|
                0 <= j < fv.len() && spec_db_disagrees(dv, #[trigger] fv[j])
                    ==> crate::impact::seq_set(out.deep_view()).contains(fv[j].path@),
            forall|j: int|
                0 <= j < j2 && (#[trigger] dv[j]).present && !spec_fs_has(fv, dv[j].path@)
                    ==> crate::impact::seq_set(out.deep_view()).contains(dv[j].path@),
        decreases db_files.len() - j2,
    {
        let d = &db_files[j2];
        let ghost s0 = crate::impact::seq_set(out.deep_view());
        let cond = d.present && !fs_has(fs_files, d.path.as_str());
        if cond {
            crate::impact::insert_sorted_string(&mut out, d.path.clone());
            proof {
                assert(crate::impact::seq_set(out.deep_view()) =~= s0.insert(dv[j2 as int].path@));
                assert forall|p: Seq<char>|
                    crate::impact::seq_set(out.deep_view()).contains(p) implies spec_needs_update(
                    dv,
                    fv,
                    p,
                ) by {
                    if !s0.contains(p) {
                        assert(p == dv[j2 as int].path@);
                        assert(dv[j2 as int].path@ == p && dv[j2 as int].present && !spec_fs_has(
                            fv,
                            dv[j2 as int].path@,
                        ));
                    }
                }
            }
        }
        proof {
            assert forall|j: int|
                0 <= j < fv.len() && spec_db_disagrees(dv, #[trigger] fv[j])
                    implies crate::impact::seq_set(out.deep_view()).contains(fv[j].path@) by {
                assert(s0.contains(fv[j].path@));
            }
            assert forall|j: int|
                0 <= j < j2 + 1 && (#[trigger] dv[j]).present && !spec_fs_has(fv, dv[j].path@)
                    implies crate::impact::seq_set(out.deep_view()).contains(dv[j].path@) by {
                if j < j2 {
                    assert(s0.contains(dv[j].path@));
                } else {
                    assert(cond);
                }
            }
        }
        j2 = j2 + 1;
    }
    out
}

} // verus!
