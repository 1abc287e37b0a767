use dimpact::languages::path::{normalize_path_like, resolve_module_path};
use dimpact::impact::expand_relative_path;

#[test]
fn normalize_collapses_dots() {
    assert_eq!(normalize_path_like("a/./b"), "a/b");
    assert_eq!(normalize_path_like("a/x/../b"), "a/b");
    assert_eq!(normalize_path_like("./a//b"), "a/b");
    assert_eq!(normalize_path_like("/a/b"), "/a/b");
}

#[test]
fn resolve_relative_specifiers() {
    let exts = vec![".js".to_string(), ".ts".to_string()];
    assert_eq!(
        resolve_module_path("src/main.ts", "./util.ts", &exts).unwrap(),
        "src/util"
    );
    assert_eq!(
        resolve_module_path("app/b.ts", "../lib/a", &exts).unwrap(),
        "lib/a"
    );
    assert_eq!(resolve_module_path("x.ts", "lodash", &exts).unwrap(), "lodash");
    assert_eq!(resolve_module_path("x.ts", "/abs/mod", &exts).unwrap(), "abs/mod");
}

#[test]
fn expand_relative_module_paths() {
    assert_eq!(expand_relative_path("a::b", "crate::utils::c"), "utils::c");
    assert_eq!(expand_relative_path("a::b", "self::util::d"), "a::b::util::d");
    assert_eq!(expand_relative_path("a::b", "super::util::d"), "a::util::d");
    assert_eq!(expand_relative_path("a::b::c", "super::super::x"), "a::x");
    assert_eq!(expand_relative_path("", "plain::path"), "plain::path");
}

#[test]
fn line_offsets_and_byte_lines() {
    let offs = dimpact::languages::util::line_offsets("ab\ncd\n");
    assert_eq!(offs, vec![0, 3, 6]);
    assert_eq!(dimpact::languages::util::byte_to_line(&offs, 0), 1);
    assert_eq!(dimpact::languages::util::byte_to_line(&offs, 2), 1);
    assert_eq!(dimpact::languages::util::byte_to_line(&offs, 3), 2);
    assert_eq!(dimpact::languages::util::byte_to_line(&offs, 5), 2);
}

#[test]
fn symbol_id_parses_back() {
    let idv: Vec<char> = "rust:src/lib.rs:fn:foo:12".chars().collect();
    let (lang, file, kind, name, line) = dimpact::render::parse_symbol_id(&idv).unwrap();
    assert_eq!(lang.iter().collect::<String>(), "rust");
    assert_eq!(file.iter().collect::<String>(), "src/lib.rs");
    assert_eq!(kind.iter().collect::<String>(), "fn");
    assert_eq!(name.iter().collect::<String>(), "foo");
    assert_eq!(line, 12);
    let bad: Vec<char> = "rust:src:fn:foo:nope".chars().collect();
    assert!(dimpact::render::parse_symbol_id(&bad).is_none());
}
