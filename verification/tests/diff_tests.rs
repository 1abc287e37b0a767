use dimpact::diff::{parse_unified_diff, ChangeKind};

const SIMPLE_DIFF: &str = r#"diff --git a/foo.txt b/foo.txt
index e69de29..4b825dc 100644
--- a/foo.txt
+++ b/foo.txt
@@ -0,0 +1,3 @@
+line 1
+line 2
+line 3
"#;

#[test]
fn parse_added_file() {
    let files = parse_unified_diff(SIMPLE_DIFF).expect("parsed");
    assert_eq!(files.len(), 1);
    let f = &files[0];
    assert_eq!(f.old_path, Some("foo.txt".to_string()));
    assert_eq!(f.new_path, Some("foo.txt".to_string()));
    let added: Vec<_> = f.changes.iter().filter(|c| c.kind == ChangeKind::Added).collect();
    assert_eq!(added.len(), 3);
    assert_eq!(added[0].new_line, Some(1));
    assert_eq!(added[2].new_line, Some(3));
}

const MODIFIED_DIFF: &str = r#"diff --git a/bar.rs b/bar.rs
index 1111111..2222222 100644
--- a/bar.rs
+++ b/bar.rs
@@ -1,4 +1,4 @@
 fn main() {
-    println!("hi");
+    println!("hello");
 }
"#;

#[test]
fn parse_modified_file() {
    let files = parse_unified_diff(MODIFIED_DIFF).expect("parsed");
    assert_eq!(files.len(), 1);
    let f = &files[0];
    assert_eq!(f.changes.len(), 4);
    assert!(f.changes.iter().any(|c| matches!(c.kind, ChangeKind::Removed)));
    assert!(f.changes.iter().any(|c| matches!(c.kind, ChangeKind::Added)));
}

const MULTI_HUNK_DIFF: &str = r#"diff --git a/a.txt b/a.txt
--- a/a.txt
+++ b/a.txt
@@ -1,2 +1,2 @@
 a
-b
+B
@@ -10,0 +11,2 @@
+x
+y
"#;

#[test]
fn parse_multi_hunk() {
    let files = parse_unified_diff(MULTI_HUNK_DIFF).expect("parsed");
    let f = &files[0];
    let added: Vec<_> = f.changes.iter().filter(|c| c.kind == ChangeKind::Added).collect();
    assert_eq!(added.len(), 3);
    assert_eq!(added[0].new_line, Some(2));
    assert_eq!(added[1].new_line, Some(11));
    assert_eq!(added[2].new_line, Some(12));
}

#[test]
fn parse_rejects_bad_hunk_header() {
    let diff = "--- a/x.txt\n+++ b/x.txt\n@@ bogus @@\n";
    let err = parse_unified_diff(diff).unwrap_err();
    assert_eq!(err, dimpact::diff::DiffParseError::InvalidHunkHeader("bogus @@".to_string()));
}

#[test]
fn parse_empty_reports_missing_header() {
    let err = parse_unified_diff("").unwrap_err();
    assert_eq!(err, dimpact::diff::DiffParseError::MissingHeader);
}
