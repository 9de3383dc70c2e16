use spp::snapshot::FileMeta;
use spp::snapshot::Mtime;
use spp::snapshot::SnapshotEntry;
use spp::snapshot::diff_drafts;
use spp::snapshot::guess_language;
use spp::snapshot::is_excluded_path;
use spp::snapshot::snapshot_build;
use spp::snapshot::snapshot_plan;
use spp::snapshot::str_lt;

fn meta(path: &str, len: u64, secs: i64) -> FileMeta {
    FileMeta { path: path.to_string(), len, modified: Some(Mtime { secs, nanos: 0 }) }
}

fn read(path: &str, text: &str) -> (String, Option<Vec<u8>>) {
    (path.to_string(), Some(text.as_bytes().to_vec()))
}

#[test]
fn exclusion_matches_normalized_prefixes() {
    let excludes = vec![".git/".to_string(), "./target/".to_string(), "note.md".to_string()];
    assert!(is_excluded_path(".git/config", &excludes));
    assert!(is_excluded_path("target/debug/app", &excludes));
    assert!(is_excluded_path("target", &excludes));
    assert!(is_excluded_path("note.md", &excludes));
    assert!(!is_excluded_path("src/main.rs", &excludes));
    assert!(!is_excluded_path("targets/x", &excludes));
    assert!(!is_excluded_path("note.mdx", &excludes));
}

#[test]
fn language_comes_from_the_extension() {
    assert_eq!(guess_language("src/Main.RS"), "rs");
    assert_eq!(guess_language("a/b/c.tar.gz"), "gz");
    assert_eq!(guess_language("Makefile"), "unknown");
    assert_eq!(guess_language(".gitignore"), "unknown");
    assert_eq!(guess_language("weird."), "");
}

#[test]
fn path_order_is_lexicographic() {
    assert!(str_lt("a", "b"));
    assert!(str_lt("a", "ab"));
    assert!(!str_lt("b", "a"));
    assert!(!str_lt("same", "same"));
}

#[test]
fn plan_skips_cached_and_ignored_files() {
    let excludes = vec![".git/".to_string()];
    let listing = vec![
        meta("a.txt", 6, 10),
        meta(".git/config", 3, 10),
        meta("big.bin", 2_000_001, 10),
        meta("b.txt", 4, 10),
    ];
    let prev: Vec<SnapshotEntry> = vec![SnapshotEntry {
        path: "a.txt".to_string(),
        len: 6,
        modified: Some(Mtime { secs: 10, nanos: 0 }),
        content: "hello\n".to_string(),
    }];
    let to_read = snapshot_plan(&prev, &listing, &excludes);
    // a.txt is cached, .git/ is excluded, big.bin is over the ceiling
    assert_eq!(to_read, vec!["b.txt".to_string()]);
}

#[test]
fn cache_reuse_avoids_rereads_and_produces_no_diff() {
    let excludes: Vec<String> = vec![];
    let listing1 = vec![meta("f.txt", 6, 10)];
    let contents1 = vec![read("f.txt", "hello\n")];
    let empty: Vec<SnapshotEntry> = vec![];
    let snap1 = snapshot_build(&empty, &listing1, &contents1, &excludes);
    assert_eq!(snap1.len(), 1);
    assert_eq!(snap1[0].content, "hello\n");

    // the modification time changes but length and content do not:
    // the file is reread, and no file_diff event is emitted
    let listing2 = vec![meta("f.txt", 6, 20)];
    let to_read = snapshot_plan(&snap1, &listing2, &excludes);
    assert_eq!(to_read, vec!["f.txt".to_string()]);
    let contents2 = vec![read("f.txt", "hello\n")];
    let snap2 = snapshot_build(&snap1, &listing2, &contents2, &excludes);
    let drafts = diff_drafts(&snap1, &snap2, 64000);
    assert!(drafts.is_empty());

    // unchanged length and time: not even a reread
    let to_read = snapshot_plan(&snap2, &listing2, &excludes);
    assert!(to_read.is_empty());
}

#[test]
fn one_line_change_emits_exactly_one_diff() {
    let excludes: Vec<String> = vec![];
    let empty: Vec<SnapshotEntry> = vec![];
    let listing1 = vec![meta("f.txt", 6, 10)];
    let snap1 = snapshot_build(&empty, &listing1, &vec![read("f.txt", "hello\n")], &excludes);
    let listing2 = vec![meta("f.txt", 6, 20)];
    let snap2 = snapshot_build(&snap1, &listing2, &vec![read("f.txt", "world\n")], &excludes);

    let drafts = diff_drafts(&snap1, &snap2, 64000);
    assert_eq!(drafts.len(), 1);
    assert_eq!(drafts[0].path, "f.txt");
    assert_eq!(drafts[0].language, "txt");
    // the draft carries similar's unified diff under a/ and b/ headers
    let expected = similar::TextDiff::from_lines("hello\n", "world\n")
        .unified_diff()
        .header("a/f.txt", "b/f.txt")
        .to_string();
    assert_eq!(drafts[0].diff, expected);
    assert!(drafts[0].diff.starts_with("--- a/f.txt\n+++ b/f.txt\n"));
    assert!(drafts[0].diff.contains("-hello"));
    assert!(drafts[0].diff.contains("+world"));
    assert_eq!(drafts[0].bytes, expected.len() as u64);
}

#[test]
fn diffs_cover_created_and_deleted_files_in_path_order() {
    let excludes: Vec<String> = vec![];
    let empty: Vec<SnapshotEntry> = vec![];
    let snap1 = snapshot_build(
        &empty,
        &vec![meta("gone.txt", 4, 10), meta("kept.txt", 4, 10)],
        &vec![read("gone.txt", "old\n"), read("kept.txt", "same")],
        &excludes,
    );
    let snap2 = snapshot_build(
        &snap1,
        &vec![meta("kept.txt", 4, 10), meta("added.txt", 4, 20)],
        &vec![read("added.txt", "new\n")],
        &excludes,
    );
    let drafts = diff_drafts(&snap1, &snap2, 64000);
    assert_eq!(drafts.len(), 2);
    assert_eq!(drafts[0].path, "added.txt");
    assert_eq!(drafts[1].path, "gone.txt");
}

#[test]
fn binary_and_non_utf8_files_are_skipped() {
    let excludes: Vec<String> = vec![];
    let empty: Vec<SnapshotEntry> = vec![];
    let listing = vec![meta("nul.bin", 3, 10), meta("bad.txt", 2, 10), meta("ok.txt", 2, 10)];
    let contents = vec![
        ("nul.bin".to_string(), Some(vec![b'a', 0u8, b'b'])),
        ("bad.txt".to_string(), Some(vec![0xff, 0xfe])),
        ("ok.txt".to_string(), Some(b"ok".to_vec())),
    ];
    let snap = snapshot_build(&empty, &listing, &contents, &excludes);
    assert_eq!(snap.len(), 1);
    assert_eq!(snap[0].path, "ok.txt");
}

#[test]
fn a_failed_read_keeps_the_file_out_of_the_snapshot() {
    let excludes: Vec<String> = vec![];
    let empty: Vec<SnapshotEntry> = vec![];
    let listing = vec![meta("locked.txt", 5, 10)];
    let contents = vec![("locked.txt".to_string(), None)];
    let snap = snapshot_build(&empty, &listing, &contents, &excludes);
    assert!(snap.is_empty());
}

#[test]
fn truncated_diffs_still_report_full_length() {
    let excludes: Vec<String> = vec![];
    let empty: Vec<SnapshotEntry> = vec![];
    let old_text = (0..50).map(|i| format!("line {i}\n")).collect::<String>();
    let new_text = (0..50).map(|i| format!("line {i} changed\n")).collect::<String>();
    let snap1 = snapshot_build(
        &empty,
        &vec![meta("f.txt", old_text.len() as u64, 10)],
        &vec![read("f.txt", &old_text)],
        &excludes,
    );
    let snap2 = snapshot_build(
        &snap1,
        &vec![meta("f.txt", new_text.len() as u64, 20)],
        &vec![read("f.txt", &new_text)],
        &excludes,
    );
    let drafts = diff_drafts(&snap1, &snap2, 100);
    assert_eq!(drafts.len(), 1);
    assert!(drafts[0].diff.len() <= 100);
    assert!(drafts[0].diff.ends_with("...[truncated]"));
    assert!(drafts[0].bytes > 100);
}
