use dupfinder::args::Arguments;
use dupfinder::fingerprint::{FileEntry, FileStats};
use dupfinder::grouping::{find_duplicates, DuplicateGroup};

fn entry(path: &str, content: &[u8]) -> FileEntry {
    FileEntry::from_content(path.to_string(), &content.to_vec())
}

fn paths_of(group: &DuplicateGroup) -> Vec<String> {
    let mut paths: Vec<String> = group.files.iter().map(|e| e.path.clone()).collect();
    paths.sort();
    paths
}

/// Two files with the content "hello" form one group; the lone "world" file
/// appears in no group.
#[test]
fn two_duplicates_one_singleton() {
    let entries = vec![
        entry("a.txt", b"hello"),
        entry("b.txt", b"hello"),
        entry("c.txt", b"world"),
    ];
    let groups = find_duplicates(entries);
    assert_eq!(groups.len(), 1);
    assert_eq!(paths_of(&groups[0]), vec!["a.txt".to_string(), "b.txt".to_string()]);
    assert_eq!(groups[0].stats.size, 5);
}

/// No files, no groups.
#[test]
fn empty_input_gives_empty_result() {
    let groups = find_duplicates(Vec::new());
    assert_eq!(groups.len(), 0);
}

/// A duplicate in a subdirectory is grouped with its top-level twin: grouping
/// goes by fingerprint alone, never by where the file sits.
#[test]
fn duplicate_group_spans_directories() {
    let entries = vec![
        entry("top.txt", b"same bytes"),
        entry("sub/dup.txt", b"same bytes"),
    ];
    let groups = find_duplicates(entries);
    assert_eq!(groups.len(), 1);
    assert_eq!(
        paths_of(&groups[0]),
        vec!["sub/dup.txt".to_string(), "top.txt".to_string()]
    );
}

/// A file whose fingerprint matches no other file appears in no group.
#[test]
fn singletons_are_excluded() {
    let entries = vec![entry("only.txt", b"unique content")];
    let groups = find_duplicates(entries);
    assert_eq!(groups.len(), 0);
}

/// An unreadable file is excluded before grouping; the remaining readable
/// duplicates are still reported.
#[test]
fn failed_file_does_not_suppress_group() {
    // Of three on-disk files, one failed to read and produced no entry.
    let entries = vec![entry("a.txt", b"same"), entry("b.txt", b"same")];
    let groups = find_duplicates(entries);
    assert_eq!(groups.len(), 1);
    assert_eq!(paths_of(&groups[0]), vec!["a.txt".to_string(), "b.txt".to_string()]);
}

/// Zero-length files are duplicates of each other: size is part of the
/// fingerprint and the empty digest is shared.
#[test]
fn empty_files_are_grouped() {
    let entries = vec![entry("a", b""), entry("b", b"")];
    let groups = find_duplicates(entries);
    assert_eq!(groups.len(), 1);
    assert_eq!(groups[0].stats.size, 0);
    assert_eq!(paths_of(&groups[0]), vec!["a".to_string(), "b".to_string()]);
}

fn group_sets(groups: &[DuplicateGroup]) -> Vec<(FileStats, Vec<String>)> {
    let mut sets: Vec<(FileStats, Vec<String>)> = groups
        .iter()
        .map(|g| (g.stats, paths_of(g)))
        .collect();
    sets.sort_by(|a, b| a.1.cmp(&b.1));
    sets
}

/// The set of groups does not depend on the order the files were
/// fingerprinted in.
#[test]
fn grouping_is_order_independent() {
    let forward = vec![
        entry("a", b"one"),
        entry("b", b"two"),
        entry("c", b"one"),
        entry("d", b"two"),
        entry("e", b"three"),
    ];
    let backward = vec![
        entry("e", b"three"),
        entry("d", b"two"),
        entry("c", b"one"),
        entry("b", b"two"),
        entry("a", b"one"),
    ];
    let g1 = find_duplicates(forward);
    let g2 = find_duplicates(backward);
    assert_eq!(g1.len(), 2);
    assert_eq!(group_sets(&g1), group_sets(&g2));
}

/// Repeated runs over the same entries give the same groups.
#[test]
fn grouping_is_repeatable() {
    let make = || vec![entry("a", b"x"), entry("b", b"x"), entry("c", b"y")];
    let g1 = find_duplicates(make());
    let g2 = find_duplicates(make());
    assert_eq!(group_sets(&g1), group_sets(&g2));
}

/// Every member of a group bears the group's fingerprint.
#[test]
fn group_members_share_group_fingerprint() {
    let entries = vec![
        entry("a", b"pair"),
        entry("b", b"pair"),
        entry("c", b"trio"),
        entry("d", b"trio"),
        entry("e", b"trio"),
    ];
    let groups = find_duplicates(entries);
    assert_eq!(groups.len(), 2);
    for group in &groups {
        assert!(group.files.len() >= 2);
        for member in &group.files {
            assert_eq!(member.stats, group.stats);
        }
    }
}

/// The default invocation scans the current directory.
#[test]
fn default_directory_is_current() {
    let args = Arguments::default();
    assert_eq!(args.directory, ".");
}
