use webdav::access::{ChildCandidate, Depth, LinkPolicy};
use webdav::file_time::FileTime;
use webdav::listing::{listing, ListedPath};
use webdav::response::FileFacts;

const POLICY: LinkPolicy = LinkPolicy { follow_symlinks: true, sandbox_symlinks: true };

fn facts(is_file: bool) -> FileFacts {
    let t = FileTime {
        tm_sec: 0,
        tm_min: 0,
        tm_hour: 0,
        tm_mday: 1,
        tm_mon: 0,
        tm_year: 70,
        tm_wday: 4,
        tm_yday: 0,
        tm_isdst: 0,
        tm_utcoff: 0,
        tm_nsec: 0,
    };
    FileFacts { is_file, created: t, modified: t, length: 0, binary: false }
}

fn leaf(path: &str) -> ListedPath {
    ListedPath { path: path.to_string(), facts: facts(true), candidates: Vec::new(), children: Vec::new() }
}

fn cand(name: &str, present: bool, symlink: bool, inside: bool) -> ChildCandidate {
    ChildCandidate { name: name.to_string(), present, symlink, inside_hosted: inside }
}

/// `/d/` holding `a` (a directory holding `x`), a missing entry, a link
/// leaving the hosted directory, and `b`.
fn tree() -> ListedPath {
    let a = ListedPath {
        path: "d/a".to_string(),
        facts: facts(false),
        candidates: vec![cand("x", true, false, false)],
        children: vec![Some(leaf("d/a/x"))],
    };
    ListedPath {
        path: "d".to_string(),
        facts: facts(false),
        candidates: vec![cand("a", true, false, false), cand("gone", false, false, false), cand("out", true, true, false),
                         cand("b", true, false, false)],
        children: vec![Some(a), None, None, Some(leaf("d/b"))],
    }
}

fn urls(depth: Depth) -> Vec<(String, String)> {
    listing(&tree(), "/d/", depth, POLICY).into_iter().map(|e| (e.url, e.path)).collect()
}

#[test]
fn depth_zero_lists_the_path_alone() {
    assert_eq!(urls(Depth::Zero), vec![("/d/".to_string(), "d".to_string())]);
}

#[test]
fn depth_one_adds_the_admitted_entries_in_order() {
    assert_eq!(
        urls(Depth::One),
        vec![
            ("/d/".to_string(), "d".to_string()),
            ("/d/a".to_string(), "d/a".to_string()),
            ("/d/b".to_string(), "d/b".to_string()),
        ]
    );
}

#[test]
fn depth_infinity_lists_each_entry_before_its_own_entries() {
    assert_eq!(
        urls(Depth::Infinity),
        vec![
            ("/d/".to_string(), "d".to_string()),
            ("/d/a".to_string(), "d/a".to_string()),
            ("/d/a/x".to_string(), "d/a/x".to_string()),
            ("/d/b".to_string(), "d/b".to_string()),
        ]
    );
}
