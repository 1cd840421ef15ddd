use repo_rebuilder::dedup::{move_duplicate_recovered_repos, Classification};
use repo_rebuilder::error::PipelineError;
use repo_rebuilder::fingerprint::compute_git_fingerprint;
use repo_rebuilder::triage::{count_directories, is_empty_clone, move_empty_recovered_repos, repository_paths, AreaEntry};

fn strings(xs: &[&str]) -> Vec<String> {
    xs.iter().map(|x| x.to_string()).collect()
}

fn dir(path: &str, contents: &[&str]) -> AreaEntry {
    AreaEntry { path: path.to_string(), is_dir: true, contents: strings(contents) }
}

fn file(path: &str) -> AreaEntry {
    AreaEntry { path: path.to_string(), is_dir: false, contents: vec![] }
}

#[test]
fn empty_clone_is_the_marker_alone() {
    assert!(is_empty_clone(&strings(&[".git"])));
    assert!(!is_empty_clone(&strings(&[".git", "README"])));
    assert!(!is_empty_clone(&strings(&["src"])));
    assert!(!is_empty_clone(&strings(&[".gitignore"])));
    assert!(!is_empty_clone(&vec![]));
}

#[test]
fn empty_clones_are_picked_and_areas_skipped() {
    let entries = vec![
        dir("/rec/repo-1", &[".git"]),
        dir("/rec/empty", &[".git"]),
        dir("/rec/repo-2", &[".git", "main.rs"]),
        dir("/rec/dup", &[".git"]),
        dir("/rec/repo-3", &[".git"]),
    ];
    let moves = move_empty_recovered_repos(&entries, &"/rec/empty".to_string(), &"/rec/dup".to_string()).unwrap();
    assert_eq!(moves, strings(&["/rec/repo-1", "/rec/repo-3"]));
}

#[test]
fn a_file_in_the_recovery_area_stops_triage() {
    let entries = vec![dir("/rec/repo-1", &[".git"]), file("/rec/notes.txt")];
    match move_empty_recovered_repos(&entries, &"/rec/empty".to_string(), &"/rec/dup".to_string()) {
        Err(PipelineError::Classification { path, .. }) => assert_eq!(path, "/rec/notes.txt"),
        other => panic!("unexpected {:?}", other),
    }
}

#[test]
fn repository_dirs_skip_files_and_areas() {
    let entries = vec![dir("/rec/repo-1", &[]), file("/rec/x"), dir("/rec/empty", &[]), dir("/rec/repo-2", &[]), dir("/rec/dup", &[])];
    assert_eq!(
        repository_paths(&entries, &"/rec/empty".to_string(), &"/rec/dup".to_string()),
        strings(&["/rec/repo-1", "/rec/repo-2"])
    );
    assert_eq!(count_directories(&entries), 4);
    assert_eq!(count_directories(&vec![]), 0);
}

#[test]
fn fingerprint_ignores_the_order_of_ref_lines() {
    let a = compute_git_fingerprint(Some(strings(&["b refs/heads/main", "a refs/tags/v1", "c refs/tags/v2"])), None, Some("/o".to_string()));
    let b = compute_git_fingerprint(Some(strings(&["c refs/tags/v2", "b refs/heads/main", "a refs/tags/v1"])), None, Some("/o".to_string()));
    let c = compute_git_fingerprint(Some(strings(&["a refs/tags/v1", "b refs/heads/main", "c refs/tags/v2"])), None, Some("/o".to_string()));
    assert_eq!(a, b);
    assert_eq!(a, c);
}

#[test]
fn fingerprint_tells_histories_and_origins_apart() {
    let base = compute_git_fingerprint(Some(strings(&["x refs/tags/v1"])), None, Some("/o".to_string()));
    assert_ne!(base, compute_git_fingerprint(Some(strings(&["y refs/tags/v1"])), None, Some("/o".to_string())));
    assert_ne!(base, compute_git_fingerprint(Some(strings(&["x refs/tags/v1"])), None, Some("/other".to_string())));
    assert_ne!(base, compute_git_fingerprint(Some(strings(&["x refs/tags/v1"])), None, None));
}

#[test]
fn fingerprint_trims_head_and_origin() {
    let a = compute_git_fingerprint(None, Some(Ok("abc123\n".to_string())), Some("  /o\n".to_string()));
    let b = compute_git_fingerprint(None, Some(Ok("abc123".to_string())), Some("/o".to_string()));
    assert_eq!(a, b);
    assert_ne!(a, compute_git_fingerprint(None, Some(Ok("abc124".to_string())), Some("/o".to_string())));
}

#[test]
fn fingerprint_falls_back_to_error_text() {
    let a = compute_git_fingerprint(None, Some(Err("fatal: bad HEAD".to_string())), None);
    let b = compute_git_fingerprint(None, Some(Err("fatal: bad HEAD".to_string())), None);
    assert_eq!(a, b);
    assert_ne!(a, compute_git_fingerprint(None, Some(Err("fatal: other".to_string())), None));
    let head_ignored = compute_git_fingerprint(Some(strings(&["x"])), Some(Ok("abc".to_string())), None);
    assert_eq!(head_ignored, compute_git_fingerprint(Some(strings(&["x"])), None, None));
}

#[test]
fn dedup_keeps_first_of_each_fingerprint() {
    let (f, g) = (11u64, 22u64);
    let out = move_duplicate_recovered_repos(&vec![f, f, g]);
    assert_eq!(out.decisions, vec![Classification::Unique, Classification::DuplicateOf(0), Classification::Unique]);
    assert_eq!(out.unique_kept, 2);
    assert_eq!(out.duplicates, 1);
}

#[test]
fn dedup_points_every_duplicate_at_the_first() {
    let out = move_duplicate_recovered_repos(&vec![5, 7, 5, 7, 5]);
    assert_eq!(
        out.decisions,
        vec![
            Classification::Unique,
            Classification::Unique,
            Classification::DuplicateOf(0),
            Classification::DuplicateOf(1),
            Classification::DuplicateOf(0)
        ]
    );
    assert_eq!((out.unique_kept, out.duplicates), (2, 3));
}

#[test]
fn second_dedup_pass_moves_nothing() {
    let fps = vec![3u64, 3, 9, 3, 4];
    let first = move_duplicate_recovered_repos(&fps);
    let kept: Vec<u64> = fps.iter().zip(first.decisions.iter()).filter(|(_, d)| **d == Classification::Unique).map(|(f, _)| *f).collect();
    assert_eq!(kept, vec![3, 9, 4]);
    let second = move_duplicate_recovered_repos(&kept);
    assert_eq!(second.duplicates, 0);
    assert_eq!(second.unique_kept, 3);
    assert!(second.decisions.iter().all(|d| *d == Classification::Unique));
}

#[test]
fn dedup_of_nothing() {
    let out = move_duplicate_recovered_repos(&vec![]);
    assert!(out.decisions.is_empty());
    assert_eq!((out.unique_kept, out.duplicates), (0, 0));
}
