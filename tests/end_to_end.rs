use repo_rebuilder::dedup::{move_duplicate_recovered_repos, Classification};
use repo_rebuilder::fingerprint::compute_git_fingerprint;
use repo_rebuilder::naming::repo_name_for;
use repo_rebuilder::recover::Recovery;
use repo_rebuilder::scan::{find_candidate_repos, DirTree};
use repo_rebuilder::shape::{DirEntry, EntryKind};
use repo_rebuilder::triage::{count_directories, repository_paths, AreaEntry};
use repo_rebuilder::validate::{validate_bare_repo_with_git, ToolOutput};

fn bare(path: &str) -> DirTree {
    let e = |n: &str, k: EntryKind| DirEntry { name: n.to_string(), kind: k };
    DirTree {
        path: path.to_string(),
        entries: vec![e("HEAD", EntryKind::File), e("config", EntryKind::File), e("objects", EntryKind::Dir), e("refs", EntryKind::Dir)],
        subdirs: vec![],
    }
}

#[test]
fn three_sources_two_survivors_one_duplicate() {
    let root = DirTree { path: "/src".to_string(), entries: vec![], subdirs: vec![bare("/src/r1"), bare("/src/r2"), bare("/src/r3")] };
    let mut candidates = Vec::new();
    find_candidate_repos(&root, &mut candidates);
    assert_eq!(candidates.len(), 3);
    for c in &candidates {
        let answer = Ok(ToolOutput { success: true, stdout: "true\n".to_string(), stderr: String::new() });
        assert_eq!(validate_bare_repo_with_git(c, &answer), Ok(()));
    }

    let mut run = Recovery::new(candidates.clone());
    let mut clock = 1_000u128;
    while run.next_source().is_some() {
        let name = repo_name_for(clock);
        clock += 1;
        run.claim(name.clone(), format!("/rec/{}", name), false).unwrap();
        run.record_clone(&Ok(ToolOutput { success: true, stdout: String::new(), stderr: String::new() })).unwrap();
    }
    let recovered = run.recovered().clone();
    assert_eq!(recovered.len(), 3);

    let mut area: Vec<AreaEntry> = recovered
        .iter()
        .map(|r| AreaEntry { path: format!("/rec/{}", r.name), is_dir: true, contents: vec![".git".to_string(), "f".to_string()] })
        .collect();
    area.push(AreaEntry { path: "/rec/empty".to_string(), is_dir: true, contents: vec![] });
    area.push(AreaEntry { path: "/rec/dup".to_string(), is_dir: true, contents: vec![] });
    let repos = repository_paths(&area, &"/rec/empty".to_string(), &"/rec/dup".to_string());
    assert_eq!(repos.len(), 3);

    let tags = vec!["1111111111111111111111111111111111111111 refs/tags/v1".to_string()];
    let origin = Some("git@example.org:group/project.git".to_string());
    let fps: Vec<u64> = recovered
        .iter()
        .map(|r| match r.source.as_str() {
            "/src/r3" => compute_git_fingerprint(None, Some(Ok("abc123\n".to_string())), None),
            _ => compute_git_fingerprint(Some(tags.clone()), None, origin.clone()),
        })
        .collect();
    let out = move_duplicate_recovered_repos(&fps);
    assert_eq!(out.decisions, vec![Classification::Unique, Classification::DuplicateOf(0), Classification::Unique]);
    assert_eq!((out.unique_kept, out.duplicates), (2, 1));

    let left: Vec<AreaEntry> = area
        .iter()
        .enumerate()
        .filter(|(i, _)| *i >= 3 || out.decisions[*i] == Classification::Unique)
        .map(|(_, e)| e.clone())
        .collect();
    assert_eq!(count_directories(&left), 4);
    assert_eq!(repository_paths(&left, &"/rec/empty".to_string(), &"/rec/dup".to_string()).len(), 2);
}
