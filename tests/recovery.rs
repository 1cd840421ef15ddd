use repo_rebuilder::error::PipelineError;
use repo_rebuilder::naming::{generate_random_repo_name, repo_name_for};
use repo_rebuilder::recover::{prepare_recovery_area, Recovery};
use repo_rebuilder::validate::ToolOutput;

fn cloned() -> Result<ToolOutput, String> {
    Ok(ToolOutput { success: true, stdout: String::new(), stderr: String::new() })
}

fn is_repo_name(name: &str) -> bool {
    match name.strip_prefix("repo-") {
        Some(hex) => !hex.is_empty() && hex.len() <= 16 && hex.chars().all(|c| c.is_ascii_hexdigit() && !c.is_ascii_uppercase()),
        None => false,
    }
}

#[test]
fn names_are_repo_and_lower_hex() {
    for nanos in [0u128, 1, 1_700_000_000_000_000_000, u128::MAX] {
        let name = repo_name_for(nanos);
        assert!(is_repo_name(&name), "{}", name);
        let hex = &name["repo-".len()..];
        assert!(hex == "0" || !hex.starts_with('0'), "{}", name);
    }
}

#[test]
fn names_follow_the_reading_alone() {
    assert_eq!(repo_name_for(42), repo_name_for(42));
    assert_ne!(repo_name_for(42), repo_name_for(43));
}

#[test]
fn generated_name_has_the_identifier_shape() {
    let name = generate_random_repo_name().unwrap();
    assert!(is_repo_name(&name), "{}", name);
}

#[test]
fn recovery_gives_one_clone_per_confirmed_repository() {
    let mut run = Recovery::new(vec!["/src/a".to_string(), "/src/b".to_string()]);
    let names = ["repo-1", "repo-2"];
    let mut k = 0;
    while let Some(source) = run.next_source() {
        assert_eq!(source, ["/src/a", "/src/b"][k]);
        let name = names[k].to_string();
        run.claim(name.clone(), format!("/rec/{}", name), false).unwrap();
        run.record_clone(&cloned()).unwrap();
        k += 1;
    }
    assert_eq!(k, 2);
    let got: Vec<(String, String)> = run.recovered().iter().map(|r| (r.source.clone(), r.name.clone())).collect();
    assert_eq!(
        got,
        vec![("/src/a".to_string(), "repo-1".to_string()), ("/src/b".to_string(), "repo-2".to_string())]
    );
}

#[test]
fn a_repeated_name_is_a_collision() {
    let mut run = Recovery::new(vec!["/src/a".to_string(), "/src/b".to_string()]);
    run.claim("repo-1".to_string(), "/rec/repo-1".to_string(), false).unwrap();
    run.record_clone(&cloned()).unwrap();
    assert_eq!(
        run.claim("repo-1".to_string(), "/rec/repo-1".to_string(), false),
        Err(PipelineError::Collision { path: "/rec/repo-1".to_string() })
    );
    assert_eq!(run.recovered().len(), 1);
}

#[test]
fn an_existing_destination_is_a_collision() {
    let mut run = Recovery::new(vec!["/src/a".to_string()]);
    assert_eq!(
        run.claim("repo-9".to_string(), "/rec/repo-9".to_string(), true),
        Err(PipelineError::Collision { path: "/rec/repo-9".to_string() })
    );
    assert!(run.recovered().is_empty());
}

#[test]
fn a_failed_clone_stops_with_its_diagnostics() {
    let mut run = Recovery::new(vec!["/src/a".to_string()]);
    run.claim("repo-1".to_string(), "/rec/repo-1".to_string(), false).unwrap();
    let failed = Ok(ToolOutput { success: false, stdout: String::new(), stderr: "fatal: not a repository".to_string() });
    assert_eq!(
        run.record_clone(&failed),
        Err(PipelineError::Clone { path: "/src/a".to_string(), diagnostics: "fatal: not a repository".to_string() })
    );
    assert!(run.recovered().is_empty());
    run.claim("repo-2".to_string(), "/rec/repo-2".to_string(), false).unwrap();
    assert_eq!(
        run.record_clone(&Err("cannot run".to_string())),
        Err(PipelineError::Clone { path: "/src/a".to_string(), diagnostics: "cannot run".to_string() })
    );
}

#[test]
fn recovery_of_nothing_is_complete_at_once() {
    let run = Recovery::new(vec![]);
    assert_eq!(run.next_source(), None);
}

#[test]
fn recovery_area_check() {
    let path = "/rec".to_string();
    assert_eq!(prepare_recovery_area(&path, false, false), Ok(true));
    assert_eq!(prepare_recovery_area(&path, true, true), Ok(false));
    assert!(matches!(prepare_recovery_area(&path, true, false), Err(PipelineError::Access { .. })));
}
