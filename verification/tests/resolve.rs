use mutation_orchestrator::config::{FilterArgs, MutationRunConfig};
use mutation_orchestrator::path::FilePath;
use mutation_orchestrator::plan::plan_files;
use mutation_orchestrator::pattern::GlobPattern;
use mutation_orchestrator::resolve::{
    check_requested, choose_paths, find_build_id, resolve_mutate_paths, ArtifactId, CanonicalFile,
    PathProblem, PathSelection, ProjectFacts, RequestedPath, ResolveError, SourceFile,
};
use regex::Regex;

fn path(text: &str) -> FilePath {
    let mut components: Vec<Vec<u8>> = Vec::new();
    if text.starts_with('/') {
        components.push(b"/".to_vec());
    }
    for part in text.split('/') {
        if !part.is_empty() && part != "." {
            components.push(part.as_bytes().to_vec());
        }
    }
    FilePath { components }
}

fn source(text: &str, is_sol: bool, is_sol_test: bool, matches_pattern: bool) -> SourceFile {
    SourceFile { path: path(text), display: text.to_string(), is_sol, is_sol_test, matches_pattern }
}

fn canonical(text: &str, is_sol: bool, is_sol_test: bool) -> CanonicalFile {
    CanonicalFile { path: path(text), display: text.to_string(), is_sol, is_sol_test }
}

fn requested(text: &str) -> RequestedPath {
    RequestedPath {
        display: text.to_string(),
        exists: true,
        is_file: true,
        canonical: Some(canonical(text, true, false)),
    }
}

fn artifact(name: &str, source: &str, build_id: &str) -> ArtifactId {
    ArtifactId { name: name.to_string(), source: path(source), build_id: build_id.to_string() }
}

fn run_config(paths: &[&str], glob: Option<&str>, contract: Option<&str>) -> MutationRunConfig {
    MutationRunConfig {
        mutate_paths: paths.iter().map(|path| path.to_string()).collect(),
        mutate_path_pattern: glob.map(|text| GlobPattern { text: text.to_string() }),
        mutate_contract_pattern: contract.map(|text| Regex::new(text).unwrap()),
        num_workers: 0,
        show_progress: false,
        json_output: false,
        filter_args: FilterArgs {
            test_pattern: None,
            test_pattern_inverse: None,
            contract_pattern: None,
            contract_pattern_inverse: None,
            path_pattern: None,
            path_pattern_inverse: None,
        },
        isolate: false,
    }
}

fn project() -> ProjectFacts {
    ProjectFacts {
        root: Some(path("/proj")),
        sources: vec![
            source("/proj/src/Token.sol", true, false, true),
            source("/proj/src/Token.t.sol", true, true, true),
            source("/proj/src/Math.vy", false, false, true),
            source("/proj/src/Vault.sol", true, false, false),
        ],
        requested: vec![requested("/proj/src/Vault.sol"), requested("/proj/src/Token.sol")],
        artifacts: vec![
            artifact("Token", "/proj/src/Token.sol", "b1"),
            artifact("IToken", "/proj/src/Token.sol", "b2"),
            artifact("Vault", "/proj/src/Vault.sol", "b3"),
        ],
    }
}

#[test]
fn all_solidity_sources_but_tests_by_default() {
    let resolved = resolve_mutate_paths(&run_config(&[], None, None), &project());
    assert_eq!(resolved, Ok(vec![0, 3]));
}

#[test]
fn a_glob_narrows_the_sources_down() {
    let resolved = resolve_mutate_paths(&run_config(&[], Some("src/T*"), None), &project());
    assert_eq!(resolved, Ok(vec![0]));
}

#[test]
fn a_glob_goes_before_listed_paths() {
    let config = run_config(&["src/Vault.sol"], Some("src/T*"), None);
    assert_eq!(config.path_selection(), PathSelection::Matching);
    let mut facts = project();
    facts.root = None;
    assert_eq!(resolve_mutate_paths(&config, &facts), Ok(vec![0]));
}

#[test]
fn selection_follows_the_configuration() {
    assert_eq!(run_config(&[], None, None).path_selection(), PathSelection::AllSources);
    assert_eq!(run_config(&["a"], None, None).path_selection(), PathSelection::Requested);
    assert_eq!(run_config(&[], Some("a"), None).path_selection(), PathSelection::Matching);
}

#[test]
fn listed_paths_are_taken_in_their_order() {
    let config = run_config(&["src/Vault.sol", "src/Token.sol"], None, None);
    assert_eq!(resolve_mutate_paths(&config, &project()), Ok(vec![0, 1]));
}

#[test]
fn a_contract_filter_restricts_listed_paths() {
    let config = run_config(&["src/Vault.sol", "src/Token.sol"], None, Some("^IToken$"));
    assert_eq!(resolve_mutate_paths(&config, &project()), Ok(vec![1]));
    let config = run_config(&["src/Vault.sol", "src/Token.sol"], None, Some("Nothing"));
    assert_eq!(resolve_mutate_paths(&config, &project()), Ok(vec![]));
}

#[test]
fn a_contract_filter_restricts_sources() {
    let config = run_config(&[], None, Some("^V"));
    assert_eq!(resolve_mutate_paths(&config, &project()), Ok(vec![3]));
    let config = run_config(&[], None, Some("Token|Vault"));
    assert_eq!(resolve_mutate_paths(&config, &project()), Ok(vec![0, 3]));
    let config = run_config(&[], Some("src/T*"), Some("^V"));
    assert_eq!(resolve_mutate_paths(&config, &project()), Ok(vec![]));
}

#[test]
fn the_regex_sees_the_contract_name() {
    let mut facts = project();
    facts.artifacts = vec![artifact("Tokens", "/proj/src/Token.sol", "b")];
    assert_eq!(resolve_mutate_paths(&run_config(&[], None, Some("^Token$")), &facts), Ok(vec![]));
    assert_eq!(resolve_mutate_paths(&run_config(&[], None, Some("k.ns$")), &facts), Ok(vec![0]));
}

#[test]
fn matched_contracts_may_be_given() {
    let facts = project();
    let matched = vec![false, true, false];
    let resolved = choose_paths(PathSelection::AllSources, &facts, Some(&matched));
    assert_eq!(resolved, Ok(vec![0]));
    let matched = vec![false, false, true];
    let resolved = choose_paths(PathSelection::Requested, &facts, Some(&matched));
    assert_eq!(resolved, Ok(vec![0]));
    assert_eq!(choose_paths(PathSelection::Matching, &facts, None), Ok(vec![0]));
}

#[test]
fn a_root_that_leads_nowhere_is_an_error() {
    let mut facts = project();
    facts.root = None;
    let config = run_config(&["src/Vault.sol", "src/Token.sol"], None, None);
    let resolved = resolve_mutate_paths(&config, &facts);
    assert_eq!(resolved, Err(ResolveError::Root));
    assert_eq!(
        ResolveError::Root.message(&facts.requested),
        "failed to canonicalize project root"
    );
    assert_eq!(resolve_mutate_paths(&run_config(&[], None, None), &facts), Ok(vec![0, 3]));
}

fn problem_with(bad: RequestedPath) -> (PathProblem, String) {
    let mut facts = project();
    facts.requested = vec![requested("/proj/src/Vault.sol"), bad, requested("/elsewhere/X.sol")];
    let config = run_config(&["a", "b", "c"], None, None);
    match resolve_mutate_paths(&config, &facts) {
        Err(error) => match error {
            ResolveError::Path { position, problem } => {
                assert_eq!(position, 1);
                (problem, error.message(&facts.requested))
            }
            ResolveError::Root => panic!("the root is known"),
        },
        Ok(_) => panic!("the path is bad"),
    }
}

#[test]
fn a_missing_path_is_an_error() {
    let mut bad = requested("/proj/src/No.sol");
    bad.exists = false;
    bad.is_file = false;
    bad.canonical = None;
    let (problem, message) = problem_with(bad);
    assert_eq!(problem, PathProblem::Missing);
    assert_eq!(message, "mutate path does not exist: /proj/src/No.sol");
}

#[test]
fn a_directory_is_an_error() {
    let mut bad = requested("/proj/src");
    bad.is_file = false;
    let (problem, message) = problem_with(bad);
    assert_eq!(problem, PathProblem::NotAFile);
    assert_eq!(message, "mutate path is not a file: /proj/src");
}

#[test]
fn a_path_that_leads_nowhere_is_an_error() {
    let mut bad = requested("/proj/src/A.sol");
    bad.canonical = None;
    let (problem, message) = problem_with(bad);
    assert_eq!(problem, PathProblem::NotCanonical);
    assert_eq!(message, "failed to canonicalize: /proj/src/A.sol");
}

#[test]
fn a_path_out_of_the_project_is_an_error() {
    let (problem, message) = problem_with(requested("/project/src/A.sol"));
    assert_eq!(problem, PathProblem::OutsideRoot);
    assert_eq!(message, "mutate path is outside the project root: /project/src/A.sol");
}

#[test]
fn another_language_is_an_error() {
    let mut bad = requested("/proj/src/Math.vy");
    bad.canonical = Some(canonical("/proj/src/Math.vy", false, false));
    let (problem, message) = problem_with(bad);
    assert_eq!(problem, PathProblem::NotSolidity);
    assert_eq!(message, "mutate path is not a Solidity file: /proj/src/Math.vy");
}

#[test]
fn a_test_file_is_an_error() {
    let mut bad = requested("/proj/test/A.t.sol");
    bad.canonical = Some(canonical("/proj/test/A.t.sol", true, true));
    let (problem, message) = problem_with(bad);
    assert_eq!(problem, PathProblem::TestFile);
    assert_eq!(message, "mutate path is a test file, not a source file: /proj/test/A.t.sol");
}

#[test]
fn complaints_come_in_their_order() {
    let mut bad = requested("/elsewhere/A.t.sol");
    bad.canonical = Some(canonical("/elsewhere/A.t.sol", false, true));
    let root = path("/proj");
    assert_eq!(check_requested(&bad, &root), Some(PathProblem::OutsideRoot));
    bad.is_file = false;
    assert_eq!(check_requested(&bad, &root), Some(PathProblem::NotAFile));
    bad.exists = false;
    assert_eq!(check_requested(&bad, &root), Some(PathProblem::Missing));
    assert_eq!(check_requested(&requested("/proj/src/A.sol"), &root), None);
}

#[test]
fn a_file_listed_twice_is_taken_twice() {
    let mut facts = project();
    facts.requested = vec![requested("/proj/src/Vault.sol"), requested("/proj/src/Vault.sol")];
    let config = run_config(&["src/Vault.sol", "src/Vault.sol"], None, None);
    assert_eq!(resolve_mutate_paths(&config, &facts), Ok(vec![0, 1]));
}

#[test]
fn the_first_build_of_a_file_counts() {
    let facts = project();
    assert_eq!(find_build_id(&facts.artifacts, &path("/proj/src/Token.sol")), "b1");
    assert_eq!(find_build_id(&facts.artifacts, &path("/proj/src//./Vault.sol")), "b3");
    assert_eq!(find_build_id(&facts.artifacts, &path("/proj/src/New.sol")), "");
}

#[test]
fn prefixes_are_whole_components() {
    assert!(path("/a/b/c").starts_with(&path("/a/b")));
    assert!(path("/a/b").starts_with(&path("/a/b")));
    assert!(!path("/a/bc").starts_with(&path("/a/b")));
    assert!(!path("/a").starts_with(&path("/a/b")));
    assert!(!path("a/b").starts_with(&path("/a")));
    assert!(path("/a/b").is_same(&path("/a//b/")));
    assert!(!path("/a/b").is_same(&path("/a/b/c")));
    assert!(!path("/a/b").is_same(&path("/a/c")));
}

#[test]
fn planned_files_have_the_build_of_their_first_contract() {
    let mut facts = project();
    facts.requested.push(requested("/proj/src/New.sol"));
    facts.requested[0].canonical = Some(canonical("/proj/lib/Vault.sol", true, false));
    facts.artifacts.push(artifact("Vault", "/proj/lib/Vault.sol", "b9"));
    let config = run_config(&["link/Vault.sol", "src/Token.sol", "src/New.sol"], None, None);
    let files = match plan_files(&config, &facts) {
        Ok(files) => files,
        Err(_) => panic!("the paths are good"),
    };
    let planned: Vec<(usize, &str, &str)> = files
        .iter()
        .map(|file| (file.candidate, file.display.as_str(), file.build_id.as_str()))
        .collect();
    assert_eq!(
        planned,
        vec![
            (0, "/proj/lib/Vault.sol", "b9"),
            (1, "/proj/src/Token.sol", "b1"),
            (2, "/proj/src/New.sol", "")
        ]
    );
}

#[test]
fn planned_sources_are_those_that_are_chosen() {
    let facts = project();
    let files = match plan_files(&run_config(&[], None, Some("^V")), &facts) {
        Ok(files) => files,
        Err(_) => panic!("sources need no check"),
    };
    assert_eq!(files.len(), 1);
    assert_eq!(files[0].candidate, 3);
    assert_eq!(files[0].display, "/proj/src/Vault.sol");
    assert_eq!(files[0].build_id, "b3");
}

#[test]
fn a_plan_fails_where_a_path_is_bad() {
    let mut facts = project();
    facts.requested[1].exists = false;
    let config = run_config(&["src/Vault.sol", "src/Token.sol"], None, None);
    let problem = match plan_files(&config, &facts) {
        Ok(_) => panic!("a path is bad"),
        Err(error) => error,
    };
    assert_eq!(problem, ResolveError::Path { position: 1, problem: PathProblem::Missing });
    facts.root = None;
    assert!(matches!(plan_files(&config, &facts), Err(ResolveError::Root)));
}

#[test]
fn a_path_below_the_root_is_what_is_left_of_it() {
    let rest = |text: &str, root: &str| path(text).below(&path(root));
    match rest("/proj/src/A.sol", "/proj") {
        Some(rest) => assert_eq!(rest.components, vec![b"src".to_vec(), b"A.sol".to_vec()]),
        None => panic!("the path lies below the root"),
    }
    match rest("/proj", "/proj/") {
        Some(rest) => assert!(rest.components.is_empty()),
        None => panic!("the path is the root"),
    }
    assert!(rest("/project/src/A.sol", "/proj").is_none());
    assert!(rest("/", "/proj").is_none());
}
