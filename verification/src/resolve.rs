//! Which source files a run mutates.

use crate::config::MutationRunConfig;
use crate::order::positions;
use crate::path::FilePath;
use crate::pattern::{is_match, regex_matches};
use regex::Regex;
use vstd::prelude::*;

verus! {

/// A file below the source directory of the project.
pub struct SourceFile {
    /// Where it is.
    pub path: FilePath,
    /// The path as it is shown to the user.
    pub display: String,
    /// Whether it is a Solidity file.
    pub is_sol: bool,
    /// Whether it is a Solidity test file.
    pub is_sol_test: bool,
    /// Whether it matches the glob pattern of the run; means nothing in a run without one.
    pub matches_pattern: bool,
}

/// Where a requested path leads once links and relative parts are resolved.
pub struct CanonicalFile {
    /// Where it is.
    pub path: FilePath,
    /// The path as it is shown to the user.
    pub display: String,
    /// Whether it is a Solidity file.
    pub is_sol: bool,
    /// Whether it is a Solidity test file.
    pub is_sol_test: bool,
}

/// What the file system has to say of a path that was asked for.
pub struct RequestedPath {
    /// The path, taken relative to the project root, as it is shown to the user.
    pub display: String,
    /// Whether there is anything.
    pub exists: bool,
    /// Whether it is a file.
    pub is_file: bool,
    /// Where it leads, or `None` if that cannot be found out.
    pub canonical: Option<CanonicalFile>,
}

/// A contract that was compiled.
pub struct ArtifactId {
    /// The name of the contract.
    pub name: String,
    /// The file that it stands in.
    pub source: FilePath,
    /// The build that it comes from.
    pub build_id: String,
}

/// What is known of the project when a run starts.
pub struct ProjectFacts {
    /// Where the project root leads, or `None` if that cannot be found out; read only where
    /// paths were asked for.
    pub root: Option<FilePath>,
    /// The files below the source directory; read unless paths were asked for.
    pub sources: Vec<SourceFile>,
    /// The paths that were asked for; read only where they are the ones to mutate.
    pub requested: Vec<RequestedPath>,
    /// The compiled contracts.
    pub artifacts: Vec<ArtifactId>,
}

/// Where the candidates of a run come from.
#[derive(Clone, Copy, Debug, PartialEq, Eq, Structural)]
pub enum PathSelection {
    /// `--mutate-path <GLOB>`: all source files matching the glob.
    Matching,
    /// `--mutate PATH...`: the files listed.
    Requested,
    /// Every Solidity source file (no test files) below the source directory.
    AllSources,
}

/// Why a requested path cannot be mutated.
#[derive(Clone, Copy, Debug, PartialEq, Eq, Structural)]
pub enum PathProblem {
    /// There is nothing.
    Missing,
    /// It is not a file.
    NotAFile,
    /// It cannot be found out where it leads.
    NotCanonical,
    /// It leads out of the project.
    OutsideRoot,
    /// It is not a Solidity file.
    NotSolidity,
    /// It is a test file.
    TestFile,
}

/// Why no files can be chosen.
#[derive(Clone, Copy, Debug, PartialEq, Eq, Structural)]
pub enum ResolveError {
    /// It cannot be found out where the project root leads.
    Root,
    /// One of the requested paths cannot be mutated.
    Path {
        /// Which of them.
        position: usize,
        /// Why.
        problem: PathProblem,
    },
}

/// Whether there are facts on each of the listed paths, where those are the candidates.
pub open spec fn facts_fit(mutation_config: MutationRunConfig, facts: ProjectFacts) -> bool {
    selection_of(mutation_config) == PathSelection::Requested ==> facts.requested@.len()
        == mutation_config.mutate_paths@.len()
}

/// Where the candidates come from: a glob pattern goes before listed paths.
pub open spec fn selection_of(mutation_config: MutationRunConfig) -> PathSelection {
    if mutation_config.mutate_path_pattern is Some {
        PathSelection::Matching
    } else if mutation_config.mutate_paths@.len() > 0 {
        PathSelection::Requested
    } else {
        PathSelection::AllSources
    }
}

impl MutationRunConfig {
    /// Where the candidates of the run come from.
    pub fn path_selection(&self) -> (selection: PathSelection)
        ensures
            selection == selection_of(*self),
    {
        if self.mutate_path_pattern.is_some() {
            PathSelection::Matching
        } else if self.mutate_paths.len() > 0 {
            PathSelection::Requested
        } else {
            PathSelection::AllSources
        }
    }
}

/// What is wrong with a requested path, if anything: the first complaint that applies.
pub open spec fn problem_of(requested: RequestedPath, root: Seq<Seq<u8>>) -> Option<PathProblem> {
    if !requested.exists {
        Some(PathProblem::Missing)
    } else if !requested.is_file {
        Some(PathProblem::NotAFile)
    } else {
        match requested.canonical {
            None => Some(PathProblem::NotCanonical),
            Some(file) => if !root.is_prefix_of(file.path@) {
                Some(PathProblem::OutsideRoot)
            } else if !file.is_sol {
                Some(PathProblem::NotSolidity)
            } else if file.is_sol_test {
                Some(PathProblem::TestFile)
            } else {
                None
            },
        }
    }
}

/// Finds out what is wrong with a requested path, if anything.
pub fn check_requested(requested: &RequestedPath, root: &FilePath) -> (problem: Option<PathProblem>)
    ensures
        problem == problem_of(*requested, root@),
{
    if !requested.exists {
        return Some(PathProblem::Missing);
    }
    if !requested.is_file {
        return Some(PathProblem::NotAFile);
    }
    match &requested.canonical {
        None => Some(PathProblem::NotCanonical),
        Some(file) => if !file.path.starts_with(root) {
            Some(PathProblem::OutsideRoot)
        } else if !file.is_sol {
            Some(PathProblem::NotSolidity)
        } else if file.is_sol_test {
            Some(PathProblem::TestFile)
        } else {
            None
        },
    }
}

/// What the user is told of a problem, before the path.
pub open spec fn problem_text(problem: PathProblem) -> Seq<char> {
    match problem {
        PathProblem::Missing => "mutate path does not exist: "@,
        PathProblem::NotAFile => "mutate path is not a file: "@,
        PathProblem::NotCanonical => "failed to canonicalize: "@,
        PathProblem::OutsideRoot => "mutate path is outside the project root: "@,
        PathProblem::NotSolidity => "mutate path is not a Solidity file: "@,
        PathProblem::TestFile => "mutate path is a test file, not a source file: "@,
    }
}

/// What the user is told of an error.
pub open spec fn error_text(error: ResolveError, requested: Seq<RequestedPath>) -> Seq<char> {
    match error {
        ResolveError::Root => "failed to canonicalize project root"@,
        ResolveError::Path { position, problem } => problem_text(problem)
            + requested[position as int].display@,
    }
}

impl ResolveError {
    /// What the user is told, given the paths that were asked for.
    pub fn message(&self, requested: &Vec<RequestedPath>) -> (text: String)
        requires
            self matches ResolveError::Path { position, .. } ==> position < requested.len(),
        ensures
            text@ == error_text(*self, requested@),
    {
        match *self {
            ResolveError::Root => "failed to canonicalize project root".to_owned(),
            ResolveError::Path { position, problem } => {
                let start: String = match problem {
                    PathProblem::Missing => "mutate path does not exist: ".to_owned(),
                    PathProblem::NotAFile => "mutate path is not a file: ".to_owned(),
                    PathProblem::NotCanonical => "failed to canonicalize: ".to_owned(),
                    PathProblem::OutsideRoot => {
                        "mutate path is outside the project root: ".to_owned()
                    },
                    PathProblem::NotSolidity => "mutate path is not a Solidity file: ".to_owned(),
                    PathProblem::TestFile => {
                        "mutate path is a test file, not a source file: ".to_owned()
                    },
                };
                start.concat(requested[position].display.as_str())
            },
        }
    }
}

/// Whether some contract of the file is among the matched ones.
pub open spec fn has_matched_contract(
    artifacts: Seq<ArtifactId>,
    matched: Seq<bool>,
    path: Seq<Seq<u8>>,
) -> bool {
    exists|k: int| 0 <= k < artifacts.len() && (#[trigger] artifacts[k]).source@ == path && matched[k]
}

/// The number of candidates.
pub open spec fn candidate_count(selection: PathSelection, facts: ProjectFacts) -> nat {
    if selection == PathSelection::Requested {
        facts.requested@.len()
    } else {
        facts.sources@.len()
    }
}

/// Where a candidate is.
pub open spec fn candidate_path(selection: PathSelection, facts: ProjectFacts, i: int) -> Seq<
    Seq<u8>,
> {
    if selection == PathSelection::Requested {
        facts.requested@[i].canonical->0.path@
    } else {
        facts.sources@[i].path@
    }
}

/// Whether a candidate belongs to the base set of files.
pub open spec fn in_base(selection: PathSelection, facts: ProjectFacts, i: int) -> bool {
    match selection {
        PathSelection::Requested => true,
        PathSelection::AllSources => facts.sources@[i].is_sol && !facts.sources@[i].is_sol_test,
        PathSelection::Matching => facts.sources@[i].is_sol && !facts.sources@[i].is_sol_test
            && facts.sources@[i].matches_pattern,
    }
}

/// Whether a candidate is mutated: it belongs to the base set and, where contracts are filtered,
/// holds a matched one.
pub open spec fn is_chosen(
    selection: PathSelection,
    facts: ProjectFacts,
    matched: Option<Seq<bool>>,
    i: int,
) -> bool {
    &&& in_base(selection, facts, i)
    &&& matched matches Some(matched) ==> has_matched_contract(
        facts.artifacts@,
        matched,
        candidate_path(selection, facts, i),
    )
}

/// The positions up to `count` that pass a test, in ascending order.
pub open spec fn positions_where(count: nat, pred: spec_fn(int) -> bool) -> Seq<int> {
    Seq::new(count, |i: int| i).filter(pred)
}

/// The candidates that are mutated, by their positions.
pub open spec fn chosen_positions(
    selection: PathSelection,
    facts: ProjectFacts,
    matched: Option<Seq<bool>>,
) -> Seq<int> {
    positions_where(
        candidate_count(selection, facts),
        |i: int| is_chosen(selection, facts, matched, i),
    )
}

/// Whether the requested path at `position` is the first that has a problem, and this one.
pub open spec fn is_first_problem(
    facts: ProjectFacts,
    position: int,
    problem: PathProblem,
) -> bool {
    let root = facts.root->0@;
    &&& facts.root is Some
    &&& 0 <= position < facts.requested@.len()
    &&& problem_of(facts.requested@[position], root) == Some(problem)
    &&& forall|i: int|
        0 <= i < position ==> problem_of(#[trigger] facts.requested@[i], root) is None
}

/// Whether all requested paths can be mutated, where they are the candidates.
pub open spec fn can_resolve(selection: PathSelection, facts: ProjectFacts) -> bool {
    selection == PathSelection::Requested ==> {
        &&& facts.root is Some
        &&& forall|i: int|
            0 <= i < facts.requested@.len() ==> problem_of(
                #[trigger] facts.requested@[i],
                facts.root->0@,
            ) is None
    }
}

/// One more position passes the test or does not.
proof fn lemma_one_more_position(count: nat, pred: spec_fn(int) -> bool)
    ensures
        positions_where(count + 1, pred) == if pred(count as int) {
            positions_where(count, pred).push(count as int)
        } else {
            positions_where(count, pred)
        },
{
    reveal(Seq::filter);
    let more = Seq::new(count + 1, |i: int| i);
    assert(more.drop_last() =~= Seq::new(count, |i: int| i));
    assert(more.last() == count);
}

/// Looks for a matched contract of the file.
fn find_matched_contract(
    artifacts: &Vec<ArtifactId>,
    matched: &Vec<bool>,
    path: &FilePath,
) -> (found: bool)
    requires
        matched.len() == artifacts.len(),
    ensures
        found == has_matched_contract(artifacts@, matched@, path@),
{
    let mut k: usize = 0;
    while k < artifacts.len()
        invariant
            k <= artifacts.len(),
            matched.len() == artifacts.len(),
            forall|m: int|
                0 <= m < k ==> !((#[trigger] artifacts@[m]).source@ == path@ && matched@[m]),
        decreases artifacts.len() - k,
    {
        if matched[k] && artifacts[k].source.is_same(path) {
            return true;
        }
        k = k + 1;
    }
    false
}

/// Looks for the first requested path that has a problem.
fn find_problem(requested: &Vec<RequestedPath>, root: &FilePath) -> (found: Option<
    (usize, PathProblem),
>)
    ensures
        match found {
            Some((position, problem)) => {
                &&& position < requested.len()
                &&& problem_of(requested@[position as int], root@) == Some(problem)
                &&& forall|i: int|
                    0 <= i < position ==> problem_of(#[trigger] requested@[i], root@) is None
            },
            None => forall|i: int|
                0 <= i < requested@.len() ==> problem_of(
                    #[trigger] requested@[i],
                    root@,
                ) is None,
        },
{
    let mut position: usize = 0;
    while position < requested.len()
        invariant
            position <= requested.len(),
            forall|i: int|
                0 <= i < position ==> problem_of(#[trigger] requested@[i], root@) is None,
        decreases requested.len() - position,
    {
        let problem: Option<PathProblem> = check_requested(&requested[position], root);
        if let Some(problem) = problem {
            return Some((position, problem));
        }
        position = position + 1;
    }
    None
}

/// Chooses the files to mutate, where `matched` says of each compiled contract whether the
/// contract filter of the run lets it through, or is `None` in a run without one.
///
/// The files are given by their positions among the requested paths, where those are the
/// candidates, and else among the source files.
pub fn choose_paths(
    selection: PathSelection,
    facts: &ProjectFacts,
    matched: Option<&Vec<bool>>,
) -> (resolved: Result<Vec<usize>, ResolveError>)
    requires
        matched matches Some(matched) ==> matched.len() == facts.artifacts.len(),
    ensures
        resolved is Ok <==> can_resolve(selection, *facts),
        resolved == Err::<Vec<usize>, ResolveError>(ResolveError::Root) <==> selection
            == PathSelection::Requested && facts.root is None,
        forall|position: usize, problem: PathProblem|
            resolved == Err::<Vec<usize>, ResolveError>(ResolveError::Path { position, problem })
                <==> selection == PathSelection::Requested && #[trigger] is_first_problem(
                *facts,
                position as int,
                problem,
            ),
        resolved matches Err(ResolveError::Path { position, problem }) ==> is_first_problem(
            *facts,
            position as int,
            problem,
        ),
        resolved matches Ok(chosen) ==> positions(chosen@) == chosen_positions(
            selection,
            *facts,
            optional_flags(matched),
        ),
{
    let count: usize = if selection == PathSelection::Requested {
        match &facts.root {
            None => return Err(ResolveError::Root),
            Some(root) => match find_problem(&facts.requested, root) {
                Some((position, problem)) => {
                    assert(is_first_problem(*facts, position as int, problem));
                    return Err(ResolveError::Path { position, problem });
                },
                None => facts.requested.len(),
            },
        }
    } else {
        facts.sources.len()
    };
    let ghost pred = |i: int| is_chosen(selection, *facts, optional_flags(matched), i);
    let mut chosen: Vec<usize> = Vec::new();
    let mut i: usize = 0;
    proof {
        reveal(Seq::filter);
        assert(positions(chosen@) =~= positions_where(0, pred));
    }
    while i < count
        invariant
            i <= count,
            count == candidate_count(selection, *facts),
            can_resolve(selection, *facts),
            matched matches Some(matched) ==> matched.len() == facts.artifacts.len(),
            pred == (|i: int| is_chosen(selection, *facts, optional_flags(matched), i)),
            positions(chosen@) == positions_where(i as nat, pred),
        decreases count - i,
    {
        if is_candidate_chosen(selection, facts, matched, i) {
            chosen.push(i);
        }
        proof {
            lemma_one_more_position(i as nat, pred);
            assert(positions(chosen@) =~= positions_where((i + 1) as nat, pred));
        }
        i = i + 1;
    }
    Ok(chosen)
}

/// The flags of an optional list.
pub open spec fn optional_flags(flags: Option<&Vec<bool>>) -> Option<Seq<bool>> {
    match flags {
        Some(flags) => Some(flags@),
        None => None,
    }
}

/// Whether a candidate is mutated.
fn is_candidate_chosen(
    selection: PathSelection,
    facts: &ProjectFacts,
    matched: Option<&Vec<bool>>,
    i: usize,
) -> (chosen: bool)
    requires
        i < candidate_count(selection, *facts),
        can_resolve(selection, *facts),
        matched matches Some(matched) ==> matched.len() == facts.artifacts.len(),
    ensures
        chosen == is_chosen(selection, *facts, optional_flags(matched), i as int),
{
    let path: &FilePath = match selection {
        PathSelection::Requested => {
            assert(problem_of(facts.requested@[i as int], facts.root->0@) is None);
            match &facts.requested[i].canonical {
                Some(file) => &file.path,
                None => return false,
            }
        },
        PathSelection::AllSources => {
            let file: &SourceFile = &facts.sources[i];
            if !file.is_sol || file.is_sol_test {
                return false;
            }
            &file.path
        },
        PathSelection::Matching => {
            let file: &SourceFile = &facts.sources[i];
            if !file.is_sol || file.is_sol_test || !file.matches_pattern {
                return false;
            }
            &file.path
        },
    };
    match matched {
        Some(matched) => find_matched_contract(&facts.artifacts, matched, path),
        None => true,
    }
}

/// Which contracts the contract filter lets through: those whose name it matches.
pub open spec fn contract_matches(artifacts: Seq<ArtifactId>, filter: Option<Regex>) -> Option<
    Seq<bool>,
> {
    match filter {
        Some(filter) => Some(
            Seq::new(artifacts.len(), |k: int| regex_matches(filter, artifacts[k].name@)),
        ),
        None => None,
    }
}

/// Finds out which contracts the contract filter lets through.
fn match_contracts(artifacts: &Vec<ArtifactId>, filter: &Regex) -> (matched: Vec<bool>)
    ensures
        Some(matched@) == contract_matches(artifacts@, Some(*filter)),
{
    let mut matched: Vec<bool> = Vec::new();
    let mut k: usize = 0;
    while k < artifacts.len()
        invariant
            k <= artifacts.len(),
            matched@.len() == k,
            forall|m: int|
                0 <= m < k ==> #[trigger] matched@[m] == regex_matches(
                    *filter,
                    artifacts@[m].name@,
                ),
        decreases artifacts.len() - k,
    {
        matched.push(is_match(filter, artifacts[k].name.as_str()));
        k = k + 1;
    }
    assert(matched@ =~= contract_matches(artifacts@, Some(*filter))->0);
    matched
}

/// Resolve which paths to mutate based on configuration.
///
/// Resolution order:
/// 1. Pick the *base* set of candidate files:
///    - `--mutate-path <GLOB>` -> all source files matching the glob, OR
///    - explicit `--mutate PATH...` -> those validated files, OR
///    - default -> every Solidity source file (no test files) below the source directory.
/// 2. If `--mutate-contract <REGEX>` is set, intersect the base set with files that contain at
///    least one contract whose name matches the regex.
///
/// The files are given by their positions, as in [`choose_paths`].
pub fn resolve_mutate_paths(
    mutation_config: &MutationRunConfig,
    facts: &ProjectFacts,
) -> (resolved: Result<Vec<usize>, ResolveError>)
    requires
        facts_fit(*mutation_config, *facts),
    ensures
        resolved is Ok <==> can_resolve(selection_of(*mutation_config), *facts),
        resolved == Err::<Vec<usize>, ResolveError>(ResolveError::Root) <==> selection_of(
            *mutation_config,
        ) == PathSelection::Requested && facts.root is None,
        forall|position: usize, problem: PathProblem|
            resolved == Err::<Vec<usize>, ResolveError>(ResolveError::Path { position, problem })
                <==> selection_of(*mutation_config) == PathSelection::Requested
                && #[trigger] is_first_problem(*facts, position as int, problem),
        resolved matches Err(ResolveError::Path { position, problem }) ==> is_first_problem(
            *facts,
            position as int,
            problem,
        ),
        resolved matches Ok(chosen) ==> positions(chosen@) == chosen_positions(
            selection_of(*mutation_config),
            *facts,
            contract_matches(facts.artifacts@, mutation_config.mutate_contract_pattern),
        ),
{
    let selection: PathSelection = mutation_config.path_selection();
    match &mutation_config.mutate_contract_pattern {
        Some(filter) => {
            let matched: Vec<bool> = match_contracts(&facts.artifacts, filter);
            choose_paths(selection, facts, Some(&matched))
        },
        None => choose_paths(selection, facts, None),
    }
}

/// The build of the first contract compiled from the file, or nothing if none was.
pub open spec fn build_id_of(artifacts: Seq<ArtifactId>, path: Seq<Seq<u8>>) -> Seq<char>
    decreases artifacts.len(),
{
    if artifacts.len() == 0 {
        Seq::empty()
    } else if artifacts[0].source@ == path {
        artifacts[0].build_id@
    } else {
        build_id_of(artifacts.drop_first(), path)
    }
}

/// Get the build id of a file for caching: that of the first contract compiled from it, or an
/// empty one if none was.
pub fn find_build_id(artifacts: &Vec<ArtifactId>, path: &FilePath) -> (build_id: String)
    ensures
        build_id@ == build_id_of(artifacts@, path@),
{
    let mut k: usize = 0;
    assert(artifacts@.skip(0) =~= artifacts@);
    while k < artifacts.len()
        invariant
            k <= artifacts.len(),
            build_id_of(artifacts@, path@) == build_id_of(artifacts@.skip(k as int), path@),
        decreases artifacts.len() - k,
    {
        if artifacts[k].source.is_same(path) {
            return artifacts[k].build_id.clone();
        }
        assert(artifacts@.skip(k as int).drop_first() =~= artifacts@.skip(k + 1));
        k = k + 1;
    }
    String::new()
}

/// Filtering twice is filtering by both tests.
proof fn lemma_filter_twice(
    items: Seq<int>,
    first: spec_fn(int) -> bool,
    second: spec_fn(int) -> bool,
    both: spec_fn(int) -> bool,
)
    requires
        forall|i: int| #[trigger] both(i) == (first(i) && second(i)),
    ensures
        items.filter(both) == items.filter(first).filter(second),
    decreases items.len(),
{
    reveal(Seq::filter);
    if items.len() > 0 {
        let shorter = items.drop_last();
        lemma_filter_twice(shorter, first, second, both);
        let last = items.last();
        assert(both(last) == (first(last) && second(last)));
        if first(last) {
            assert(shorter.filter(first).push(last).drop_last() =~= shorter.filter(first));
        }
    }
}

/// The contract filter only narrows the files down: what is mutated with it is what is mutated
/// without it, less the files that hold no matched contract. Listed paths are never widened to
/// other source files.
pub proof fn law_contract_filter_intersects(
    selection: PathSelection,
    facts: ProjectFacts,
    matched: Seq<bool>,
)
    ensures
        chosen_positions(selection, facts, Some(matched)) == chosen_positions(
            selection,
            facts,
            None,
        ).filter(
            |i: int|
                has_matched_contract(
                    facts.artifacts@,
                    matched,
                    candidate_path(selection, facts, i),
                ),
        ),
{
    let all = Seq::new(candidate_count(selection, facts), |i: int| i);
    lemma_filter_twice(
        all,
        |i: int| is_chosen(selection, facts, None, i),
        |i: int|
            has_matched_contract(facts.artifacts@, matched, candidate_path(selection, facts, i)),
        |i: int| is_chosen(selection, facts, Some(matched), i),
    );
}

/// Positions that pass a test are in ascending order, and are all that pass.
proof fn lemma_positions_where(count: nat, pred: spec_fn(int) -> bool)
    ensures
        forall|k: int, m: int|
            0 <= k < m < positions_where(count, pred).len() ==> (#[trigger] positions_where(
                count,
                pred,
            )[k]) < (#[trigger] positions_where(count, pred)[m]),
        forall|k: int|
            0 <= k < positions_where(count, pred).len() ==> 0 <= (#[trigger] positions_where(
                count,
                pred,
            )[k]) < count && pred(positions_where(count, pred)[k]),
        forall|i: int|
            0 <= i < count && pred(i) ==> #[trigger] positions_where(count, pred).contains(i),
    decreases count,
{
    if count == 0 {
        reveal(Seq::filter);
        assert(positions_where(0, pred) =~= Seq::empty());
    } else {
        let less = (count - 1) as nat;
        lemma_positions_where(less, pred);
        lemma_one_more_position(less, pred);
        let before = positions_where(less, pred);
        let now = positions_where(count, pred);
        assert forall|i: int| 0 <= i < count && pred(i) implies #[trigger] now.contains(i) by {
            if i < less {
                assert(before.contains(i));
                let k = choose|k: int| 0 <= k < before.len() && before[k] == i;
                assert(now[k] == i);
            } else {
                assert(now.last() == i);
            }
        }
    }
}

/// Files are mutated in the order of the candidates, each candidate once, and exactly the
/// candidates that are chosen.
pub proof fn law_chosen_files_keep_their_order(
    selection: PathSelection,
    facts: ProjectFacts,
    matched: Option<Seq<bool>>,
)
    ensures
        ({
            let chosen = chosen_positions(selection, facts, matched);
            &&& forall|k: int, m: int|
                0 <= k < m < chosen.len() ==> #[trigger] chosen[k] < #[trigger] chosen[m]
            &&& forall|i: int|
                #[trigger] chosen.contains(i) <==> 0 <= i < candidate_count(selection, facts)
                    && is_chosen(selection, facts, matched, i)
        }),
{
    let pred = |i: int| is_chosen(selection, facts, matched, i);
    let count = candidate_count(selection, facts);
    lemma_positions_where(count, pred);
    let chosen = chosen_positions(selection, facts, matched);
    assert(chosen == positions_where(count, pred));
    assert forall|i: int| #[trigger] chosen.contains(i) implies 0 <= i < count && pred(i) by {
        let k = choose|k: int| 0 <= k < chosen.len() && chosen[k] == i;
        assert(0 <= positions_where(count, pred)[k] < count);
    }
}

/// Without a contract filter all listed paths are mutated, in the order in which they are listed.
pub proof fn law_listed_paths_are_all_mutated(
    mutation_config: MutationRunConfig,
    facts: ProjectFacts,
)
    requires
        facts_fit(mutation_config, facts),
        selection_of(mutation_config) == PathSelection::Requested,
    ensures
        chosen_positions(PathSelection::Requested, facts, None) == Seq::new(
            mutation_config.mutate_paths@.len(),
            |i: int| i,
        ),
{
    lemma_all_positions(
        facts.requested@.len(),
        |i: int| is_chosen(PathSelection::Requested, facts, None, i),
    );
}

/// Where every position passes the test, all are left.
proof fn lemma_all_positions(count: nat, pred: spec_fn(int) -> bool)
    requires
        forall|i: int| 0 <= i < count ==> #[trigger] pred(i),
    ensures
        positions_where(count, pred) == Seq::new(count, |i: int| i),
    decreases count,
{
    if count == 0 {
        reveal(Seq::filter);
        assert(positions_where(0, pred) =~= Seq::empty());
    } else {
        let less = (count - 1) as nat;
        lemma_all_positions(less, pred);
        lemma_one_more_position(less, pred);
        assert(pred(less as int));
    }
    assert(positions_where(count, pred) =~= Seq::new(count, |i: int| i));
}

/// Whatever is mutated is a Solidity file and no test, and a file that was asked for lies in the
/// project.
pub proof fn law_chosen_files_are_sources(
    selection: PathSelection,
    facts: ProjectFacts,
    matched: Option<Seq<bool>>,
    i: int,
)
    requires
        can_resolve(selection, facts),
        chosen_positions(selection, facts, matched).contains(i),
    ensures
        selection == PathSelection::Requested ==> {
            &&& facts.requested@[i].canonical is Some
            &&& facts.requested@[i].canonical->0.is_sol
            &&& !facts.requested@[i].canonical->0.is_sol_test
            &&& facts.root->0@.is_prefix_of(candidate_path(selection, facts, i))
        },
        selection != PathSelection::Requested ==> {
            &&& facts.sources@[i].is_sol
            &&& !facts.sources@[i].is_sol_test
        },
{
    law_chosen_files_keep_their_order(selection, facts, matched);
    if selection == PathSelection::Requested {
        assert(problem_of(facts.requested@[i], facts.root->0@) is None);
    }
}

/// A glob pattern goes before listed paths, and listed paths before the default.
pub proof fn law_selection_follows_the_configuration(mutation_config: MutationRunConfig)
    ensures
        selection_of(mutation_config) == PathSelection::Matching
            <==> mutation_config.mutate_path_pattern is Some,
        selection_of(mutation_config) == PathSelection::Requested
            <==> mutation_config.mutate_path_pattern is None
            && mutation_config.mutate_paths@.len() > 0,
        selection_of(mutation_config) == PathSelection::AllSources
            <==> mutation_config.mutate_path_pattern is None
            && mutation_config.mutate_paths@.len() == 0,
{
}

/// Facts are wanted on each listed path where those are mutated, and on nothing else.
pub proof fn law_facts_are_wanted_on_listed_paths(
    mutation_config: MutationRunConfig,
    facts: ProjectFacts,
)
    ensures
        facts_fit(mutation_config, facts) <==> (mutation_config.mutate_path_pattern is None
            && mutation_config.mutate_paths@.len() > 0 ==> facts.requested@.len()
            == mutation_config.mutate_paths@.len()),
{
}

/// A listed path is refused for what is wrong with it and for nothing else: a path that exists,
/// is a file, leads to a place below the root, is a Solidity file and no test is accepted, and of
/// several things that are wrong the first is told.
pub proof fn law_paths_are_refused_for_a_reason(requested: RequestedPath, root: Seq<Seq<u8>>)
    ensures
        problem_of(requested, root) == Some(PathProblem::Missing) <==> !requested.exists,
        problem_of(requested, root) == Some(PathProblem::NotAFile) <==> requested.exists
            && !requested.is_file,
        problem_of(requested, root) == Some(PathProblem::NotCanonical) <==> requested.exists
            && requested.is_file && requested.canonical is None,
        problem_of(requested, root) == Some(PathProblem::OutsideRoot) <==> requested.exists
            && requested.is_file && requested.canonical is Some && !root.is_prefix_of(
            requested.canonical->0.path@,
        ),
        problem_of(requested, root) == Some(PathProblem::NotSolidity) <==> requested.exists
            && requested.is_file && requested.canonical is Some && root.is_prefix_of(
            requested.canonical->0.path@,
        ) && !requested.canonical->0.is_sol,
        problem_of(requested, root) == Some(PathProblem::TestFile) <==> requested.exists
            && requested.is_file && requested.canonical is Some && root.is_prefix_of(
            requested.canonical->0.path@,
        ) && requested.canonical->0.is_sol && requested.canonical->0.is_sol_test,
        problem_of(requested, root) is None <==> requested.exists && requested.is_file
            && requested.canonical is Some && root.is_prefix_of(requested.canonical->0.path@)
            && requested.canonical->0.is_sol && !requested.canonical->0.is_sol_test,
{
}

/// Files are chosen unless paths are listed and the root leads nowhere or one of the paths is
/// refused. Then the first that is refused is told, with what is wrong with it.
pub proof fn law_files_are_chosen_unless_a_path_is_refused(
    selection: PathSelection,
    facts: ProjectFacts,
    position: int,
    problem: PathProblem,
)
    ensures
        selection != PathSelection::Requested ==> can_resolve(selection, facts),
        selection == PathSelection::Requested ==> (can_resolve(selection, facts) <==> facts.root
            is Some && forall|i: int|
            0 <= i < facts.requested@.len() ==> {
                let requested = #[trigger] facts.requested@[i];
                &&& requested.exists
                &&& requested.is_file
                &&& requested.canonical is Some
                &&& facts.root->0@.is_prefix_of(requested.canonical->0.path@)
                &&& requested.canonical->0.is_sol
                &&& !requested.canonical->0.is_sol_test
            }),
        is_first_problem(facts, position, problem) <==> facts.root is Some && 0 <= position
            < facts.requested@.len() && problem_of(facts.requested@[position], facts.root->0@)
            == Some(problem) && forall|i: int|
            0 <= i < position ==> problem_of(
                #[trigger] facts.requested@[i],
                facts.root->0@,
            ) is None,
{
    if selection == PathSelection::Requested && facts.root is Some {
        let root = facts.root->0@;
        assert forall|i: int| 0 <= i < facts.requested@.len() implies (problem_of(
            #[trigger] facts.requested@[i],
            root,
        ) is None <==> {
            let requested = facts.requested@[i];
            &&& requested.exists
            &&& requested.is_file
            &&& requested.canonical is Some
            &&& root.is_prefix_of(requested.canonical->0.path@)
            &&& requested.canonical->0.is_sol
            &&& !requested.canonical->0.is_sol_test
        }) by {
            law_paths_are_refused_for_a_reason(facts.requested@[i], root);
        }
    }
}

/// What the user reads of each error.
pub proof fn law_errors_read(requested: Seq<RequestedPath>, position: usize)
    ensures
        error_text(ResolveError::Root, requested) == "failed to canonicalize project root"@,
        error_text(ResolveError::Path { position, problem: PathProblem::Missing }, requested)
            == "mutate path does not exist: "@ + requested[position as int].display@,
        error_text(ResolveError::Path { position, problem: PathProblem::NotAFile }, requested)
            == "mutate path is not a file: "@ + requested[position as int].display@,
        error_text(ResolveError::Path { position, problem: PathProblem::NotCanonical }, requested)
            == "failed to canonicalize: "@ + requested[position as int].display@,
        error_text(ResolveError::Path { position, problem: PathProblem::OutsideRoot }, requested)
            == "mutate path is outside the project root: "@ + requested[position as int].display@,
        error_text(ResolveError::Path { position, problem: PathProblem::NotSolidity }, requested)
            == "mutate path is not a Solidity file: "@ + requested[position as int].display@,
        error_text(ResolveError::Path { position, problem: PathProblem::TestFile }, requested)
            == "mutate path is a test file, not a source file: "@
            + requested[position as int].display@,
{
}

/// Which files are mutated: of the source files those that are Solidity files and no tests, and
/// match the glob pattern where there is one; of listed paths all. Where contracts are filtered, a
/// file is mutated only if some contract compiled from it, whichever, has a name that the
/// expression matches.
pub proof fn law_the_right_files_are_chosen(
    mutation_config: MutationRunConfig,
    facts: ProjectFacts,
    i: int,
)
    ensures
        ({
            let chosen = chosen_positions(
                selection_of(mutation_config),
                facts,
                contract_matches(facts.artifacts@, mutation_config.mutate_contract_pattern),
            );
            let listed = mutation_config.mutate_path_pattern is None
                && mutation_config.mutate_paths@.len() > 0;
            let path = if listed {
                facts.requested@[i].canonical->0.path@
            } else {
                facts.sources@[i].path@
            };
            let matched = mutation_config.mutate_contract_pattern matches Some(filter)
                ==> exists|k: int|
                0 <= k < facts.artifacts@.len() && (#[trigger] facts.artifacts@[k]).source@ == path
                    && regex_matches(filter, facts.artifacts@[k].name@);
            &&& listed ==> (chosen.contains(i) <==> 0 <= i < facts.requested@.len() && matched)
            &&& !listed ==> (chosen.contains(i) <==> 0 <= i < facts.sources@.len()
                && facts.sources@[i].is_sol && !facts.sources@[i].is_sol_test && (
            mutation_config.mutate_path_pattern is Some ==> facts.sources@[i].matches_pattern)
                && matched)
            &&& forall|k: int, m: int|
                0 <= k < m < chosen.len() ==> #[trigger] chosen[k] < #[trigger] chosen[m]
        }),
{
    let selection = selection_of(mutation_config);
    let flags = contract_matches(facts.artifacts@, mutation_config.mutate_contract_pattern);
    law_chosen_files_keep_their_order(selection, facts, flags);
    if let Some(filter) = mutation_config.mutate_contract_pattern {
        let path = candidate_path(selection, facts, i);
        let named = exists|k: int|
            0 <= k < facts.artifacts@.len() && (#[trigger] facts.artifacts@[k]).source@ == path
                && regex_matches(filter, facts.artifacts@[k].name@);
        if named {
            let k = choose|k: int|
                0 <= k < facts.artifacts@.len() && (#[trigger] facts.artifacts@[k]).source@ == path
                    && regex_matches(filter, facts.artifacts@[k].name@);
            assert(facts.artifacts@[k].source@ == path && flags->0[k]);
        }
        if has_matched_contract(facts.artifacts@, flags->0, path) {
            let k = choose|k: int|
                0 <= k < facts.artifacts@.len() && (#[trigger] facts.artifacts@[k]).source@ == path
                    && flags->0[k];
            assert(regex_matches(filter, facts.artifacts@[k].name@));
        }
    }
}

/// Where it is given which contracts pass, a candidate of the base set is chosen if and only if
/// some contract compiled from it, whichever, passes; where nothing is given, in any case.
pub proof fn law_any_passing_contract_will_do(
    selection: PathSelection,
    facts: ProjectFacts,
    flags: &Vec<bool>,
    i: int,
)
    ensures
        optional_flags(None) is None,
        optional_flags(Some(flags)) == Some(flags@),
        ({
            let path = if selection == PathSelection::Requested {
                facts.requested@[i].canonical->0.path@
            } else {
                facts.sources@[i].path@
            };
            let count = if selection == PathSelection::Requested {
                facts.requested@.len()
            } else {
                facts.sources@.len()
            };
            let based = 0 <= i < count && (selection != PathSelection::Requested
                ==> facts.sources@[i].is_sol && !facts.sources@[i].is_sol_test) && (selection
                == PathSelection::Matching ==> facts.sources@[i].matches_pattern);
            &&& chosen_positions(selection, facts, None).contains(i) <==> based
            &&& chosen_positions(selection, facts, Some(flags@)).contains(i) <==> based
                && exists|k: int|
                0 <= k < facts.artifacts@.len() && (#[trigger] facts.artifacts@[k]).source@ == path
                    && flags@[k]
        }),
{
    law_chosen_files_keep_their_order(selection, facts, None);
    law_chosen_files_keep_their_order(selection, facts, Some(flags@));
}

/// The build of a file is that of the first contract compiled from it; a file that no contract
/// was compiled from has none.
pub proof fn law_builds_are_those_of_the_first_contract(
    artifacts: Seq<ArtifactId>,
    path: Seq<Seq<u8>>,
    first: int,
)
    ensures
        0 <= first < artifacts.len() && artifacts[first].source@ == path && (forall|m: int|
            0 <= m < first ==> (#[trigger] artifacts[m]).source@ != path) ==> build_id_of(
            artifacts,
            path,
        ) == artifacts[first].build_id@,
        (forall|m: int| 0 <= m < artifacts.len() ==> (#[trigger] artifacts[m]).source@ != path)
            ==> build_id_of(artifacts, path).len() == 0,
    decreases artifacts.len(),
{
    if artifacts.len() > 0 && artifacts[0].source@ != path {
        let rest = artifacts.drop_first();
        law_builds_are_those_of_the_first_contract(rest, path, first - 1);
        assert forall|m: int| 0 <= m < rest.len() implies #[trigger] rest[m] == artifacts[m
            + 1] by {}
    }
}

} // verus!
