//! The files of a run: those that are chosen, each with the build that its cache entries belong
//! to.

use crate::config::MutationRunConfig;
use crate::order::positions;
use crate::path::FilePath;
use crate::resolve::{
    build_id_of, can_resolve, candidate_count, candidate_path, chosen_positions, contract_matches,
    facts_fit, find_build_id, is_first_problem, law_builds_are_those_of_the_first_contract,
    law_chosen_files_keep_their_order, problem_of, resolve_mutate_paths, selection_of,
    CanonicalFile, PathProblem, PathSelection, ProjectFacts, ResolveError, SourceFile,
};
use crate::run::TargetFile;
use vstd::prelude::*;

verus! {

/// A candidate as it is shown to the user.
pub open spec fn candidate_display(selection: PathSelection, facts: ProjectFacts, i: int) -> Seq<
    char,
> {
    if selection == PathSelection::Requested {
        facts.requested@[i].canonical->0.display@
    } else {
        facts.sources@[i].display@
    }
}

/// Whether a file of a run is the candidate at `i`, with the build of the first contract that was
/// compiled from it.
pub open spec fn is_target(
    file: TargetFile,
    selection: PathSelection,
    facts: ProjectFacts,
    i: int,
) -> bool {
    &&& file.candidate == i
    &&& file.display@ == candidate_display(selection, facts, i)
    &&& file.build_id@ == build_id_of(facts.artifacts@, candidate_path(selection, facts, i))
}

/// Whether these are the files of a run: the chosen candidates, in order.
pub open spec fn is_plan(
    files: Seq<TargetFile>,
    mutation_config: MutationRunConfig,
    facts: ProjectFacts,
) -> bool {
    let selection = selection_of(mutation_config);
    let chosen = chosen_positions(
        selection,
        facts,
        contract_matches(facts.artifacts@, mutation_config.mutate_contract_pattern),
    );
    &&& files.len() == chosen.len()
    &&& forall|k: int|
        0 <= k < files.len() ==> is_target(#[trigger] files[k], selection, facts, chosen[k])
}

/// The candidate at `i` as a file of a run.
fn target(selection: PathSelection, facts: &ProjectFacts, i: usize) -> (file: TargetFile)
    requires
        i < candidate_count(selection, *facts),
        can_resolve(selection, *facts),
    ensures
        is_target(file, selection, *facts, i as int),
{
    if selection == PathSelection::Requested {
        assert(problem_of(facts.requested@[i as int], facts.root->0@) is None);
        let file: &CanonicalFile = facts.requested[i].canonical.as_ref().unwrap();
        TargetFile {
            candidate: i,
            display: file.display.clone(),
            build_id: find_build_id(&facts.artifacts, &file.path),
        }
    } else {
        let file: &SourceFile = &facts.sources[i];
        TargetFile {
            candidate: i,
            display: file.display.clone(),
            build_id: find_build_id(&facts.artifacts, &file.path),
        }
    }
}

/// Chooses the files of a run and finds their builds.
pub fn plan_files(mutation_config: &MutationRunConfig, facts: &ProjectFacts) -> (planned: Result<
    Vec<TargetFile>,
    ResolveError,
>)
    requires
        facts_fit(*mutation_config, *facts),
    ensures
        planned is Ok <==> can_resolve(selection_of(*mutation_config), *facts),
        planned == Err::<Vec<TargetFile>, ResolveError>(ResolveError::Root) <==> selection_of(
            *mutation_config,
        ) == PathSelection::Requested && facts.root is None,
        forall|position: usize, problem: PathProblem|
            planned == Err::<Vec<TargetFile>, ResolveError>(
                ResolveError::Path { position, problem },
            ) <==> selection_of(*mutation_config) == PathSelection::Requested
                && #[trigger] is_first_problem(*facts, position as int, problem),
        planned matches Err(ResolveError::Path { position, problem }) ==> is_first_problem(
            *facts,
            position as int,
            problem,
        ),
        planned matches Ok(files) ==> is_plan(files@, *mutation_config, *facts),
{
    let selection: PathSelection = mutation_config.path_selection();
    let chosen: Vec<usize> = match resolve_mutate_paths(mutation_config, facts) {
        Ok(chosen) => chosen,
        Err(error) => return Err(error),
    };
    let ghost matched = contract_matches(
        facts.artifacts@,
        mutation_config.mutate_contract_pattern,
    );
    let ghost wanted = chosen_positions(selection, *facts, matched);
    proof {
        law_chosen_files_keep_their_order(selection, *facts, matched);
    }
    let mut files: Vec<TargetFile> = Vec::new();
    let mut k: usize = 0;
    while k < chosen.len()
        invariant
            k <= chosen.len(),
            k == files.len(),
            positions(chosen@) == wanted,
            can_resolve(selection, *facts),
            forall|i: int|
                #[trigger] wanted.contains(i) ==> 0 <= i < candidate_count(selection, *facts),
            forall|m: int|
                0 <= m < k ==> is_target(#[trigger] files@[m], selection, *facts, wanted[m]),
        decreases chosen.len() - k,
    {
        assert(wanted[k as int] == chosen@[k as int]);
        assert(wanted.contains(wanted[k as int]));
        files.push(target(selection, facts, chosen[k]));
        k = k + 1;
    }
    assert(wanted.len() == chosen@.len());
    Ok(files)
}

/// The files of a run are the chosen candidates, all of them and in order, each shown by its path
/// and with the build of the first contract compiled from it.
pub proof fn law_planned_files_are_the_chosen_ones(
    files: Seq<TargetFile>,
    mutation_config: MutationRunConfig,
    facts: ProjectFacts,
    k: int,
    first: int,
)
    requires
        is_plan(files, mutation_config, facts),
    ensures
        files.len() == chosen_positions(
            selection_of(mutation_config),
            facts,
            contract_matches(facts.artifacts@, mutation_config.mutate_contract_pattern),
        ).len(),
        0 <= k < files.len() ==> ({
            let i = files[k].candidate as int;
            let listed = mutation_config.mutate_path_pattern is None
                && mutation_config.mutate_paths@.len() > 0;
            let path = if listed {
                facts.requested@[i].canonical->0.path@
            } else {
                facts.sources@[i].path@
            };
            &&& i == chosen_positions(
                selection_of(mutation_config),
                facts,
                contract_matches(facts.artifacts@, mutation_config.mutate_contract_pattern),
            )[k]
            &&& listed ==> files[k].display@ == facts.requested@[i].canonical->0.display@
            &&& !listed ==> files[k].display@ == facts.sources@[i].display@
            &&& 0 <= first < facts.artifacts@.len() && facts.artifacts@[first].source@ == path && (
            forall|m: int|
                0 <= m < first ==> (#[trigger] facts.artifacts@[m]).source@ != path)
                ==> files[k].build_id@ == facts.artifacts@[first].build_id@
            &&& (forall|m: int|
                0 <= m < facts.artifacts@.len() ==> (#[trigger] facts.artifacts@[m]).source@
                    != path) ==> files[k].build_id@.len() == 0
        }),
{
    if 0 <= k < files.len() {
        let i = files[k].candidate as int;
        law_builds_are_those_of_the_first_contract(
            facts.artifacts@,
            candidate_path(selection_of(mutation_config), facts, i),
            first,
        );
    }
}

} // verus!
