use mutation_orchestrator::config::{FilterArgs, MutationRunConfig};
use mutation_orchestrator::digest::runtime_context_digest;
use mutation_orchestrator::mutant::{
    sort_mutants, sort_outcomes, spans_of_survivors, Mutant, MutantOutcome, MutationResult,
    MutationsSummary, Span,
};
use mutation_orchestrator::notice::{decimal_text, Notice};
use mutation_orchestrator::order::{order_of, sort_by_keys};
use mutation_orchestrator::run::{
    drop_skipped, CachedMutant, Elapsed, Event, MutationRun, MutationRunResult, Stage, TargetFile,
};
use regex::Regex;

fn settings(num_workers: usize, show_progress: bool, json_output: bool) -> MutationRunConfig {
    MutationRunConfig {
        mutate_paths: Vec::new(),
        mutate_path_pattern: None,
        mutate_contract_pattern: None,
        num_workers,
        show_progress,
        json_output,
        filter_args: FilterArgs {
            test_pattern: None,
            test_pattern_inverse: None,
            contract_pattern: None,
            contract_pattern_inverse: None,
            path_pattern: None,
            path_pattern_inverse: None,
        },
        isolate: false,
    }
}

fn mutant(lo: u32, hi: u32, id: usize) -> Mutant {
    Mutant { span: Span { lo, hi }, id }
}

fn outcome(mutant: Mutant, result: MutationResult) -> MutantOutcome {
    MutantOutcome { mutant, result }
}

fn file(display: &str, build_id: &str) -> TargetFile {
    TargetFile { candidate: 0, display: display.to_string(), build_id: build_id.to_string() }
}

fn start(
    config: MutationRunConfig,
    available: Option<usize>,
    files: Vec<TargetFile>,
) -> (MutationRun, Vec<Notice>) {
    MutationRun::start(config, None, false, available, files)
}

fn lines(run: &MutationRun, notices: &Vec<Notice>) -> Vec<String> {
    notices.iter().map(|notice| run.line_for(*notice)).collect()
}

/// The result of a run that is over.
fn finished(run: MutationRun, duration: Elapsed) -> MutationRunResult {
    match run.finish(duration) {
        Some(result) => result,
        None => panic!("the run is not over"),
    }
}

/// Brings a run from the start of a file to where its mutants are generated.
fn to_generate(run: MutationRun) -> MutationRun {
    let (run, _) = run.advance(Event::Opened);
    let (run, _) = run.advance(Event::Results(None));
    let (run, _) = run.advance(Event::SurvivedSpansLoaded);
    let (run, _) = run.advance(Event::Mutants(None));
    assert!(matches!(run.stage(), Stage::Generate));
    run
}

#[test]
fn requested_workers_are_taken() {
    assert_eq!(settings(3, false, false).effective_workers(Some(16)), 3);
    assert_eq!(settings(3, false, false).effective_workers(None), 3);
}

#[test]
fn workers_are_detected_where_none_are_requested() {
    assert_eq!(settings(0, false, false).effective_workers(Some(16)), 16);
    assert_eq!(settings(0, false, false).effective_workers(None), 1);
}

#[test]
fn mutants_are_sorted_outside_in() {
    let sorted = sort_mutants(&vec![
        mutant(10, 12, 0),
        mutant(4, 6, 1),
        mutant(4, 9, 2),
        mutant(10, 30, 3),
        mutant(4, 6, 4),
        mutant(0, 1, 5),
    ]);
    let ids: Vec<usize> = sorted.iter().map(|mutant| mutant.id).collect();
    assert_eq!(ids, vec![5, 2, 1, 4, 3, 0]);
}

#[test]
fn sorting_mutants_agrees_with_a_stable_sort() {
    let mut state: u32 = 12345;
    let mut mutants: Vec<Mutant> = Vec::new();
    for id in 0..500 {
        state = state.wrapping_mul(1664525).wrapping_add(1013904223);
        let lo = (state >> 16) % 20;
        let hi = lo + (state >> 24) % 7;
        mutants.push(mutant(lo, hi, id));
    }
    let sorted = sort_mutants(&mutants);
    mutants.sort_by(|a, b| a.span.lo.cmp(&b.span.lo).then_with(|| b.span.hi.cmp(&a.span.hi)));
    assert_eq!(sorted, mutants);
}

#[test]
fn sorting_nothing_gives_nothing() {
    assert_eq!(sort_mutants(&Vec::new()), Vec::new());
    assert_eq!(sort_outcomes(&Vec::new()), Vec::new());
    assert_eq!(sort_mutants(&vec![mutant(0, u32::MAX, 7)]), vec![mutant(0, u32::MAX, 7)]);
}

#[test]
fn positions_are_sorted_by_their_keys() {
    let keys = vec![
        (2, 5, 1, 1),
        (1, 9, 0, 0),
        (2, 5, 1, 1),
        (1, 3, 0, 0),
        (0, u32::MAX, usize::MAX, 0),
        (2, 5, 1, 0),
        (2, 5, 0, 9),
    ];
    assert_eq!(order_of(&keys), vec![4, 3, 1, 6, 5, 0, 2]);
    let items = vec!['a', 'b', 'c', 'd', 'e', 'f', 'g'];
    assert_eq!(sort_by_keys(&items, &keys), vec!['e', 'd', 'b', 'g', 'f', 'a', 'c']);
}

#[test]
fn summaries_merge_from_either_end() {
    let parts = [
        vec![outcome(mutant(0, 1, 0), MutationResult::Dead)],
        vec![
            outcome(mutant(1, 2, 1), MutationResult::Alive),
            outcome(mutant(2, 3, 2), MutationResult::Dead),
        ],
        vec![outcome(mutant(3, 4, 3), MutationResult::Dead)],
    ];
    let mut left = MutationsSummary::of_outcomes(&parts[0]);
    left.merge(MutationsSummary::of_outcomes(&parts[1]));
    left.merge(MutationsSummary::of_outcomes(&parts[2]));
    left.merge(MutationsSummary::new());
    let mut tail = MutationsSummary::of_outcomes(&parts[1]);
    tail.merge(MutationsSummary::of_outcomes(&parts[2]));
    let mut right = MutationsSummary::new();
    right.merge(MutationsSummary::of_outcomes(&parts[0]));
    right.merge(tail);
    assert_eq!(left.dead, vec![mutant(0, 1, 0), mutant(2, 3, 2), mutant(3, 4, 3)]);
    assert_eq!(left.dead, right.dead);
    assert_eq!(left.survived, vec![mutant(1, 2, 1)]);
    assert_eq!(left.survived, right.survived);
}

#[test]
fn outcomes_are_sorted_by_span() {
    let a = outcome(mutant(4, 9, 0), MutationResult::Dead);
    let b = outcome(mutant(4, 6, 1), MutationResult::Alive);
    let c = outcome(mutant(2, 3, 2), MutationResult::Invalid);
    assert_eq!(sort_outcomes(&vec![a, b, c]), vec![c, b, a]);
    assert_eq!(sort_outcomes(&vec![b, c, a]), vec![c, b, a]);
    assert_eq!(sort_outcomes(&vec![c, a, b]), vec![c, b, a]);
}

#[test]
fn outcomes_of_one_span_forget_their_order() {
    let a = outcome(mutant(4, 9, 0), MutationResult::Alive);
    let b = outcome(mutant(4, 9, 1), MutationResult::Dead);
    let c = outcome(mutant(4, 9, 1), MutationResult::TimedOut);
    assert_eq!(sort_outcomes(&vec![a, b, c]), vec![a, b, c]);
    assert_eq!(sort_outcomes(&vec![c, b, a]), vec![a, b, c]);
    assert_eq!(sort_outcomes(&vec![b, a, c]), vec![a, b, c]);
    assert_eq!(sort_outcomes(&vec![b, c, b, a]), vec![a, b, b, c]);
}

#[test]
fn every_result_has_its_place() {
    let results = [
        MutationResult::Dead,
        MutationResult::Alive,
        MutationResult::Invalid,
        MutationResult::Skipped,
        MutationResult::TimedOut,
    ];
    let sorted: Vec<MutantOutcome> =
        results.iter().map(|result| outcome(mutant(1, 2, 3), *result)).collect();
    let reversed: Vec<MutantOutcome> = sorted.iter().rev().copied().collect();
    assert_eq!(sort_outcomes(&reversed), sorted);
}

#[test]
fn kept_results_forget_completion_order() {
    let dead = outcome(mutant(1, 2, 0), MutationResult::Dead);
    let alive = outcome(mutant(1, 2, 1), MutationResult::Alive);
    let mut kept: Vec<Vec<MutantOutcome>> = Vec::new();
    for outcomes in [vec![dead, alive], vec![alive, dead]] {
        let (run, _) = start(settings(2, false, false), None, vec![file("src/A.sol", "b")]);
        let (run, _) =
            to_generate(run).advance(Event::Generated(vec![mutant(1, 2, 0), mutant(1, 2, 1)]));
        let (run, _) = run.advance(Event::Executed { outcomes, interrupted: false });
        match run.stage() {
            Stage::Persist { results: Some(results), .. } => kept.push(results.clone()),
            _ => panic!("the outcomes are complete"),
        }
    }
    assert_eq!(kept[0], vec![dead, alive]);
    assert_eq!(kept[1], kept[0]);
}

#[test]
fn every_file_is_opened_and_run_alike() {
    let mut config = settings(0, false, false);
    config.isolate = true;
    config.mutate_contract_pattern = Some(Regex::new("^Token").unwrap());
    config.filter_args.test_pattern = Some(Regex::new("test_.*").unwrap());
    let blob: Vec<u8> = vec![1, 2, 3];
    let digest = runtime_context_digest(&config, Some(&blob), true);
    let files = vec![file("src/A.sol", "a"), file("src/B.sol", "b")];
    let (mut run, _) = MutationRun::start(config, Some(&blob), true, Some(6), files);
    for position in 0..2 {
        assert!(run.execution().is_none());
        match run.opening() {
            Some(opening) => {
                assert_eq!(opening.file, position);
                assert_eq!(opening.digest, digest);
                assert_eq!(opening.contract_filter.map(|filter| filter.as_str()), Some("^Token"));
            }
            None => panic!("the file is to be opened"),
        }
        run = to_generate(run);
        assert!(run.opening().is_none());
        run = run.advance(Event::Generated(vec![mutant(1, 2, position)])).0;
        match run.execution() {
            Some(execution) => {
                assert_eq!(execution.file, position);
                assert_eq!(execution.mutants, &vec![mutant(1, 2, position)]);
                assert_eq!(execution.num_workers, 6);
                assert!(!execution.json_output);
                assert!(execution.isolate);
                let pattern = execution.filter_args.test_pattern.as_ref();
                assert_eq!(pattern.map(|pattern| pattern.as_str()), Some("test_.*"));
            }
            None => panic!("the mutants are to be run"),
        }
        assert_eq!(run.current_file().map(|file| file.build_id.as_str()), Some(["a", "b"][position]));
        let outcomes = vec![outcome(mutant(1, 2, position), MutationResult::Dead)];
        run = run.advance(Event::Executed { outcomes, interrupted: false }).0;
        assert!(run.execution().is_none());
        run = run.advance(Event::Persisted).0;
    }
    assert!(run.opening().is_none());
    assert!(run.current_file().is_none());
}

#[test]
fn every_outcome_is_put_under_its_result() {
    let outcomes = vec![
        outcome(mutant(0, 1, 0), MutationResult::Dead),
        outcome(mutant(1, 2, 1), MutationResult::Alive),
        outcome(mutant(2, 3, 2), MutationResult::Invalid),
        outcome(mutant(3, 4, 3), MutationResult::Skipped),
        outcome(mutant(4, 5, 4), MutationResult::TimedOut),
        outcome(mutant(5, 6, 5), MutationResult::Alive),
    ];
    let mut summary = MutationsSummary::new();
    summary.record(outcome(mutant(9, 9, 9), MutationResult::Dead));
    summary.merge(MutationsSummary::of_outcomes(&outcomes));
    assert_eq!(summary.dead, vec![mutant(9, 9, 9), mutant(0, 1, 0)]);
    assert_eq!(summary.survived, vec![mutant(1, 2, 1), mutant(5, 6, 5)]);
    assert_eq!(summary.invalid, vec![mutant(2, 3, 2)]);
    assert_eq!(summary.skipped, vec![mutant(3, 4, 3)]);
    assert_eq!(summary.timed_out, vec![mutant(4, 5, 4)]);
    assert_eq!(spans_of_survivors(&outcomes), vec![Span { lo: 1, hi: 2 }, Span { lo: 5, hi: 6 }]);
}

#[test]
fn skipped_mutants_are_dropped() {
    let cached = vec![
        CachedMutant { mutant: mutant(3, 4, 0), skip: false },
        CachedMutant { mutant: mutant(1, 2, 1), skip: true },
        CachedMutant { mutant: mutant(0, 9, 2), skip: false },
    ];
    assert_eq!(drop_skipped(&cached), vec![mutant(3, 4, 0), mutant(0, 9, 2)]);
}

#[test]
fn numbers_are_decimal() {
    for value in [0usize, 7, 9, 10, 42, 99, 100, 1_000_000, usize::MAX] {
        assert_eq!(decimal_text(value), format!("{}", value));
    }
}

#[test]
fn a_run_over_nothing_is_over() {
    let (run, notices) = start(settings(0, false, false), Some(4), Vec::new());
    assert_eq!(lines(&run, &notices), vec!["Running mutation tests with 4 parallel workers..."]);
    assert!(matches!(run.stage(), Stage::Done));
    assert!(run.shows_report());
    let duration = Elapsed { secs: 2, nanos: 5 };
    let result = finished(run, duration);
    assert!(!result.cancelled);
    assert_eq!(result.duration, duration);
    assert!(result.summary.dead.is_empty());
}

#[test]
fn a_run_goes_through_its_files() {
    let files = vec![file("src/A.sol", "build"), file("src/B.sol", "build"), file("src/C.sol", "")];
    let (run, notices) = start(settings(2, false, false), None, files);
    assert_eq!(
        lines(&run, &notices),
        vec![
            "Running mutation tests with 2 parallel workers...",
            "Running mutation tests for src/A.sol"
        ]
    );
    assert_eq!(run.settings().num_workers, 2);
    assert_eq!(run.files().len(), 3);

    // The first file has been tested before.
    let (run, notices) = run.advance(Event::Opened);
    assert!(notices.is_empty());
    assert!(matches!(run.stage(), Stage::LoadResults));
    let prior = vec![
        outcome(mutant(0, 1, 0), MutationResult::Dead),
        outcome(mutant(2, 3, 1), MutationResult::TimedOut),
    ];
    let (run, notices) = run.advance(Event::Results(Some(prior)));
    assert_eq!(
        lines(&run, &notices),
        vec!["  Using cached results for 2 mutants", "Running mutation tests for src/B.sol"]
    );
    assert_eq!(run.current(), 1);

    // The second is run.
    let run = to_generate(run);
    let mutants = vec![mutant(5, 6, 10), mutant(5, 8, 11)];
    let (run, notices) = run.advance(Event::Generated(mutants));
    assert_eq!(lines(&run, &notices), vec!["  Generated 2 mutants, testing in parallel..."]);
    assert!(!run.displays_progress());
    match run.stage() {
        Stage::Execute { mutants } => {
            assert_eq!(mutants, &vec![mutant(5, 8, 11), mutant(5, 6, 10)])
        }
        _ => panic!("the mutants are to be run"),
    }
    let outcomes = vec![
        outcome(mutant(5, 8, 11), MutationResult::Alive),
        outcome(mutant(5, 6, 10), MutationResult::Dead),
    ];
    let (run, notices) = run.advance(Event::Executed { outcomes, interrupted: false });
    assert!(notices.is_empty());
    match run.stage() {
        Stage::Persist { mutants, results, survived } => {
            assert_eq!(mutants, &vec![mutant(5, 8, 11), mutant(5, 6, 10)]);
            assert_eq!(
                results,
                &Some(vec![
                    outcome(mutant(5, 6, 10), MutationResult::Dead),
                    outcome(mutant(5, 8, 11), MutationResult::Alive),
                ])
            );
            assert_eq!(survived, &vec![Span { lo: 5, hi: 8 }]);
        }
        _ => panic!("the file is to be kept"),
    }
    let (run, notices) = run.advance(Event::Persisted);
    assert_eq!(lines(&run, &notices), vec!["Running mutation tests for src/C.sol"]);

    // The third has no build, so nothing is kept of it.
    let run = to_generate(run);
    let (run, _) = run.advance(Event::Generated(vec![mutant(1, 2, 20)]));
    let outcomes = vec![outcome(mutant(1, 2, 20), MutationResult::Invalid)];
    let (run, notices) = run.advance(Event::Executed { outcomes, interrupted: false });
    assert!(notices.is_empty());
    assert!(matches!(run.stage(), Stage::Done));
    assert_eq!(run.current(), 3);

    let result = finished(run, Elapsed { secs: 0, nanos: 0 });
    assert!(!result.cancelled);
    assert_eq!(result.summary.dead, vec![mutant(0, 1, 0), mutant(5, 6, 10)]);
    assert_eq!(result.summary.survived, vec![mutant(5, 8, 11)]);
    assert_eq!(result.summary.invalid, vec![mutant(1, 2, 20)]);
    assert!(result.summary.skipped.is_empty());
    assert_eq!(result.summary.timed_out, vec![mutant(2, 3, 1)]);
}

#[test]
fn a_file_without_mutants_is_left() {
    let files = vec![file("src/A.sol", "b"), file("src/B.sol", "b")];
    let (run, _) = start(settings(1, false, false), None, files);
    let (run, notices) = to_generate(run).advance(Event::Generated(Vec::new()));
    assert_eq!(
        lines(&run, &notices),
        vec!["  No mutants generated for src/A.sol", "Running mutation tests for src/B.sol"]
    );
    assert!(matches!(run.stage(), Stage::Open));
    let (run, notices) = to_generate(run).advance(Event::Generated(Vec::new()));
    assert_eq!(lines(&run, &notices), vec!["  No mutants generated for src/B.sol"]);
    assert!(matches!(run.stage(), Stage::Done));
}

#[test]
fn a_resumed_file_runs_what_is_not_skipped() {
    let files = vec![file("src/A.sol", "b")];
    let (run, _) = start(settings(1, false, false), None, files);
    let (run, _) = run.advance(Event::Opened);
    let (run, _) = run.advance(Event::Results(None));
    assert!(matches!(run.stage(), Stage::LoadSurvivedSpans));
    let (run, _) = run.advance(Event::SurvivedSpansLoaded);
    assert!(matches!(run.stage(), Stage::LoadMutants));
    let cached = vec![
        CachedMutant { mutant: mutant(8, 9, 0), skip: false },
        CachedMutant { mutant: mutant(4, 5, 1), skip: true },
        CachedMutant { mutant: mutant(2, 3, 2), skip: false },
    ];
    let (run, notices) = run.advance(Event::Mutants(Some(cached)));
    assert_eq!(lines(&run, &notices), vec!["  Generated 2 mutants, testing in parallel..."]);
    match run.stage() {
        Stage::Execute { mutants } => {
            assert_eq!(mutants, &vec![mutant(2, 3, 2), mutant(8, 9, 0)])
        }
        _ => panic!("the mutants are to be run"),
    }
}

#[test]
fn a_resumed_file_with_nothing_left_is_left() {
    let files = vec![file("src/A.sol", "b")];
    let (run, _) = start(settings(1, false, false), None, files);
    let (run, _) = run.advance(Event::Opened);
    let (run, _) = run.advance(Event::Results(None));
    let (run, _) = run.advance(Event::SurvivedSpansLoaded);
    let cached = vec![CachedMutant { mutant: mutant(4, 5, 1), skip: true }];
    let (run, notices) = run.advance(Event::Mutants(Some(cached)));
    assert_eq!(lines(&run, &notices), vec!["  No mutants generated for src/A.sol"]);
    assert!(matches!(run.stage(), Stage::Done));
}

#[test]
fn a_cancelled_run_keeps_no_outcomes_and_stops() {
    let files = vec![file("src/A.sol", "b"), file("src/B.sol", "b")];
    let (run, notices) = start(settings(1, true, false), None, files);
    assert!(notices.is_empty());
    assert!(run.displays_progress());
    let (run, notices) = to_generate(run).advance(Event::Generated(vec![mutant(1, 2, 0)]));
    assert!(notices.is_empty());
    let outcomes = vec![outcome(mutant(1, 2, 0), MutationResult::Alive)];
    let (run, _) = run.advance(Event::Executed { outcomes, interrupted: true });
    match run.stage() {
        Stage::Persist { mutants, results, survived } => {
            assert_eq!(mutants, &vec![mutant(1, 2, 0)]);
            assert!(results.is_none());
            assert_eq!(survived, &vec![Span { lo: 1, hi: 2 }]);
        }
        _ => panic!("the file is to be kept"),
    }
    let (run, notices) = run.advance(Event::Persisted);
    assert!(notices.is_empty());
    assert!(matches!(run.stage(), Stage::Done));
    assert_eq!(run.current(), 0);
    let (run, _) = run.advance(Event::Opened);
    assert!(matches!(run.stage(), Stage::Done));
    let result = finished(run, Elapsed { secs: 1, nanos: 0 });
    assert!(result.cancelled);
    assert_eq!(result.summary.survived, vec![mutant(1, 2, 0)]);
}

#[test]
fn a_cancelled_file_without_a_build_ends_the_run() {
    let files = vec![file("src/A.sol", ""), file("src/B.sol", "b")];
    let (run, _) = start(settings(1, true, false), None, files);
    let (run, _) = to_generate(run).advance(Event::Generated(vec![mutant(1, 2, 0)]));
    let (run, _) = run.advance(Event::Executed { outcomes: Vec::new(), interrupted: true });
    assert!(matches!(run.stage(), Stage::Done));
    assert!(finished(run, Elapsed { secs: 1, nanos: 0 }).cancelled);
}

#[test]
fn a_short_list_of_outcomes_is_not_kept() {
    let files = vec![file("src/A.sol", "b")];
    let (run, _) = start(settings(1, false, false), None, files);
    let (run, _) =
        to_generate(run).advance(Event::Generated(vec![mutant(1, 2, 0), mutant(3, 4, 1)]));
    let outcomes = vec![outcome(mutant(1, 2, 0), MutationResult::Dead)];
    let (run, _) = run.advance(Event::Executed { outcomes, interrupted: false });
    match run.stage() {
        Stage::Persist { results, .. } => assert!(results.is_none()),
        _ => panic!("the file is to be kept"),
    }
    let (run, _) = run.advance(Event::Persisted);
    let result = finished(run, Elapsed { secs: 1, nanos: 0 });
    assert!(!result.cancelled);
    assert_eq!(result.summary.dead, vec![mutant(1, 2, 0)]);
}

#[test]
fn a_run_without_a_display_is_not_cancelled() {
    for config in [settings(1, false, false), settings(1, true, true), settings(1, false, true)] {
        let (run, _) =
            start(config, None, vec![file("src/A.sol", "b"), file("x", "b")]);
        assert!(!run.displays_progress());
        let (run, _) = to_generate(run).advance(Event::Generated(vec![mutant(1, 2, 0)]));
        let outcomes = vec![outcome(mutant(1, 2, 0), MutationResult::Dead)];
        let (run, _) = run.advance(Event::Executed { outcomes, interrupted: true });
        match run.stage() {
            Stage::Persist { results, .. } => assert!(results.is_some()),
            _ => panic!("the file is to be kept"),
        }
        let (run, _) = run.advance(Event::Persisted);
        assert!(matches!(run.stage(), Stage::Open));
        assert_eq!(run.current(), 1);
    }
}

#[test]
fn json_output_shows_no_lines() {
    for show_progress in [false, true] {
        let files = vec![file("src/A.sol", "b"), file("src/B.sol", "b"), file("src/C.sol", "")];
        let (run, notices) = start(settings(1, show_progress, true), None, files);
        assert!(notices.is_empty());
        assert!(!run.shows_report());
        let (run, _) = run.advance(Event::Opened);
        let (run, notices) = run.advance(Event::Results(Some(Vec::new())));
        assert!(notices.is_empty());
        let (run, notices) = to_generate(run).advance(Event::Generated(Vec::new()));
        assert!(notices.is_empty());
        let (run, notices) = to_generate(run).advance(Event::Generated(vec![mutant(1, 2, 0)]));
        assert!(notices.is_empty());
        let (run, notices) =
            run.advance(Event::Executed { outcomes: Vec::new(), interrupted: false });
        assert!(notices.is_empty());
        assert!(matches!(run.stage(), Stage::Done));
    }
}

#[test]
fn an_event_that_answers_nothing_changes_nothing() {
    let files = vec![file("src/A.sol", "b")];
    let (run, _) = start(settings(1, false, false), None, files);
    let (run, notices) = run.advance(Event::Persisted);
    assert!(notices.is_empty());
    assert!(matches!(run.stage(), Stage::Open));
    let (run, _) = run.advance(Event::Generated(vec![mutant(1, 2, 0)]));
    assert!(matches!(run.stage(), Stage::Open));
    let (run, _) = run.advance(Event::Results(Some(Vec::new())));
    assert!(matches!(run.stage(), Stage::Open));
    let (run, _) = to_generate(run).advance(Event::Generated(vec![mutant(1, 2, 0)]));
    let (run, _) = run.advance(Event::Opened);
    match run.stage() {
        Stage::Execute { mutants } => assert_eq!(mutants, &vec![mutant(1, 2, 0)]),
        _ => panic!("the mutants are to be run"),
    }
}

#[test]
fn a_later_run_reports_what_was_kept() {
    let (run, _) =
        start(settings(1, false, false), None, vec![file("src/A.sol", "b")]);
    let (run, _) =
        to_generate(run).advance(Event::Generated(vec![mutant(3, 4, 0), mutant(1, 2, 1)]));
    let outcomes = vec![
        outcome(mutant(3, 4, 0), MutationResult::Dead),
        outcome(mutant(1, 2, 1), MutationResult::Alive),
    ];
    let (run, _) = run.advance(Event::Executed { outcomes, interrupted: false });
    let kept = match run.stage() {
        Stage::Persist { results: Some(results), .. } => results.clone(),
        _ => panic!("the outcomes are complete"),
    };
    let (run, _) = run.advance(Event::Persisted);
    let first = finished(run, Elapsed { secs: 1, nanos: 0 });

    let (run, _) =
        start(settings(1, false, false), None, vec![file("src/A.sol", "b")]);
    let (run, _) = run.advance(Event::Opened);
    let (run, _) = run.advance(Event::Results(Some(kept)));
    assert!(matches!(run.stage(), Stage::Done));
    let second = finished(run, Elapsed { secs: 0, nanos: 0 });
    assert_eq!(first.summary.dead, vec![mutant(3, 4, 0)]);
    assert_eq!(first.summary.dead, second.summary.dead);
    assert_eq!(first.summary.survived, vec![mutant(1, 2, 1)]);
    assert_eq!(first.summary.survived, second.summary.survived);
}

fn two_files() -> Vec<TargetFile> {
    vec![file("src/A.sol", "b"), file("src/B.sol", "b")]
}

/// Asserts that a run has failed, and that nothing makes it go on.
fn assert_failed(run: MutationRun, current: usize) {
    let events = vec![
        Event::Opened,
        Event::Results(Some(vec![outcome(mutant(0, 1, 0), MutationResult::Dead)])),
        Event::SurvivedSpansLoaded,
        Event::Mutants(None),
        Event::Generated(vec![mutant(0, 1, 0)]),
        Event::Executed {
            outcomes: vec![outcome(mutant(0, 1, 0), MutationResult::Dead)],
            interrupted: true,
        },
        Event::Persisted,
        Event::Failed,
        Event::LineFailed,
    ];
    let mut run = run;
    assert!(matches!(run.stage(), Stage::Failed));
    for event in events {
        let (next, notices) = run.advance(event);
        run = next;
        assert!(notices.is_empty());
        assert!(matches!(run.stage(), Stage::Failed));
        assert_eq!(run.current(), current);
    }
    assert!(!run.shows_report());
    assert!(run.opening().is_none());
    assert!(run.execution().is_none());
    assert!(run.finish(Elapsed { secs: 1, nanos: 0 }).is_none());
}

#[test]
fn a_file_that_cannot_be_read_fails_the_run() {
    let (run, _) = start(settings(1, false, false), None, two_files());
    let (run, notices) = run.advance(Event::Failed);
    assert!(notices.is_empty());
    assert_failed(run, 0);
}

#[test]
fn mutants_that_cannot_be_generated_fail_the_run() {
    let (run, _) = start(settings(1, true, false), None, two_files());
    let (run, _) = to_generate(run).advance(Event::Failed);
    assert_failed(run, 0);
}

#[test]
fn mutants_that_cannot_be_run_fail_the_run_and_nothing_is_kept() {
    let (run, _) = start(settings(1, false, true), None, two_files());
    let (run, _) = run.advance(Event::Opened);
    let (run, _) = run.advance(Event::Results(Some(Vec::new())));
    let (run, _) = to_generate(run).advance(Event::Generated(vec![mutant(1, 2, 0)]));
    let (run, _) = run.advance(Event::Failed);
    assert_failed(run, 1);
}

#[test]
fn a_line_that_cannot_be_shown_fails_the_run() {
    let (run, _) = start(settings(1, false, false), None, Vec::new());
    let (run, _) = run.advance(Event::LineFailed);
    assert_failed(run, 0);
    let (run, _) = start(settings(1, false, false), None, two_files());
    let (run, _) = to_generate(run).advance(Event::Generated(vec![mutant(1, 2, 0)]));
    let (run, _) = run.advance(Event::LineFailed);
    assert_failed(run, 0);
}

#[test]
fn a_run_without_lines_does_not_fail_by_one() {
    for config in [settings(1, true, false), settings(1, false, true), settings(1, true, true)] {
        let (run, _) = start(config, None, two_files());
        let (run, _) = run.advance(Event::LineFailed);
        assert!(matches!(run.stage(), Stage::Open));
    }
}

#[test]
fn a_failure_is_no_answer_to_a_lookup() {
    let (run, _) = start(settings(1, false, false), None, two_files());
    let (run, _) = run.advance(Event::Opened);
    let (run, _) = run.advance(Event::Failed);
    assert!(matches!(run.stage(), Stage::LoadResults));
    assert!(!run.shows_report());
    assert!(run.finish(Elapsed { secs: 1, nanos: 0 }).is_none());
}
