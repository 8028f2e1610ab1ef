//! What holds over the whole course of a run.

use crate::config::{worker_count, MutationRunConfig};
use crate::digest::digest_of;
use crate::mutant::{
    law_every_mutant_is_run_once, law_every_outcome_is_counted_once,
    law_kept_outcomes_forget_completion_order, law_kept_outcomes_report_the_same,
    law_merging_summaries, law_no_outcomes_report_nothing, law_reports_add_up,
    law_reports_forget_completion_order, report_of, sorted_outcomes, survived_spans, Mutant, MutantOutcome, SummaryView,
};
use crate::notice::Notice;
use crate::plan::is_plan;
use crate::resolve::{build_id_of, candidate_path, selection_of, ProjectFacts};
use crate::run::{
    is_kept, law_runs_stay_well_formed, optional_regex, settings_of, started, unskipped,
    CachedMutant, EventView, Execution, Opening, RunSettings, RunView, StageView, TargetFile,
};
use vstd::prelude::*;
use vstd::seq_lib::{to_multiset_contains, to_multiset_len};

verus! {

/// Whether an event is an answer to a stage.
pub open spec fn answers(stage: StageView, event: EventView) -> bool {
    match event {
        EventView::Opened => stage is Open,
        EventView::Results(_) => stage is LoadResults,
        EventView::SurvivedSpansLoaded => stage is LoadSurvivedSpans,
        EventView::Mutants(_) => stage is LoadMutants,
        EventView::Generated(_) => stage is Generate,
        EventView::Executed { .. } => stage is Execute,
        EventView::Persisted => stage is Persist,
        EventView::Failed => stage is Open || stage is Generate || stage is Execute,
        EventView::LineFailed => false,
    }
}

/// Whether the user cancelled while mutants were run.
pub open spec fn is_interruption(event: EventView) -> bool {
    event matches EventView::Executed { interrupted, .. } && interrupted
}

/// Whether an event makes the run fail: the source cannot be read, mutants cannot be generated or
/// run, or a line cannot be shown in a run that shows lines.
pub open spec fn fails(run: RunView, event: EventView) -> bool {
    ||| event is Failed && (run.stage is Open || run.stage is Generate || run.stage is Execute)
    ||| event is LineFailed && run.settings.announces()
}

/// The run after a sequence of events.
pub open spec fn after_all(run: RunView, events: Seq<EventView>) -> RunView
    decreases events.len(),
{
    if events.len() == 0 {
        run
    } else {
        after_all(run, events.drop_last()).after(events.last())
    }
}

/// The outcomes that an event adds to the summary.
pub open spec fn outcomes_in(run: RunView, event: EventView) -> Seq<MutantOutcome> {
    match (run.stage, event) {
        (StageView::LoadResults, EventView::Results(Some(outcomes))) => outcomes,
        (StageView::Execute { .. }, EventView::Executed { outcomes, .. }) => outcomes,
        _ => Seq::empty(),
    }
}

/// The outcomes that a sequence of events adds to the summary, in the order in which they came.
pub open spec fn all_outcomes(run: RunView, events: Seq<EventView>) -> Seq<MutantOutcome>
    decreases events.len(),
{
    if events.len() == 0 {
        Seq::empty()
    } else {
        all_outcomes(run, events.drop_last()) + outcomes_in(
            after_all(run, events.drop_last()),
            events.last(),
        )
    }
}

/// Whether each of the events is an answer to the stage that it finds.
pub open spec fn all_answers(run: RunView, events: Seq<EventView>) -> bool
    decreases events.len(),
{
    events.len() > 0 ==> all_answers(run, events.drop_last()) && answers(
        after_all(run, events.drop_last()).stage,
        events.last(),
    )
}

/// How many answers a run may still take.
pub open spec fn answers_left(run: RunView) -> int {
    let later_files = 7 * (run.files.len() - run.current - 1);
    match run.stage {
        StageView::Open => later_files + 7,
        StageView::LoadResults => later_files + 6,
        StageView::LoadSurvivedSpans => later_files + 5,
        StageView::LoadMutants => later_files + 4,
        StageView::Generate => later_files + 3,
        StageView::Execute { .. } => later_files + 2,
        StageView::Persist { .. } => later_files + 1,
        StageView::Done => 0,
        StageView::Failed => 0,
    }
}

/// An event that is no answer to the stage changes nothing and shows nothing, unless it is a line
/// that could not be shown.
pub proof fn law_other_events_change_nothing(run: RunView, event: EventView)
    requires
        !answers(run.stage, event),
        !fails(run, event),
    ensures
        run.after(event) == run,
        run.lines_after(event) == Seq::<Notice>::empty(),
{
}

/// An answer brings the run closer to its end, and there are none left only where it is over or
/// has failed. A line that cannot be shown leaves none.
pub proof fn law_every_answer_is_progress(run: RunView, event: EventView)
    requires
        run.well_formed(),
    ensures
        answers_left(run) == 0 <==> run.stage is Done || run.stage is Failed,
        answers(run.stage, event) ==> 0 <= answers_left(run.after(event)) < answers_left(run),
        fails(run, event) ==> answers_left(run.after(event)) == 0,
{
}

/// A run ends: it takes no more answers than there are stages in all its files.
pub proof fn law_runs_end(settings: RunSettings, files: Seq<TargetFile>, events: Seq<EventView>)
    requires
        all_answers(started(settings, files), events),
    ensures
        events.len() + answers_left(after_all(started(settings, files), events)) <= 7
            * files.len(),
        answers_left(after_all(started(settings, files), events)) >= 0,
    decreases events.len(),
{
    if events.len() > 0 {
        let before = after_all(started(settings, files), events.drop_last());
        law_runs_end(settings, files, events.drop_last());
        law_runs_are_whole_or_cancelled(settings, files, events.drop_last());
        law_every_answer_is_progress(before, events.last());
    }
}

/// Files are taken up one after the other, and the settings and the list of files stay what they
/// were.
pub proof fn law_files_are_taken_in_order(run: RunView, event: EventView)
    ensures
        run.after(event).settings == run.settings,
        run.after(event).files == run.files,
        run.after(event).current == run.current || run.after(event).current == run.current + 1,
{
}

/// Whatever happens to a run, the settings and the list of files stay what they were, and with
/// them the build id that everything is looked up and kept under for each file.
pub proof fn law_settings_and_files_never_change(run: RunView, events: Seq<EventView>)
    ensures
        after_all(run, events).settings == run.settings,
        after_all(run, events).files == run.files,
        forall|i: int|
            0 <= i < run.files.len() ==> (#[trigger] after_all(run, events).files[i]).build_id
                == run.files[i].build_id,
        run.current <= after_all(run, events).current,
    decreases events.len(),
{
    if events.len() > 0 {
        law_settings_and_files_never_change(run, events.drop_last());
        law_files_are_taken_in_order(after_all(run, events.drop_last()), events.last());
    }
}

/// The files that a sequence of events opens, in order.
pub open spec fn opened_files(run: RunView, events: Seq<EventView>) -> Seq<int>
    decreases events.len(),
{
    if events.len() == 0 {
        Seq::empty()
    } else {
        let before = after_all(run, events.drop_last());
        let opened = opened_files(run, events.drop_last());
        if before.stage is Open && events.last() is Opened {
            opened.push(before.current)
        } else {
            opened
        }
    }
}

/// The files whose mutants a sequence of events has run, in order, whether or not that fails.
pub open spec fn executed_files(run: RunView, events: Seq<EventView>) -> Seq<int>
    decreases events.len(),
{
    if events.len() == 0 {
        Seq::empty()
    } else {
        let before = after_all(run, events.drop_last());
        let executed = executed_files(run, events.drop_last());
        if before.stage is Execute && (events.last() is Executed || events.last() is Failed) {
            executed.push(before.current)
        } else {
            executed
        }
    }
}

/// Files are opened from the first on, each once, and a file is opened before anything is looked
/// up, generated, run or kept for it.
pub proof fn law_files_are_opened_first(
    settings: RunSettings,
    files: Seq<TargetFile>,
    events: Seq<EventView>,
)
    ensures
        ({
            let run = after_all(started(settings, files), events);
            let opened = opened_files(started(settings, files), events);
            &&& forall|i: int| 0 <= i < opened.len() ==> #[trigger] opened[i] == i
            &&& run.stage is Open || (run.stage is Done && !run.cancelled) ==> opened.len()
                == run.current
            &&& !(run.stage is Open) && !(run.stage is Failed) && (run.stage !is Done
                || run.cancelled) ==> opened.len() == run.current + 1 && opened.last()
                == run.current
            &&& run.stage is Failed ==> opened.len() == run.current || opened.len() == run.current
                + 1
        }),
    decreases events.len(),
{
    if events.len() > 0 {
        law_files_are_opened_first(settings, files, events.drop_last());
        law_runs_are_whole_or_cancelled(settings, files, events.drop_last());
    }
}

/// Whether any of the events makes the run fail.
pub open spec fn any_fails(run: RunView, events: Seq<EventView>) -> bool
    decreases events.len(),
{
    events.len() > 0 && (any_fails(run, events.drop_last()) || fails(
        after_all(run, events.drop_last()),
        events.last(),
    ))
}

/// A failure ends the run where it is: the current file and the summary stay what they were,
/// nothing is kept, and no line is shown. Nothing but a failure does so; in particular what could
/// not be kept does not.
pub proof fn law_failures_end_the_run(run: RunView, event: EventView)
    ensures
        run.after(event).stage is Failed <==> run.stage is Failed || fails(run, event),
        fails(run, event) ==> {
            &&& run.after(event).current == run.current
            &&& run.after(event).summary == run.summary
            &&& run.after(event).cancelled == run.cancelled
            &&& run.after(event).stage !is Persist
            &&& run.lines_after(event) == Seq::<Notice>::empty()
        },
{
}

/// A run has failed if and only if something failed in the course of it. So a run that takes no
/// more answers is over, and has a result, if and only if nothing failed.
pub proof fn law_runs_fail_by_failures_only(
    settings: RunSettings,
    files: Seq<TargetFile>,
    events: Seq<EventView>,
)
    ensures
        after_all(started(settings, files), events).stage is Failed <==> any_fails(
            started(settings, files),
            events,
        ),
        answers_left(after_all(started(settings, files), events)) == 0 ==> (after_all(
            started(settings, files),
            events,
        ).stage is Done <==> !any_fails(started(settings, files), events)),
    decreases events.len(),
{
    law_runs_are_whole_or_cancelled(settings, files, events);
    if events.len() > 0 {
        let before = after_all(started(settings, files), events.drop_last());
        law_runs_fail_by_failures_only(settings, files, events.drop_last());
        law_failures_end_the_run(before, events.last());
    }
}

/// Whatever happens to a run that has failed, it stays failed: no file is opened or run, nothing
/// is tallied or kept, and no line is shown.
pub proof fn law_failed_runs_do_nothing_more(
    run: RunView,
    events: Seq<EventView>,
    later: Seq<EventView>,
    event: EventView,
)
    requires
        after_all(run, events).stage is Failed,
    ensures
        after_all(run, events + later) == after_all(run, events),
        after_all(run, events + later).stage is Failed,
        opened_files(run, events + later) == opened_files(run, events),
        executed_files(run, events + later) == executed_files(run, events),
        all_outcomes(run, events + later) == all_outcomes(run, events),
        after_all(run, events + later).lines_after(event) == Seq::<Notice>::empty(),
    decreases later.len(),
{
    if later.len() == 0 {
        assert(events + later =~= events);
    } else {
        law_failed_runs_do_nothing_more(run, events, later.drop_last(), event);
        assert((events + later).drop_last() =~= events + later.drop_last());
        assert((events + later).last() == later.last());
        assert(all_outcomes(run, events + later) =~= all_outcomes(run, events));
    }
}

/// Whether the mutants of a file are not run any more: another file is taken up, or what came of
/// it is kept, or the run is over or has failed.
pub open spec fn is_past_running(run: RunView, file: int) -> bool {
    run.current > file || (run.current == file && (run.stage is Persist || run.stage is Done
        || run.stage is Failed))
}

/// Once the mutants of a file have been run, or could not be run, they are not run again,
/// whatever happens.
pub proof fn law_files_are_run_at_most_once(
    run: RunView,
    executed: EventView,
    events: Seq<EventView>,
)
    requires
        run.stage is Execute,
        executed is Executed || executed is Failed,
    ensures
        is_past_running(after_all(run.after(executed), events), run.current),
        !(after_all(run.after(executed), events).stage is Execute && after_all(
            run.after(executed),
            events,
        ).current == run.current),
    decreases events.len(),
{
    if events.len() > 0 {
        law_files_are_run_at_most_once(run, executed, events.drop_last());
    }
}

/// The mutants of a file are run at most once in a run, and those of an earlier file before those
/// of a later one.
pub proof fn law_files_are_run_in_order(run: RunView, events: Seq<EventView>)
    ensures
        forall|i: int, j: int|
            0 <= i < j < executed_files(run, events).len() ==> (#[trigger] executed_files(
                run,
                events,
            )[i]) < (#[trigger] executed_files(run, events)[j]),
        forall|i: int|
            0 <= i < executed_files(run, events).len() ==> is_past_running(
                after_all(run, events),
                #[trigger] executed_files(run, events)[i],
            ),
    decreases events.len(),
{
    if events.len() > 0 {
        let before = after_all(run, events.drop_last());
        let shorter = executed_files(run, events.drop_last());
        let executed = executed_files(run, events);
        law_files_are_run_in_order(run, events.drop_last());
        assert forall|i: int| 0 <= i < executed.len() implies is_past_running(
            after_all(run, events),
            #[trigger] executed[i],
        ) by {
            if i < shorter.len() {
                assert(executed[i] == shorter[i]);
                assert(is_past_running(before, shorter[i]));
            }
        }
        assert forall|i: int, j: int| 0 <= i < j < executed.len() implies (
        #[trigger] executed[i]) < (#[trigger] executed[j]) by {
            assert(executed[i] == shorter[i]);
            assert(is_past_running(before, shorter[i]));
            if j < shorter.len() {
                assert(executed[j] == shorter[j]);
            }
        }
    }
}

/// Whichever file is run, and however the run came to it, its mutants are run with the test
/// filter, the isolation flag and the output mode of the configuration, and with the number of
/// workers that the configuration comes to, which is never none on a machine that offers any.
pub proof fn law_every_file_is_run_alike(
    mutation_config: MutationRunConfig,
    evm_opts: Option<Seq<u8>>,
    big_endian: bool,
    available: Option<usize>,
    files: Seq<TargetFile>,
    events: Seq<EventView>,
    execution: Execution,
)
    requires
        after_all(
            started(settings_of(mutation_config, evm_opts, big_endian, available), files),
            events,
        ).executes_by(execution),
    ensures
        *execution.filter_args == mutation_config.filter_args,
        execution.isolate == mutation_config.isolate,
        execution.json_output == mutation_config.json_output,
        execution.num_workers == worker_count(
            mutation_config.num_workers,
            available,
        ),
        available != Some(0usize) ==> execution.num_workers > 0,
        execution.mutants@.len() > 0,
        0 <= execution.file < files.len(),
{
    let settings = settings_of(mutation_config, evm_opts, big_endian, available);
    law_settings_and_files_never_change(started(settings, files), events);
    law_runs_are_whole_or_cancelled(settings, files, events);
}

/// Whichever file is opened, and however the run came to it, its cache entries are tied to the
/// digest of the configuration and the EVM options, and its mutants are restricted by the
/// contract filter of the configuration, if there is one.
pub proof fn law_every_file_is_opened_alike(
    mutation_config: MutationRunConfig,
    evm_opts: Option<Seq<u8>>,
    big_endian: bool,
    available: Option<usize>,
    files: Seq<TargetFile>,
    events: Seq<EventView>,
    opening: Opening,
)
    requires
        after_all(
            started(settings_of(mutation_config, evm_opts, big_endian, available), files),
            events,
        ).opens_by(opening),
    ensures
        opening.digest == digest_of(mutation_config, evm_opts, big_endian),
        optional_regex(opening.contract_filter) == mutation_config.mutate_contract_pattern,
        opening.contract_filter is Some <==> mutation_config.mutate_contract_pattern is Some,
        0 <= opening.file < files.len(),
{
    let settings = settings_of(mutation_config, evm_opts, big_endian, available);
    law_settings_and_files_never_change(started(settings, files), events);
    law_runs_are_whole_or_cancelled(settings, files, events);
}

/// Whatever happens to a run, everything is looked up and kept for a file under one build id:
/// that of the first contract compiled from it, or an empty one if there is none.
pub proof fn law_every_file_has_one_build(
    mutation_config: MutationRunConfig,
    facts: ProjectFacts,
    settings: RunSettings,
    files: Seq<TargetFile>,
    events: Seq<EventView>,
)
    requires
        is_plan(files, mutation_config, facts),
    ensures
        ({
            let run = after_all(started(settings, files), events);
            0 <= run.current < files.len() ==> run.files[run.current].build_id@ == build_id_of(
                facts.artifacts@,
                candidate_path(
                    selection_of(mutation_config),
                    facts,
                    files[run.current].candidate as int,
                ),
            )
        }),
{
    law_settings_and_files_never_change(started(settings, files), events);
}

/// What is kept of a file does not depend on the order in which workers came to an end: the same
/// outcomes in two orders are kept as the same list.
pub proof fn law_kept_results_forget_completion_order(
    run: RunView,
    a: Seq<MutantOutcome>,
    b: Seq<MutantOutcome>,
    interrupted: bool,
)
    requires
        run.stage is Execute,
        a.to_multiset() == b.to_multiset(),
    ensures
        ({
            let after_a = run.after(EventView::Executed { outcomes: a, interrupted });
            let after_b = run.after(EventView::Executed { outcomes: b, interrupted });
            &&& after_a.stage is Persist <==> after_b.stage is Persist
            &&& after_a.stage is Persist ==> after_a.stage->results == after_b.stage->results
                && after_a.stage->Persist_mutants == after_b.stage->Persist_mutants
        }),
{
    to_multiset_len(a);
    to_multiset_len(b);
    law_kept_outcomes_forget_completion_order(a, b);
}

/// JSON output suppresses all other output: no line is shown, and there is no progress display.
pub proof fn law_json_output_is_the_only_output(run: RunView, event: EventView)
    requires
        run.settings.json_output,
    ensures
        run.lines_after(event) == Seq::<Notice>::empty(),
        !run.settings.displays_progress(),
{
    assert(run.lines_after(event) =~= Seq::<Notice>::empty());
}

/// Lines and the progress display are never mixed.
pub proof fn law_lines_do_not_disturb_the_display(run: RunView, event: EventView)
    requires
        run.settings.displays_progress(),
    ensures
        run.lines_after(event) == Seq::<Notice>::empty(),
{
    assert(run.lines_after(event) =~= Seq::<Notice>::empty());
}

/// Outcomes of a file are kept if and only if the run was not cancelled and every mutant has an
/// outcome. What is kept then are those outcomes in the order of their spans, and in any case
/// the mutants that were run and the spans of those that survived.
pub proof fn law_only_complete_outcomes_are_kept(
    run: RunView,
    mutants: Seq<Mutant>,
    outcomes: Seq<MutantOutcome>,
    interrupted: bool,
)
    requires
        run.well_formed(),
        run.stage == (StageView::Execute { mutants }),
        run.is_cacheable(),
    ensures
        ({
            let next = run.after(EventView::Executed { outcomes, interrupted });
            &&& next.stage matches StageView::Persist { mutants: kept, results, survived }
            &&& kept == mutants
            &&& survived == survived_spans(outcomes)
            &&& results is Some <==> !next.cancelled && outcomes.len() == mutants.len()
            &&& results matches Some(results) ==> results == sorted_outcomes(outcomes)
        }),
{
}

/// Nothing is kept of a file without a build.
pub proof fn law_nothing_is_kept_without_a_build(
    run: RunView,
    outcomes: Seq<MutantOutcome>,
    interrupted: bool,
)
    requires
        run.stage is Execute,
        !run.is_cacheable(),
    ensures
        run.after(EventView::Executed { outcomes, interrupted }).stage !is Persist,
{
}

/// A file whose outcomes are in the cache is not run again: its outcomes are taken over and the
/// next file is taken up.
pub proof fn law_cached_outcomes_are_taken_over(run: RunView, outcomes: Seq<MutantOutcome>)
    requires
        run.well_formed(),
        run.stage is LoadResults,
    ensures
        ({
            let next = run.after(EventView::Results(Some(outcomes)));
            &&& next.current == run.current + 1
            &&& next.stage is Open || next.stage is Done
            &&& next.summary == run.summary.merged(report_of(outcomes))
        }),
{
}

/// A later run that finds what an earlier one kept of a file reports of it what the earlier one
/// did, and does not run it: the same mutants under the same results.
pub proof fn law_later_runs_report_what_was_kept(
    earlier: RunView,
    outcomes: Seq<MutantOutcome>,
    interrupted: bool,
    later: RunView,
)
    requires
        earlier.well_formed(),
        earlier.stage is Execute,
        later.well_formed(),
        later.stage is LoadResults,
    ensures
        earlier.after(EventView::Executed { outcomes, interrupted }).stage matches
            StageView::Persist { results: Some(kept), .. } ==> {
            let next = later.after(EventView::Results(Some(kept)));
            &&& next.summary == later.summary.merged(report_of(kept))
            &&& report_of(kept).same_mutants(report_of(outcomes))
            &&& earlier.after(EventView::Executed { outcomes, interrupted }).summary
                == earlier.summary.merged(report_of(outcomes))
            &&& next.stage is Open || next.stage is Done
        },
{
    law_kept_outcomes_report_the_same(outcomes);
}

/// A resumed run tries exactly the mutants of the earlier run that are not to be skipped, each
/// as often as it was there.
pub proof fn law_skipped_mutants_are_not_run(run: RunView, cached: Seq<CachedMutant>)
    requires
        run.stage is LoadMutants,
    ensures
        ({
            let next = run.after(EventView::Mutants(Some(cached)));
            &&& next.stage is Execute <==> unskipped(cached).len() > 0
            &&& next.stage matches StageView::Execute { mutants } ==> {
                &&& mutants.to_multiset() == unskipped(cached).to_multiset()
                &&& forall|mutant: Mutant|
                    #[trigger] mutants.contains(mutant) ==> exists|k: int|
                        0 <= k < cached.len() && !(#[trigger] cached[k]).skip && cached[k].mutant
                            == mutant
            }
        }),
{
    let next = run.after(EventView::Mutants(Some(cached)));
    let left = unskipped(cached);
    law_every_mutant_is_run_once(left);
    if let StageView::Execute { mutants } = next.stage {
        assert forall|mutant: Mutant| #[trigger] mutants.contains(mutant) implies exists|k: int|
            0 <= k < cached.len() && !(#[trigger] cached[k]).skip && cached[k].mutant
                == mutant by {
            to_multiset_contains(mutants, mutant);
            to_multiset_contains(left, mutant);
            let i = choose|i: int| 0 <= i < left.len() && left[i] == mutant;
            let passed = cached.filter(is_kept());
            cached.lemma_filter_pred(is_kept(), i);
            lemma_filtered_items_are_items(cached, is_kept(), i);
            let k = choose|k: int| 0 <= k < cached.len() && cached[k] == passed[i];
            assert(!cached[k].skip);
        }
    }
}

/// What passes a filter was there before.
proof fn lemma_filtered_items_are_items<T>(items: Seq<T>, pred: spec_fn(T) -> bool, i: int)
    requires
        0 <= i < items.filter(pred).len(),
    ensures
        items.contains(items.filter(pred)[i]),
    decreases items.len(),
{
    reveal(Seq::filter);
    if items.len() > 0 {
        let shorter = items.drop_last();
        if i < shorter.filter(pred).len() {
            lemma_filtered_items_are_items(shorter, pred, i);
            let k = choose|k: int| 0 <= k < shorter.len() && shorter[k] == shorter.filter(pred)[i];
            assert(items[k] == items.filter(pred)[i]);
        } else {
            assert(items.filter(pred)[i] == items.last());
            assert(items[items.len() - 1] == items.last());
        }
    }
}

/// A run is cancelled by an interruption at the progress display and by nothing else, and stays
/// cancelled.
pub proof fn law_cancellation_comes_from_the_display(run: RunView, event: EventView)
    ensures
        run.after(event).cancelled <==> run.cancelled || (run.stage is Execute
            && run.settings.displays_progress() && is_interruption(event)),
{
}

/// Whatever happens to a cancelled run, it takes up no further file and adds nothing to its
/// summary.
pub proof fn law_cancelled_runs_take_up_no_file(run: RunView, events: Seq<EventView>)
    requires
        run.well_formed(),
        run.cancelled,
    ensures
        after_all(run, events).well_formed(),
        after_all(run, events).cancelled,
        after_all(run, events).current == run.current,
        after_all(run, events).summary == run.summary,
    decreases events.len(),
{
    if events.len() > 0 {
        law_cancelled_runs_take_up_no_file(run, events.drop_last());
        law_runs_stay_well_formed(after_all(run, events.drop_last()), events.last());
    }
}

/// The summary of a run is the report of all outcomes that were handed to it, in the order in
/// which they came, each of them counted once.
pub proof fn law_summary_reports_all_outcomes(
    settings: RunSettings,
    files: Seq<TargetFile>,
    events: Seq<EventView>,
)
    ensures
        ({
            let run = started(settings, files);
            &&& after_all(run, events).summary == report_of(all_outcomes(run, events))
            &&& after_all(run, events).summary.total() == all_outcomes(run, events).len()
        }),
    decreases events.len(),
{
    let run = started(settings, files);
    law_every_outcome_is_counted_once(all_outcomes(run, events));
    law_no_outcomes_report_nothing();
    if events.len() > 0 {
        let before = after_all(run, events.drop_last());
        let outcomes = outcomes_in(before, events.last());
        law_summary_reports_all_outcomes(settings, files, events.drop_last());
        law_reports_add_up(all_outcomes(run, events.drop_last()), outcomes);
        law_merging_summaries(before.summary, SummaryView::empty(), SummaryView::empty());
    }
}

/// Two runs that were handed the same outcomes report the same mutants under the same results, in
/// whatever order the outcomes came, and whether they were run or found in the cache.
pub proof fn law_same_outcomes_report_the_same(
    settings: RunSettings,
    files: Seq<TargetFile>,
    events: Seq<EventView>,
    other_settings: RunSettings,
    other_files: Seq<TargetFile>,
    other_events: Seq<EventView>,
)
    requires
        all_outcomes(started(settings, files), events).to_multiset() == all_outcomes(
            started(other_settings, other_files),
            other_events,
        ).to_multiset(),
    ensures
        after_all(started(settings, files), events).summary.same_mutants(
            after_all(started(other_settings, other_files), other_events).summary,
        ),
{
    law_summary_reports_all_outcomes(settings, files, events);
    law_summary_reports_all_outcomes(other_settings, other_files, other_events);
    law_reports_forget_completion_order(
        all_outcomes(started(settings, files), events),
        all_outcomes(started(other_settings, other_files), other_events),
    );
}

/// Whatever happens to a run, what holds of every run holds of it: if it is over, it has gone
/// through all files or was cancelled, and outcomes that it has ready to be kept are complete
/// and not from a cancelled file.
pub proof fn law_runs_are_whole_or_cancelled(
    settings: RunSettings,
    files: Seq<TargetFile>,
    events: Seq<EventView>,
)
    ensures
        ({
            let run = after_all(started(settings, files), events);
            &&& run.well_formed()
            &&& run.settings == settings
            &&& run.files == files
            &&& run.stage is Done ==> run.current == files.len() || run.cancelled
            &&& run.cancelled ==> settings.displays_progress()
            &&& run.stage matches StageView::Persist { mutants, results: Some(results), .. } ==> {
                &&& results.len() == mutants.len()
                &&& !run.cancelled
            }
        }),
    decreases events.len(),
{
    if events.len() > 0 {
        law_runs_are_whole_or_cancelled(settings, files, events.drop_last());
        law_runs_stay_well_formed(
            after_all(started(settings, files), events.drop_last()),
            events.last(),
        );
    }
}

} // verus!
