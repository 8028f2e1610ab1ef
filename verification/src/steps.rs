//! What each answer does to a run.

use crate::config::MutationRunConfig;
use crate::digest::digest_of;
use crate::mutant::{
    law_every_mutant_is_run_once, law_kept_outcomes_are_sorted,
    law_mutants_of_a_span_keep_their_order, law_outer_spans_run_first,
    law_reports_keep_the_order_of_outcomes, law_spans_of_survivors, Mutant, MutantOutcome,
    MutationResult, Span,
};
use crate::notice::Notice;
use crate::run::{
    displays_of, names_one_of, settings_of, started, unskipped, CachedMutant, Event,
    EventView, Execution, Opening, RunSettings, RunView, Stage, StageView, TargetFile,
};
use vstd::prelude::*;
use vstd::seq_lib::{to_multiset_build, to_multiset_contains};

verus! {

/// What a run is told is what the configuration says; nothing is made up or left out.
pub proof fn law_runs_are_told_the_configuration(
    mutation_config: MutationRunConfig,
    evm_opts: Option<Seq<u8>>,
    big_endian: bool,
    available: Option<usize>,
)
    ensures
        ({
            let settings = settings_of(mutation_config, evm_opts, big_endian, available);
            &&& mutation_config.num_workers > 0 ==> settings.num_workers
                == mutation_config.num_workers
            &&& mutation_config.num_workers == 0 ==> (available matches Some(offered)
                ==> settings.num_workers == offered)
            &&& mutation_config.num_workers == 0 && available is None ==> settings.num_workers == 1
            &&& settings.show_progress == mutation_config.show_progress
            &&& settings.json_output == mutation_config.json_output
            &&& settings.digest == digest_of(mutation_config, evm_opts, big_endian)
            &&& settings.contract_filter == mutation_config.mutate_contract_pattern
            &&& settings.filter_args == mutation_config.filter_args
            &&& settings.isolate == mutation_config.isolate
            &&& settings.announces() <==> !mutation_config.show_progress
                && !mutation_config.json_output
            &&& settings.displays_progress() <==> mutation_config.show_progress
                && !mutation_config.json_output
        }),
{
}

/// A run starts at its first file with nothing tallied, and is over where there is no file.
pub proof fn law_runs_start_at_the_first_file(settings: RunSettings, files: Seq<TargetFile>)
    ensures
        ({
            let run = started(settings, files);
            &&& run.settings == settings
            &&& run.files == files
            &&& run.current == 0
            &&& !run.cancelled
            &&& run.summary.dead.len() == 0
            &&& run.summary.survived.len() == 0
            &&& run.summary.invalid.len() == 0
            &&& run.summary.skipped.len() == 0
            &&& run.summary.timed_out.len() == 0
            &&& files.len() > 0 ==> run.stage == StageView::Open
            &&& files.len() == 0 ==> run.stage == StageView::Done
        }),
{
}

/// A file is opened, then its outcomes are looked up, then the spans of survivors, then its
/// mutants, and only where there are none are they generated. Nothing else changes and nothing is
/// shown.
pub proof fn law_lookups_follow_each_other(run: RunView)
    ensures
        run.stage is Open ==> run.after(EventView::Opened) == (RunView {
            stage: StageView::LoadResults,
            ..run
        }),
        run.stage is LoadResults ==> run.after(EventView::Results(None)) == (RunView {
            stage: StageView::LoadSurvivedSpans,
            ..run
        }),
        run.stage is LoadSurvivedSpans ==> run.after(EventView::SurvivedSpansLoaded) == (RunView {
            stage: StageView::LoadMutants,
            ..run
        }),
        run.stage is LoadMutants ==> run.after(EventView::Mutants(None)) == (RunView {
            stage: StageView::Generate,
            ..run
        }),
        run.lines_after(EventView::Opened).len() == 0,
        run.lines_after(EventView::Results(None)).len() == 0,
        run.lines_after(EventView::SurvivedSpansLoaded).len() == 0,
        run.lines_after(EventView::Mutants(None)).len() == 0,
{
}

/// Outcomes found in the cache are all tallied, each mutant under its result and in order, and the
/// next file is taken up.
pub proof fn law_cached_outcomes_are_tallied(run: RunView, outcomes: Seq<MutantOutcome>)
    requires
        run.stage is LoadResults,
    ensures
        ({
            let next = run.after(EventView::Results(Some(outcomes)));
            &&& next.summary.dead == run.summary.dead + outcomes.filter(
                |outcome: MutantOutcome| outcome.result == MutationResult::Dead,
            ).map_values(|outcome: MutantOutcome| outcome.mutant)
            &&& next.summary.survived == run.summary.survived + outcomes.filter(
                |outcome: MutantOutcome| outcome.result == MutationResult::Alive,
            ).map_values(|outcome: MutantOutcome| outcome.mutant)
            &&& next.summary.invalid == run.summary.invalid + outcomes.filter(
                |outcome: MutantOutcome| outcome.result == MutationResult::Invalid,
            ).map_values(|outcome: MutantOutcome| outcome.mutant)
            &&& next.summary.skipped == run.summary.skipped + outcomes.filter(
                |outcome: MutantOutcome| outcome.result == MutationResult::Skipped,
            ).map_values(|outcome: MutantOutcome| outcome.mutant)
            &&& next.summary.timed_out == run.summary.timed_out + outcomes.filter(
                |outcome: MutantOutcome| outcome.result == MutationResult::TimedOut,
            ).map_values(|outcome: MutantOutcome| outcome.mutant)
            &&& next.current == run.current + 1
            &&& next.stage == (if run.current + 1 < run.files.len() {
                StageView::Open
            } else {
                StageView::Done
            })
            &&& next.cancelled == run.cancelled
            &&& next.settings == run.settings
            &&& next.files == run.files
        }),
{
    law_reports_keep_the_order_of_outcomes(outcomes);
}

/// What it means for the mutants of a file to be taken up: every one of them is run, as often as
/// it is there, and no other; from the start of the file on, of those that start together the
/// widest first, and those of one span in the order in which they came. A file without mutants is
/// left for the next.
proof fn lemma_mutants_are_taken_up(
    run: RunView,
    next: RunView,
    mutants: Seq<Mutant>,
    span: Span,
)
    requires
        next == run.with_mutants(mutants),
    ensures
        mutants.len() > 0 ==> {
            &&& next.stage is Execute
            &&& next == (RunView { stage: next.stage, ..run })
            &&& next.stage->Execute_mutants.to_multiset() == mutants.to_multiset()
            &&& next.stage->Execute_mutants.len() == mutants.len()
            &&& forall|i: int, j: int|
                0 <= i < j < mutants.len() ==> ({
                    let first = (#[trigger] next.stage->Execute_mutants[i]).span;
                    let second = (#[trigger] next.stage->Execute_mutants[j]).span;
                    first.lo < second.lo || (first.lo == second.lo && first.hi >= second.hi)
                })
            &&& next.stage->Execute_mutants.filter(|mutant: Mutant| mutant.span == span)
                == mutants.filter(|mutant: Mutant| mutant.span == span)
        },
        mutants.len() == 0 ==> next == (RunView {
            current: run.current + 1,
            stage: if run.current + 1 < run.files.len() {
                StageView::Open
            } else {
                StageView::Done
            },
            ..run
        }),
{
    law_every_mutant_is_run_once(mutants);
    law_mutants_of_a_span_keep_their_order(mutants, span);
    if mutants.len() > 0 {
        assert forall|i: int, j: int| 0 <= i < j < mutants.len() implies ({
            let first = (#[trigger] next.stage->Execute_mutants[i]).span;
            let second = (#[trigger] next.stage->Execute_mutants[j]).span;
            first.lo < second.lo || (first.lo == second.lo && first.hi >= second.hi)
        }) by {
            law_outer_spans_run_first(mutants, i, j);
        }
    }
}

/// Every generated mutant is run, as often as it was generated, and no other, and their number is
/// announced. They are run from the start of the file on, of those that start together the widest
/// first, and those of one span in the order in which they were generated. A file for which none
/// were generated is left for the next.
pub proof fn law_generated_mutants_are_all_run(run: RunView, mutants: Seq<Mutant>, span: Span)
    requires
        run.stage is Generate,
    ensures
        ({
            let next = run.after(EventView::Generated(mutants));
            let lines = run.lines_after(EventView::Generated(mutants));
            let quiet = run.settings.show_progress || run.settings.json_output;
            &&& next.stage is Execute <==> mutants.len() > 0
            &&& mutants.len() > 0 ==> {
                &&& next == (RunView { stage: next.stage, ..run })
                &&& next.stage->Execute_mutants.to_multiset() == mutants.to_multiset()
                &&& next.stage->Execute_mutants.len() == mutants.len()
                &&& forall|i: int, j: int|
                    0 <= i < j < mutants.len() ==> ({
                        let first = (#[trigger] next.stage->Execute_mutants[i]).span;
                        let second = (#[trigger] next.stage->Execute_mutants[j]).span;
                        first.lo < second.lo || (first.lo == second.lo && first.hi >= second.hi)
                    })
                &&& next.stage->Execute_mutants.filter(|mutant: Mutant| mutant.span == span)
                    == mutants.filter(|mutant: Mutant| mutant.span == span)
                &&& !quiet ==> lines == seq![Notice::Generated { count: mutants.len() as usize }]
            }
            &&& mutants.len() == 0 ==> {
                &&& next == (RunView {
                    current: run.current + 1,
                    stage: if run.current + 1 < run.files.len() {
                        StageView::Open
                    } else {
                        StageView::Done
                    },
                    ..run
                })
                &&& !quiet && run.current + 1 < run.files.len() ==> lines == seq![
                    Notice::NoMutants { file: run.current as usize },
                    Notice::File { file: (run.current + 1) as usize },
                ]
                &&& !quiet && run.current + 1 >= run.files.len() ==> lines == seq![
                    Notice::NoMutants { file: run.current as usize },
                ]
            }
            &&& quiet ==> lines.len() == 0
        }),
{
    let next = run.after(EventView::Generated(mutants));
    lemma_mutants_are_taken_up(run, next, mutants, span);
}

/// The cached mutants of a list that are not to be skipped, one more of them.
proof fn lemma_one_more_cached(cached: Seq<CachedMutant>, last: CachedMutant)
    ensures
        unskipped(cached.push(last)) == if last.skip {
            unskipped(cached)
        } else {
            unskipped(cached).push(last.mutant)
        },
{
    reveal(Seq::filter);
    assert(cached.push(last).drop_last() =~= cached);
    assert(unskipped(cached.push(last)) =~= if last.skip {
        unskipped(cached)
    } else {
        unskipped(cached).push(last.mutant)
    });
}

/// A cached mutant is left as often as it is there and not to be skipped, and mutants are left in
/// the order in which they are listed: what is left of a list comes before what is left of another
/// that is put behind it.
pub proof fn law_only_skipped_mutants_are_dropped(
    cached: Seq<CachedMutant>,
    more: Seq<CachedMutant>,
    mutant: Mutant,
)
    ensures
        unskipped(cached).to_multiset().count(mutant) == cached.to_multiset().count(
            CachedMutant { mutant, skip: false },
        ),
        unskipped(cached + more) == unskipped(cached) + unskipped(more),
    decreases cached.len() + more.len(),
{
    let wanted = CachedMutant { mutant, skip: false };
    if cached.len() == 0 {
        reveal(Seq::filter);
        to_multiset_contains(cached, wanted);
        to_multiset_contains(unskipped(cached), mutant);
        assert(unskipped(cached) =~= Seq::empty());
        assert(cached + more =~= more);
        assert(unskipped(cached) + unskipped(more) =~= unskipped(more));
    } else {
        let shorter = cached.drop_last();
        let last = cached.last();
        law_only_skipped_mutants_are_dropped(shorter, Seq::empty(), mutant);
        assert(cached =~= shorter.push(last));
        lemma_one_more_cached(shorter, last);
        to_multiset_build(shorter, last);
        if !last.skip {
            to_multiset_build(unskipped(shorter), last.mutant);
        }
        if more.len() == 0 {
            law_only_skipped_mutants_are_dropped(Seq::empty(), more, mutant);
            assert(cached + more =~= cached);
            reveal(Seq::filter);
            assert(unskipped(more) =~= Seq::empty());
            assert(unskipped(cached) + unskipped(more) =~= unskipped(cached));
        } else {
            let fewer = more.drop_last();
            law_only_skipped_mutants_are_dropped(cached, fewer, mutant);
            lemma_one_more_cached(cached + fewer, more.last());
            lemma_one_more_cached(fewer, more.last());
            assert(more =~= fewer.push(more.last()));
            assert(cached + more =~= (cached + fewer).push(more.last()));
            assert(unskipped(cached + more) =~= unskipped(cached) + unskipped(more));
        }
    }
}

/// Every cached mutant that is not to be skipped is run, as often as it is there, and no other, in
/// the order in which generated ones would be, and their number is announced. A file with none
/// left is left for the next.
pub proof fn law_cached_mutants_are_run_unless_skipped(
    run: RunView,
    cached: Seq<CachedMutant>,
    mutant: Mutant,
)
    requires
        run.stage is LoadMutants,
    ensures
        ({
            let next = run.after(EventView::Mutants(Some(cached)));
            let lines = run.lines_after(EventView::Mutants(Some(cached)));
            let quiet = run.settings.show_progress || run.settings.json_output;
            &&& next.stage is Execute <==> exists|k: int|
                0 <= k < cached.len() && !(#[trigger] cached[k]).skip
            &&& next.stage is Execute ==> {
                &&& next == (RunView { stage: next.stage, ..run })
                &&& next.stage->Execute_mutants.to_multiset().count(mutant)
                    == cached.to_multiset().count(CachedMutant { mutant, skip: false })
                &&& forall|i: int, j: int|
                    0 <= i < j < next.stage->Execute_mutants.len() ==> ({
                        let first = (#[trigger] next.stage->Execute_mutants[i]).span;
                        let second = (#[trigger] next.stage->Execute_mutants[j]).span;
                        first.lo < second.lo || (first.lo == second.lo && first.hi >= second.hi)
                    })
                &&& next.stage->Execute_mutants.filter(|other: Mutant| other.span == mutant.span)
                    == cached.filter(
                    |other: CachedMutant| !other.skip && other.mutant.span == mutant.span,
                ).map_values(|other: CachedMutant| other.mutant)
                &&& !quiet ==> lines == seq![
                    Notice::Generated { count: next.stage->Execute_mutants.len() as usize },
                ]
            }
            &&& next.stage !is Execute ==> {
                &&& next == (RunView {
                    current: run.current + 1,
                    stage: if run.current + 1 < run.files.len() {
                        StageView::Open
                    } else {
                        StageView::Done
                    },
                    ..run
                })
                &&& !quiet && run.current + 1 < run.files.len() ==> lines == seq![
                    Notice::NoMutants { file: run.current as usize },
                    Notice::File { file: (run.current + 1) as usize },
                ]
                &&& !quiet && run.current + 1 >= run.files.len() ==> lines == seq![
                    Notice::NoMutants { file: run.current as usize },
                ]
            }
            &&& quiet ==> lines.len() == 0
        }),
{
    let next = run.after(EventView::Mutants(Some(cached)));
    let left = unskipped(cached);
    lemma_mutants_are_taken_up(run, next, left, mutant.span);
    lemma_something_is_left(cached);
    law_only_skipped_mutants_are_dropped(cached, Seq::empty(), mutant);
    lemma_left_of_a_span(cached, mutant.span);
}

/// Something is left of cached mutants if and only if one is not to be skipped.
proof fn lemma_something_is_left(cached: Seq<CachedMutant>)
    ensures
        unskipped(cached).len() > 0 <==> exists|k: int|
            0 <= k < cached.len() && !(#[trigger] cached[k]).skip,
    decreases cached.len(),
{
    if cached.len() == 0 {
        reveal(Seq::filter);
    } else {
        let shorter = cached.drop_last();
        lemma_something_is_left(shorter);
        assert(cached =~= shorter.push(cached.last()));
        lemma_one_more_cached(shorter, cached.last());
        if !cached.last().skip {
            assert(!cached[cached.len() - 1].skip);
        } else if exists|k: int| 0 <= k < cached.len() && !(#[trigger] cached[k]).skip {
            let k = choose|k: int| 0 <= k < cached.len() && !(#[trigger] cached[k]).skip;
            assert(!shorter[k].skip);
        } else if unskipped(shorter).len() > 0 {
            let k = choose|k: int| 0 <= k < shorter.len() && !(#[trigger] shorter[k]).skip;
            assert(!cached[k].skip);
        }
    }
}

/// What is left of the cached mutants of one span.
proof fn lemma_left_of_a_span(cached: Seq<CachedMutant>, span: Span)
    ensures
        unskipped(cached).filter(|other: Mutant| other.span == span) == cached.filter(
            |other: CachedMutant| !other.skip && other.mutant.span == span,
        ).map_values(|other: CachedMutant| other.mutant),
    decreases cached.len(),
{
    reveal(Seq::filter);
    let of_span = |other: Mutant| other.span == span;
    let left = |other: CachedMutant| !other.skip && other.mutant.span == span;
    if cached.len() > 0 {
        let shorter = cached.drop_last();
        let last = cached.last();
        lemma_left_of_a_span(shorter, span);
        assert(cached =~= shorter.push(last));
        lemma_one_more_cached(shorter, last);
        if !last.skip {
            assert(unskipped(cached).drop_last() =~= unskipped(shorter));
            assert(unskipped(cached).last() == last.mutant);
        }
    }
    assert(unskipped(cached).filter(of_span) =~= cached.filter(left).map_values(
        |other: CachedMutant| other.mutant,
    ));
}

/// Outcomes of a run are all tallied, each mutant under its result and in order. The run is
/// cancelled by an interruption at the progress display only. Of a file with a build, the mutants
/// that were run and the spans of all survivors are kept, and where it was not cancelled and every
/// mutant has an outcome the outcomes, all of them and in the order of their spans and mutants. Of
/// a file without one nothing is kept: a cancelled run is over then, and any other goes on with
/// the next file.
pub proof fn law_outcomes_are_tallied_and_kept(
    run: RunView,
    outcomes: Seq<MutantOutcome>,
    interrupted: bool,
)
    requires
        run.stage is Execute,
    ensures
        ({
            let next = run.after(EventView::Executed { outcomes, interrupted });
            let mutants = run.stage->Execute_mutants;
            let cancels = run.settings.show_progress && !run.settings.json_output && interrupted;
            &&& next.summary.dead == run.summary.dead + outcomes.filter(
                |outcome: MutantOutcome| outcome.result == MutationResult::Dead,
            ).map_values(|outcome: MutantOutcome| outcome.mutant)
            &&& next.summary.survived == run.summary.survived + outcomes.filter(
                |outcome: MutantOutcome| outcome.result == MutationResult::Alive,
            ).map_values(|outcome: MutantOutcome| outcome.mutant)
            &&& next.summary.invalid == run.summary.invalid + outcomes.filter(
                |outcome: MutantOutcome| outcome.result == MutationResult::Invalid,
            ).map_values(|outcome: MutantOutcome| outcome.mutant)
            &&& next.summary.skipped == run.summary.skipped + outcomes.filter(
                |outcome: MutantOutcome| outcome.result == MutationResult::Skipped,
            ).map_values(|outcome: MutantOutcome| outcome.mutant)
            &&& next.summary.timed_out == run.summary.timed_out + outcomes.filter(
                |outcome: MutantOutcome| outcome.result == MutationResult::TimedOut,
            ).map_values(|outcome: MutantOutcome| outcome.mutant)
            &&& next.cancelled <==> run.cancelled || cancels
            &&& next.settings == run.settings
            &&& next.files == run.files
            &&& run.files[run.current].build_id@.len() > 0 ==> {
                &&& next.current == run.current
                &&& next.stage is Persist
                &&& next.stage->Persist_mutants == mutants
                &&& next.stage->survived == outcomes.filter(
                    |outcome: MutantOutcome| outcome.result == MutationResult::Alive,
                ).map_values(|outcome: MutantOutcome| outcome.mutant.span)
                &&& next.stage->results is Some <==> !cancels && outcomes.len() == mutants.len()
                &&& next.stage->results matches Some(results) ==> {
                    &&& results.to_multiset() == outcomes.to_multiset()
                    &&& results.len() == outcomes.len()
                    &&& forall|i: int, j: int|
                        0 <= i < j < results.len() ==> ({
                            let first = (#[trigger] results[i]).mutant;
                            let second = (#[trigger] results[j]).mutant;
                            first.span.lo < second.span.lo || (first.span.lo == second.span.lo && (
                            first.span.hi < second.span.hi || (first.span.hi == second.span.hi
                                && first.id <= second.id)))
                        })
                }
            }
            &&& run.files[run.current].build_id@.len() == 0 && next.cancelled ==> next.stage
                == StageView::Done && next.current == run.current
            &&& run.files[run.current].build_id@.len() == 0 && !next.cancelled ==> next.current
                == run.current + 1 && next.stage == (if run.current + 1 < run.files.len() {
                StageView::Open
            } else {
                StageView::Done
            })
        }),
{
    law_reports_keep_the_order_of_outcomes(outcomes);
    law_spans_of_survivors(outcomes);
    law_kept_outcomes_are_sorted(outcomes, 0, 0);
    let next = run.after(EventView::Executed { outcomes, interrupted });
    if next.stage is Persist && next.stage->results is Some {
        let results = next.stage->results->0;
        assert forall|i: int, j: int| 0 <= i < j < results.len() implies ({
            let first = (#[trigger] results[i]).mutant;
            let second = (#[trigger] results[j]).mutant;
            first.span.lo < second.span.lo || (first.span.lo == second.span.lo && (first.span.hi
                < second.span.hi || (first.span.hi == second.span.hi && first.id <= second.id)))
        }) by {
            law_kept_outcomes_are_sorted(outcomes, i, j);
        }
    }
}

/// Once a file is kept, a cancelled run is over and any other goes on with the next file.
pub proof fn law_kept_files_are_left(run: RunView)
    requires
        run.stage is Persist,
    ensures
        run.cancelled ==> run.after(EventView::Persisted) == (RunView {
            stage: StageView::Done,
            ..run
        }),
        !run.cancelled ==> run.after(EventView::Persisted) == (RunView {
            current: run.current + 1,
            stage: if run.current + 1 < run.files.len() {
                StageView::Open
            } else {
                StageView::Done
            },
            ..run
        }),
{
}

/// A file that cannot be read, mutants that cannot be generated or run, and a line that cannot be
/// shown where lines are shown end the run where it is.
pub proof fn law_errors_end_the_run(run: RunView)
    ensures
        run.stage is Open || run.stage is Generate || run.stage is Execute ==> run.after(
            EventView::Failed,
        ) == (RunView { stage: StageView::Failed, ..run }),
        !run.settings.show_progress && !run.settings.json_output ==> run.after(
            EventView::LineFailed,
        ) == (RunView { stage: StageView::Failed, ..run }),
        run.settings.show_progress || run.settings.json_output ==> run.after(
            EventView::LineFailed,
        ) == run,
        run.lines_after(EventView::Failed).len() == 0,
        run.lines_after(EventView::LineFailed).len() == 0,
{
}

/// Anything else that is not asked for changes nothing and shows nothing.
pub proof fn law_what_is_not_asked_for_is_ignored(run: RunView, event: EventView)
    requires
        event is Opened ==> run.stage !is Open,
        event is Results ==> run.stage !is LoadResults,
        event is SurvivedSpansLoaded ==> run.stage !is LoadSurvivedSpans,
        event is Mutants ==> run.stage !is LoadMutants,
        event is Generated ==> run.stage !is Generate,
        event is Executed ==> run.stage !is Execute,
        event is Persisted ==> run.stage !is Persist,
        event is Failed ==> run.stage !is Open && run.stage !is Generate && run.stage !is Execute,
        event !is LineFailed,
    ensures
        run.after(event) == run,
        run.lines_after(event).len() == 0,
{
}

/// What is shown when a file is left: what was found in the cache, and the next file where there
/// is one. A run with a progress display or JSON output shows no line at all.
pub proof fn law_lines_tell_what_happens(
    run: RunView,
    event: EventView,
    outcomes: Seq<MutantOutcome>,
    interrupted: bool,
    notice: Notice,
    file: int,
)
    requires
        run.well_formed(),
    ensures
        ({
            let quiet = run.settings.show_progress || run.settings.json_output;
            let upcoming = if run.current + 1 < run.files.len() {
                seq![Notice::File { file: (run.current + 1) as usize }]
            } else {
                Seq::<Notice>::empty()
            };
            &&& quiet ==> run.lines_after(event).len() == 0
            &&& quiet ==> run.told(notice).len() == 0 && run.entering_lines(file).len() == 0
            &&& !quiet ==> run.told(notice) == seq![notice]
            &&& !quiet && file < run.files.len() ==> run.entering_lines(file) == seq![
                Notice::File { file: file as usize },
            ]
            &&& file >= run.files.len() ==> run.entering_lines(file).len() == 0
            &&& !quiet && run.stage is LoadResults ==> run.lines_after(
                EventView::Results(Some(outcomes)),
            ) == seq![Notice::CachedResults { count: outcomes.len() as usize }] + upcoming
            &&& !quiet && run.stage is Execute && run.files[run.current].build_id@.len() == 0
                ==> run.lines_after(EventView::Executed { outcomes, interrupted }) == upcoming
            &&& run.stage is Execute && run.files[run.current].build_id@.len() > 0
                ==> run.lines_after(EventView::Executed { outcomes, interrupted }).len() == 0
            &&& !quiet && run.stage is Persist ==> run.lines_after(EventView::Persisted)
                == upcoming
        }),
{
}

/// A file is opened as itself, with the digest and the contract filter of the run, and its mutants
/// are run as they stand, with the workers, the output mode, the test filter and the isolation
/// flag of the run.
pub proof fn law_files_are_opened_and_run_as_told(
    run: RunView,
    opening: Opening,
    execution: Execution,
)
    ensures
        run.opens_by(opening) ==> {
            &&& run.stage is Open
            &&& opening.file == run.current
            &&& opening.digest == run.settings.digest
            &&& opening.contract_filter is Some <==> run.settings.contract_filter is Some
            &&& opening.contract_filter matches Some(filter) ==> run.settings.contract_filter
                == Some(*filter)
        },
        run.executes_by(execution) ==> {
            &&& run.stage is Execute
            &&& execution.mutants@ == run.stage->Execute_mutants
            &&& execution.file == run.current
            &&& execution.num_workers == run.settings.num_workers
            &&& execution.json_output == run.settings.json_output
            &&& *execution.filter_args == run.settings.filter_args
            &&& execution.isolate == run.settings.isolate
        },
{
}

/// A stage asks for what it holds.
pub proof fn law_stages_are_what_they_hold(
    mutants: Vec<Mutant>,
    results: Vec<MutantOutcome>,
    survived: Vec<Span>,
)
    ensures
        (Stage::Open)@ == StageView::Open,
        (Stage::LoadResults)@ == StageView::LoadResults,
        (Stage::LoadSurvivedSpans)@ == StageView::LoadSurvivedSpans,
        (Stage::LoadMutants)@ == StageView::LoadMutants,
        (Stage::Generate)@ == StageView::Generate,
        (Stage::Execute { mutants })@ == (StageView::Execute { mutants: mutants@ }),
        (Stage::Persist { mutants, results: Some(results), survived })@ == (StageView::Persist {
            mutants: mutants@,
            results: Some(results@),
            survived: survived@,
        }),
        (Stage::Persist { mutants, results: None, survived })@ == (StageView::Persist {
            mutants: mutants@,
            results: None,
            survived: survived@,
        }),
        (Stage::Done)@ == StageView::Done,
        (Stage::Failed)@ == StageView::Failed,
{
}

/// An event tells what it holds.
pub proof fn law_events_are_what_they_hold(
    outcomes: Vec<MutantOutcome>,
    cached: Vec<CachedMutant>,
    mutants: Vec<Mutant>,
    interrupted: bool,
)
    ensures
        (Event::Opened)@ == EventView::Opened,
        (Event::Results(None))@ == EventView::Results(None),
        (Event::Results(Some(outcomes)))@ == EventView::Results(Some(outcomes@)),
        (Event::SurvivedSpansLoaded)@ == EventView::SurvivedSpansLoaded,
        (Event::Mutants(None))@ == EventView::Mutants(None),
        (Event::Mutants(Some(cached)))@ == EventView::Mutants(Some(cached@)),
        (Event::Generated(mutants))@ == EventView::Generated(mutants@),
        (Event::Executed { outcomes, interrupted })@ == (EventView::Executed {
            outcomes: outcomes@,
            interrupted,
        }),
        (Event::Persisted)@ == EventView::Persisted,
        (Event::Failed)@ == EventView::Failed,
        (Event::LineFailed)@ == EventView::LineFailed,
{
}

/// Files are shown by their own paths, each under its number, and only notices of a file name one.
pub proof fn law_files_are_shown_by_their_paths(files: Seq<TargetFile>, notice: Notice)
    ensures
        displays_of(files).len() == files.len(),
        forall|i: int|
            0 <= i < files.len() ==> #[trigger] displays_of(files)[i] == files[i].display@,
        names_one_of(notice, files.len()) <==> {
            &&& notice matches Notice::File { file } ==> file < files.len()
            &&& notice matches Notice::NoMutants { file } ==> file < files.len()
        },
{
}

} // verus!
