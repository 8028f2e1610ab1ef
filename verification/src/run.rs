//! The course of a run, file by file.
//!
//! A [`MutationRun`] says by its stage what has to be done next: read a file, look something up
//! in the cache, generate mutants, run them, keep what came of it. Whoever does it hands the
//! answer to [`MutationRun::advance`], and gets the next stage and the lines to show.

use crate::config::{worker_count, FilterArgs, MutationRunConfig};
use crate::digest::{digest_of, optional_bytes, runtime_context_digest};
use crate::mutant::{
    law_every_mutant_is_run_once, law_kept_outcomes_are_sorted, report_of, sort_mutants,
    sort_outcomes, sorted_mutants, sorted_outcomes, spans_of_survivors, survived_spans, Mutant,
    MutantOutcome, MutationsSummary, Span, SummaryView,
};
use crate::notice::{decimal_text, notice_text, Notice};
use regex::Regex;
use vstd::prelude::*;

verus! {

/// What a run is told once and for all.
pub struct RunSettings {
    /// The number of parallel workers.
    pub num_workers: usize,
    /// Whether to show progress display.
    pub show_progress: bool,
    /// Whether to output JSON (suppress all other output).
    pub json_output: bool,
    /// The digest that the cache entries of every file are tied to.
    pub digest: u64,
    /// Restricts the mutants of every file to contracts whose name matches, where it is given.
    pub contract_filter: Option<Regex>,
    /// Test filter for every mutant.
    pub filter_args: FilterArgs,
    /// EVM isolation flag for every mutant.
    pub isolate: bool,
}

impl RunSettings {
    /// Whether the run tells the user what it does line by line.
    pub open spec fn announces(self) -> bool {
        !self.show_progress && !self.json_output
    }

    /// Whether the run has a progress display, from which it can be cancelled.
    pub open spec fn displays_progress(self) -> bool {
        self.show_progress && !self.json_output
    }
}

/// A file to mutate.
pub struct TargetFile {
    /// Which of the candidates it is.
    pub candidate: usize,
    /// The path as shown to the user.
    pub display: String,
    /// The build that its cache entries belong to; empty if it has none.
    pub build_id: String,
}

/// A mutant of an earlier run.
#[derive(Clone, Copy, Debug, PartialEq, Eq, Structural)]
pub struct CachedMutant {
    /// The mutant.
    pub mutant: Mutant,
    /// Whether the survivors of earlier runs make it uninformative.
    pub skip: bool,
}

/// What has to be done next for the current file.
pub enum Stage {
    /// Read the source.
    Open,
    /// Look up the outcomes of a complete earlier run.
    LoadResults,
    /// Look up the spans in which mutants survived.
    LoadSurvivedSpans,
    /// Look up the mutants of an earlier run.
    LoadMutants,
    /// Generate the mutants.
    Generate,
    /// Run the mutants.
    Execute {
        /// The mutants, in the order in which to run them.
        mutants: Vec<Mutant>,
    },
    /// Keep what came of the file for the next run.
    Persist {
        /// The mutants.
        mutants: Vec<Mutant>,
        /// The outcomes, where they are complete.
        results: Option<Vec<MutantOutcome>>,
        /// The spans in which mutants survived.
        survived: Vec<Span>,
    },
    /// Nothing: the run is over.
    Done,
    /// Nothing: the run came to an error.
    Failed,
}

/// The answer to a stage.
pub enum Event {
    /// The source is read.
    Opened,
    /// The outcomes of a complete earlier run, if there was one.
    Results(Option<Vec<MutantOutcome>>),
    /// The spans in which mutants survived are known.
    SurvivedSpansLoaded,
    /// The mutants of an earlier run, if there was one.
    Mutants(Option<Vec<CachedMutant>>),
    /// The generated mutants.
    Generated(Vec<Mutant>),
    /// The mutants have been run.
    Executed {
        /// The outcomes, in the order in which they came.
        outcomes: Vec<MutantOutcome>,
        /// Whether the user cancelled from the progress display.
        interrupted: bool,
    },
    /// What came of the file is kept, as far as that was possible.
    Persisted,
    /// The source could not be read, or the mutants could not be generated or run.
    Failed,
    /// A line could not be shown. Any stage may find this in a run that shows lines.
    LineFailed,
}

/// The mathematical content of a [`Stage`].
#[verifier::ext_equal]
pub enum StageView {
    Open,
    LoadResults,
    LoadSurvivedSpans,
    LoadMutants,
    Generate,
    Execute { mutants: Seq<Mutant> },
    Persist {
        mutants: Seq<Mutant>,
        results: Option<Seq<MutantOutcome>>,
        survived: Seq<Span>,
    },
    Done,
    Failed,
}

/// The mathematical content of an [`Event`].
#[verifier::ext_equal]
pub enum EventView {
    Opened,
    Results(Option<Seq<MutantOutcome>>),
    SurvivedSpansLoaded,
    Mutants(Option<Seq<CachedMutant>>),
    Generated(Seq<Mutant>),
    Executed { outcomes: Seq<MutantOutcome>, interrupted: bool },
    Persisted,
    Failed,
    LineFailed,
}

impl View for Stage {
    type V = StageView;

    open spec fn view(&self) -> StageView {
        match *self {
            Stage::Open => StageView::Open,
            Stage::LoadResults => StageView::LoadResults,
            Stage::LoadSurvivedSpans => StageView::LoadSurvivedSpans,
            Stage::LoadMutants => StageView::LoadMutants,
            Stage::Generate => StageView::Generate,
            Stage::Execute { mutants } => StageView::Execute { mutants: mutants@ },
            Stage::Persist { mutants, results, survived } => StageView::Persist {
                mutants: mutants@,
                results: match results {
                    Some(results) => Some(results@),
                    None => None,
                },
                survived: survived@,
            },
            Stage::Done => StageView::Done,
            Stage::Failed => StageView::Failed,
        }
    }
}

impl View for Event {
    type V = EventView;

    open spec fn view(&self) -> EventView {
        match *self {
            Event::Opened => EventView::Opened,
            Event::Results(None) => EventView::Results(None),
            Event::Results(Some(outcomes)) => EventView::Results(Some(outcomes@)),
            Event::SurvivedSpansLoaded => EventView::SurvivedSpansLoaded,
            Event::Mutants(None) => EventView::Mutants(None),
            Event::Mutants(Some(mutants)) => EventView::Mutants(Some(mutants@)),
            Event::Generated(mutants) => EventView::Generated(mutants@),
            Event::Executed { outcomes, interrupted } => EventView::Executed {
                outcomes: outcomes@,
                interrupted,
            },
            Event::Persisted => EventView::Persisted,
            Event::Failed => EventView::Failed,
            Event::LineFailed => EventView::LineFailed,
        }
    }
}

/// A run of mutation tests over a list of files.
pub struct MutationRun {
    settings: RunSettings,
    files: Vec<TargetFile>,
    current: usize,
    summary: MutationsSummary,
    cancelled: bool,
    stage: Stage,
}

/// The mathematical content of a [`MutationRun`].
#[verifier::ext_equal]
pub struct RunView {
    /// What the run is told once and for all.
    pub settings: RunSettings,
    /// The files to mutate.
    pub files: Seq<TargetFile>,
    /// The position of the current file, or their number once all are done.
    pub current: int,
    /// The summary so far.
    pub summary: SummaryView,
    /// Whether the user cancelled.
    pub cancelled: bool,
    /// What has to be done next.
    pub stage: StageView,
}

impl View for MutationRun {
    type V = RunView;

    closed spec fn view(&self) -> RunView {
        RunView {
            settings: self.settings,
            files: self.files@,
            current: self.current as int,
            summary: self.summary@,
            cancelled: self.cancelled,
            stage: self.stage@,
        }
    }
}

impl RunView {
    /// What holds of every run:
    /// - a run that is not over and has not failed has a current file;
    /// - a run that is over has done all files or was cancelled;
    /// - only a run with a progress display is cancelled, and then only keeps what it has;
    /// - there is always something to run in a file that is run;
    /// - outcomes are kept of complete, uncancelled files only.
    pub open spec fn well_formed(self) -> bool {
        &&& 0 <= self.current <= self.files.len()
        &&& self.stage !is Done && self.stage !is Failed ==> self.current < self.files.len()
        &&& self.stage is Done ==> self.current == self.files.len() || self.cancelled
        &&& self.cancelled ==> self.settings.displays_progress() && (self.stage is Persist
            || self.stage is Done)
        &&& self.stage matches StageView::Execute { mutants } ==> mutants.len() > 0
        &&& self.stage matches StageView::Persist { mutants, results, .. } ==> {
            &&& mutants.len() > 0
            &&& self.files[self.current].build_id@.len() > 0
            &&& results matches Some(results) ==> results.len() == mutants.len() && !self.cancelled
        }
    }

    /// The lines of a notice in a run that announces what it does.
    pub open spec fn told(self, notice: Notice) -> Seq<Notice> {
        if self.settings.announces() {
            seq![notice]
        } else {
            Seq::empty()
        }
    }

    /// The run with another stage.
    pub open spec fn at(self, stage: StageView) -> RunView {
        RunView { stage, ..self }
    }

    /// The run at the start of the given file, or over where there is none.
    pub open spec fn entering(self, file: int) -> RunView {
        RunView {
            current: file,
            stage: if file < self.files.len() {
                StageView::Open
            } else {
                StageView::Done
            },
            ..self
        }
    }

    /// The lines at the start of the given file.
    pub open spec fn entering_lines(self, file: int) -> Seq<Notice> {
        if file < self.files.len() {
            self.told(Notice::File { file: file as usize })
        } else {
            Seq::empty()
        }
    }

    /// The run with outcomes of the current file added to the summary.
    pub open spec fn tallied(self, outcomes: Seq<MutantOutcome>) -> RunView {
        RunView { summary: self.summary.merged(report_of(outcomes)), ..self }
    }

    /// The run once the mutants of the current file are known: they are run in order, or the
    /// file is left where there are none.
    pub open spec fn with_mutants(self, mutants: Seq<Mutant>) -> RunView {
        if mutants.len() == 0 {
            self.entering(self.current + 1)
        } else {
            self.at(StageView::Execute { mutants: sorted_mutants(mutants) })
        }
    }

    /// The lines once the mutants of the current file are known.
    pub open spec fn with_mutants_lines(self, mutants: Seq<Mutant>) -> Seq<Notice> {
        if mutants.len() == 0 {
            self.told(Notice::NoMutants { file: self.current as usize }) + self.entering_lines(
                self.current + 1,
            )
        } else {
            self.told(Notice::Generated { count: mutants.len() as usize })
        }
    }

    /// The run once the current file is done with: over if the user cancelled, and else at the
    /// next file.
    pub open spec fn leaving(self) -> RunView {
        if self.cancelled {
            self.at(StageView::Done)
        } else {
            self.entering(self.current + 1)
        }
    }

    /// The lines once the current file is done with.
    pub open spec fn leaving_lines(self) -> Seq<Notice> {
        if self.cancelled {
            Seq::empty()
        } else {
            self.entering_lines(self.current + 1)
        }
    }

    /// Whether the user cancelled while the current file was run.
    pub open spec fn file_cancelled(self, interrupted: bool) -> bool {
        self.settings.displays_progress() && interrupted
    }

    /// The run with the outcomes of the current file tallied and the user's cancellation noted.
    pub open spec fn judged(self, outcomes: Seq<MutantOutcome>, interrupted: bool) -> RunView {
        RunView {
            cancelled: self.cancelled || self.file_cancelled(interrupted),
            ..self.tallied(outcomes)
        }
    }

    /// Whether the current file has cache entries.
    pub open spec fn is_cacheable(self) -> bool {
        self.files[self.current].build_id@.len() > 0
    }

    /// What is kept of the current file: its mutants, its outcomes where the run was not
    /// cancelled and every mutant has one, and the spans of its survivors.
    pub open spec fn kept(
        self,
        mutants: Seq<Mutant>,
        outcomes: Seq<MutantOutcome>,
        interrupted: bool,
    ) -> StageView {
        StageView::Persist {
            mutants,
            results: if !self.file_cancelled(interrupted) && outcomes.len() == mutants.len() {
                Some(sorted_outcomes(outcomes))
            } else {
                None
            },
            survived: survived_spans(outcomes),
        }
    }

    /// The run after an event. An event that is not an answer to the stage changes nothing.
    pub open spec fn after(self, event: EventView) -> RunView {
        match (self.stage, event) {
            (StageView::Open, EventView::Opened) => self.at(StageView::LoadResults),
            (StageView::LoadResults, EventView::Results(Some(outcomes))) => self.tallied(
                outcomes,
            ).entering(self.current + 1),
            (StageView::LoadResults, EventView::Results(None)) => self.at(
                StageView::LoadSurvivedSpans,
            ),
            (StageView::LoadSurvivedSpans, EventView::SurvivedSpansLoaded) => self.at(
                StageView::LoadMutants,
            ),
            (StageView::LoadMutants, EventView::Mutants(Some(mutants))) => self.with_mutants(
                unskipped(mutants),
            ),
            (StageView::LoadMutants, EventView::Mutants(None)) => self.at(StageView::Generate),
            (StageView::Generate, EventView::Generated(mutants)) => self.with_mutants(mutants),
            (
                StageView::Execute { mutants },
                EventView::Executed { outcomes, interrupted },
            ) => if self.is_cacheable() {
                self.judged(outcomes, interrupted).at(self.kept(mutants, outcomes, interrupted))
            } else {
                self.judged(outcomes, interrupted).leaving()
            },
            (StageView::Persist { .. }, EventView::Persisted) => self.leaving(),
            (StageView::Open, EventView::Failed) => self.at(StageView::Failed),
            (StageView::Generate, EventView::Failed) => self.at(StageView::Failed),
            (StageView::Execute { .. }, EventView::Failed) => self.at(StageView::Failed),
            (_, EventView::LineFailed) => if self.settings.announces() {
                self.at(StageView::Failed)
            } else {
                self
            },
            _ => self,
        }
    }

    /// The lines to show after an event.
    pub open spec fn lines_after(self, event: EventView) -> Seq<Notice> {
        match (self.stage, event) {
            (StageView::LoadResults, EventView::Results(Some(outcomes))) => self.told(
                Notice::CachedResults { count: outcomes.len() as usize },
            ) + self.entering_lines(self.current + 1),
            (StageView::LoadMutants, EventView::Mutants(Some(mutants))) => self.with_mutants_lines(
                unskipped(mutants),
            ),
            (StageView::Generate, EventView::Generated(mutants)) => self.with_mutants_lines(
                mutants,
            ),
            (
                StageView::Execute { .. },
                EventView::Executed { outcomes, interrupted },
            ) => if self.is_cacheable() {
                Seq::empty()
            } else {
                self.judged(outcomes, interrupted).leaving_lines()
            },
            (StageView::Persist { .. }, EventView::Persisted) => self.leaving_lines(),
            _ => Seq::empty(),
        }
    }
}

/// Whether a mutant of an earlier run is still worth running.
pub open spec fn is_kept() -> spec_fn(CachedMutant) -> bool {
    |cached: CachedMutant| !cached.skip
}

/// The mutants of an earlier run that are still worth running.
pub open spec fn unskipped(cached: Seq<CachedMutant>) -> Seq<Mutant> {
    cached.filter(is_kept()).map_values(|cached: CachedMutant| cached.mutant)
}

/// Filter out mutants whose span already had a survivor in a previous run. Without this, a
/// resumed run would test mutations again that are known to be uninformative.
pub fn drop_skipped(cached: &Vec<CachedMutant>) -> (mutants: Vec<Mutant>)
    ensures
        mutants@ == unskipped(cached@),
{
    let mut mutants: Vec<Mutant> = Vec::new();
    let mut i: usize = 0;
    proof {
        reveal(Seq::filter);
        assert(mutants@ =~= unskipped(cached@.take(0)));
    }
    while i < cached.len()
        invariant
            i <= cached.len(),
            mutants@ == unskipped(cached@.take(i as int)),
        decreases cached.len() - i,
    {
        if !cached[i].skip {
            mutants.push(cached[i].mutant);
        }
        proof {
            reveal(Seq::filter);
            assert(cached@.take(i + 1).drop_last() =~= cached@.take(i as int));
            assert(mutants@ =~= unskipped(cached@.take(i + 1)));
        }
        i = i + 1;
    }
    assert(cached@.take(i as int) =~= cached@);
    mutants
}

/// How long a run took.
#[derive(Clone, Copy, Debug, PartialEq, Eq, Structural)]
pub struct Elapsed {
    /// Whole seconds.
    pub secs: u64,
    /// Nanoseconds beyond them.
    pub nanos: u32,
}

/// Result of a mutation testing run.
pub struct MutationRunResult {
    /// Summary of all mutations across all files.
    pub summary: MutationsSummary,
    /// Whether the run was cancelled (e.g., Ctrl+C).
    pub cancelled: bool,
    /// Duration of the mutation testing run.
    pub duration: Elapsed,
}

/// The settings of a run with the given configuration and serialized EVM options, on a machine
/// that has the given byte order and offers `available`.
pub open spec fn settings_of(
    mutation_config: MutationRunConfig,
    evm_opts: Option<Seq<u8>>,
    big_endian: bool,
    available: Option<usize>,
) -> RunSettings {
    RunSettings {
        num_workers: worker_count(mutation_config.num_workers, available),
        show_progress: mutation_config.show_progress,
        json_output: mutation_config.json_output,
        digest: digest_of(mutation_config, evm_opts, big_endian),
        contract_filter: mutation_config.mutate_contract_pattern,
        filter_args: mutation_config.filter_args,
        isolate: mutation_config.isolate,
    }
}

/// A run before its first file.
pub open spec fn started(settings: RunSettings, files: Seq<TargetFile>) -> RunView {
    RunView {
        settings,
        files,
        current: 0,
        summary: SummaryView::empty(),
        cancelled: false,
        stage: StageView::Done,
    }.entering(0)
}

/// The paths of files as shown to the user.
pub open spec fn displays_of(files: Seq<TargetFile>) -> Seq<Seq<char>> {
    files.map_values(|file: TargetFile| file.display@)
}

impl MutationRun {
    /// Starts a run over `files`, and gives the lines to show before the first stage.
    ///
    /// `evm_opts` are the EVM options serialized as JSON, or `None` if they could not be
    /// serialized. `big_endian` is the byte order of the machine, and `available` the
    /// parallelism that it reports, or `None` if it reports none.
    pub fn start(
        mutation_config: MutationRunConfig,
        evm_opts: Option<&Vec<u8>>,
        big_endian: bool,
        available: Option<usize>,
        files: Vec<TargetFile>,
    ) -> (started_run: (MutationRun, Vec<Notice>))
        ensures
            started_run.0@ == started(
                settings_of(mutation_config, optional_bytes(evm_opts), big_endian, available),
                files@,
            ),
            started_run.0@.well_formed(),
            started_run.1@ == started_run.0@.told(
                Notice::Workers { count: started_run.0@.settings.num_workers },
            ) + started_run.0@.entering_lines(0),
            forall|i: int|
                0 <= i < started_run.1@.len() ==> names_one_of(
                    #[trigger] started_run.1@[i],
                    files@.len(),
                ),
    {
        let num_workers: usize = mutation_config.effective_workers(available);
        let digest: u64 = runtime_context_digest(&mutation_config, evm_opts, big_endian);
        let settings: RunSettings = RunSettings {
            num_workers,
            show_progress: mutation_config.show_progress,
            json_output: mutation_config.json_output,
            digest,
            contract_filter: mutation_config.mutate_contract_pattern,
            filter_args: mutation_config.filter_args,
            isolate: mutation_config.isolate,
        };
        let mut lines: Vec<Notice> = Vec::new();
        let run: MutationRun = MutationRun {
            settings,
            files,
            current: 0,
            summary: MutationsSummary::new(),
            cancelled: false,
            stage: Stage::Done,
        };
        run.tell(&mut lines, Notice::Workers { count: num_workers });
        let run: MutationRun = run.enter(0, &mut lines);
        (run, lines)
    }

    /// Adds a notice to the lines, in a run that announces what it does.
    fn tell(&self, lines: &mut Vec<Notice>, notice: Notice)
        ensures
            final(lines)@ == old(lines)@ + self@.told(notice),
    {
        if !self.settings.show_progress && !self.settings.json_output {
            lines.push(notice);
        }
        assert(lines@ =~= old(lines)@ + self@.told(notice));
    }

    /// Goes to the start of the given file, or ends where there is none.
    fn enter(self, file: usize, lines: &mut Vec<Notice>) -> (run: MutationRun)
        ensures
            run@ == self@.entering(file as int),
            final(lines)@ == old(lines)@ + self@.entering_lines(file as int),
    {
        if file < self.files.len() {
            self.tell(lines, Notice::File { file });
            MutationRun { current: file, stage: Stage::Open, ..self }
        } else {
            assert(lines@ =~= old(lines)@ + self@.entering_lines(file as int));
            MutationRun { current: file, stage: Stage::Done, ..self }
        }
    }

    /// Ends if the user cancelled, and else goes to the next file.
    fn leave(self, lines: &mut Vec<Notice>) -> (run: MutationRun)
        requires
            self@.current < self@.files.len(),
        ensures
            run@ == self@.leaving(),
            final(lines)@ == old(lines)@ + self@.leaving_lines(),
    {
        if self.cancelled {
            assert(lines@ =~= old(lines)@ + self@.leaving_lines());
            MutationRun { stage: Stage::Done, ..self }
        } else {
            assert(self.current < self.files.len());
            let next: usize = self.current + 1;
            self.enter(next, lines)
        }
    }

    /// Goes on to run the mutants of the current file, or leaves it where there are none.
    fn take_up(self, mutants: Vec<Mutant>, lines: &mut Vec<Notice>) -> (run: MutationRun)
        requires
            self@.current < self@.files.len(),
        ensures
            run@ == self@.with_mutants(mutants@),
            final(lines)@ == old(lines)@ + self@.with_mutants_lines(mutants@),
    {
        if mutants.len() == 0 {
            assert(self.current < self.files.len());
            let next: usize = self.current + 1;
            self.tell(lines, Notice::NoMutants { file: self.current });
            let run: MutationRun = self.enter(next, lines);
            assert(lines@ =~= old(lines)@ + self@.with_mutants_lines(mutants@));
            run
        } else {
            let sorted: Vec<Mutant> = sort_mutants(&mutants);
            self.tell(lines, Notice::Generated { count: mutants.len() });
            MutationRun { stage: Stage::Execute { mutants: sorted }, ..self }
        }
    }

    /// Adds outcomes of the current file to the summary.
    fn tally(self, outcomes: &Vec<MutantOutcome>) -> (run: MutationRun)
        ensures
            run@ == self@.tallied(outcomes@),
    {
        let mut summary: MutationsSummary = self.summary;
        summary.merge(MutationsSummary::of_outcomes(outcomes));
        MutationRun { summary, ..self }
    }

    /// Tallies the outcomes of the current file, notes whether the user cancelled, and settles
    /// what is kept. Outcomes are kept only where they are complete: a partial list would be
    /// taken for the full answer by the next run.
    fn judge(
        self,
        mutants: Vec<Mutant>,
        outcomes: Vec<MutantOutcome>,
        interrupted: bool,
        lines: &mut Vec<Notice>,
    ) -> (run: MutationRun)
        requires
            self@.current < self@.files.len(),
        ensures
            run@ == (if self@.is_cacheable() {
                self@.judged(outcomes@, interrupted).at(
                    self@.kept(mutants@, outcomes@, interrupted),
                )
            } else {
                self@.judged(outcomes@, interrupted).leaving()
            }),
            final(lines)@ == old(lines)@ + (if self@.is_cacheable() {
                Seq::empty()
            } else {
                self@.judged(outcomes@, interrupted).leaving_lines()
            }),
    {
        let file_cancelled: bool = self.settings.show_progress && !self.settings.json_output
            && interrupted;
        let complete_run: bool = !file_cancelled && outcomes.len() == mutants.len();
        let cacheable: bool = !self.files[self.current].build_id.as_str().is_empty();
        let cancelled: bool = self.cancelled || file_cancelled;
        let tallied: MutationRun = self.tally(&outcomes);
        let judged: MutationRun = MutationRun { cancelled, ..tallied };
        if cacheable {
            let results: Option<Vec<MutantOutcome>> = if complete_run {
                Some(sort_outcomes(&outcomes))
            } else {
                None
            };
            let survived: Vec<Span> = spans_of_survivors(&outcomes);
            assert(lines@ =~= old(lines)@ + Seq::<Notice>::empty());
            MutationRun { stage: Stage::Persist { mutants, results, survived }, ..judged }
        } else {
            judged.leave(lines)
        }
    }

    /// Takes the answer to the stage, and gives the run at its next stage and the lines to show.
    ///
    /// An event that is no answer to the stage changes nothing.
    pub fn advance(self, event: Event) -> (next: (MutationRun, Vec<Notice>))
        requires
            self@.well_formed(),
        ensures
            next.0@ == self@.after(event@),
            next.0@.well_formed(),
            next.1@ == self@.lines_after(event@),
            forall|i: int|
                0 <= i < next.1@.len() ==> names_one_of(
                    #[trigger] next.1@[i],
                    next.0@.files.len(),
                ),
    {
        proof {
            law_runs_stay_well_formed(self@, event@);
            assert(self.files.len() <= usize::MAX);
            law_lines_name_files_of_the_run(self@, event@);
        }
        let ghost before = self@;
        let mut lines: Vec<Notice> = Vec::new();
        let MutationRun { settings, files, current, summary, cancelled, stage } = self;
        let rest: MutationRun = MutationRun {
            settings,
            files,
            current,
            summary,
            cancelled,
            stage: Stage::Done,
        };
        let run: MutationRun = match (stage, event) {
            (Stage::Open, Event::Opened) => MutationRun { stage: Stage::LoadResults, ..rest },
            (Stage::LoadResults, Event::Results(Some(outcomes))) => {
                rest.tell(&mut lines, Notice::CachedResults { count: outcomes.len() });
                assert(current < rest.files.len());
                rest.tally(&outcomes).enter(current + 1, &mut lines)
            },
            (Stage::LoadResults, Event::Results(None)) => MutationRun {
                stage: Stage::LoadSurvivedSpans,
                ..rest
            },
            (Stage::LoadSurvivedSpans, Event::SurvivedSpansLoaded) => MutationRun {
                stage: Stage::LoadMutants,
                ..rest
            },
            (Stage::LoadMutants, Event::Mutants(Some(cached))) => rest.take_up(
                drop_skipped(&cached),
                &mut lines,
            ),
            (Stage::LoadMutants, Event::Mutants(None)) => MutationRun {
                stage: Stage::Generate,
                ..rest
            },
            (Stage::Generate, Event::Generated(mutants)) => rest.take_up(mutants, &mut lines),
            (Stage::Execute { mutants }, Event::Executed { outcomes, interrupted }) => rest.judge(
                mutants,
                outcomes,
                interrupted,
                &mut lines,
            ),
            (Stage::Persist { .. }, Event::Persisted) => rest.leave(&mut lines),
            (Stage::Open, Event::Failed) => MutationRun { stage: Stage::Failed, ..rest },
            (Stage::Generate, Event::Failed) => MutationRun { stage: Stage::Failed, ..rest },
            (Stage::Execute { .. }, Event::Failed) => MutationRun { stage: Stage::Failed, ..rest },
            (stage, Event::LineFailed) => {
                if !rest.settings.show_progress && !rest.settings.json_output {
                    MutationRun { stage: Stage::Failed, ..rest }
                } else {
                    MutationRun { stage, ..rest }
                }
            },
            (stage, _) => MutationRun { stage, ..rest },
        };
        assert(lines@ =~= before.lines_after(event@));
        (run, lines)
    }
}

/// How the current file is opened.
pub struct Opening<'a> {
    /// Which of the files.
    pub file: usize,
    /// The digest that its cache entries are tied to.
    pub digest: u64,
    /// Restricts its mutants to contracts whose name matches, where it is given.
    pub contract_filter: Option<&'a Regex>,
}

/// How the mutants of the current file are run.
pub struct Execution<'a> {
    /// Which of the files.
    pub file: usize,
    /// The mutants, in the order in which to run them.
    pub mutants: &'a Vec<Mutant>,
    /// The number of parallel workers.
    pub num_workers: usize,
    /// Whether to output JSON (suppress all other output).
    pub json_output: bool,
    /// Test filter for every mutant.
    pub filter_args: &'a FilterArgs,
    /// EVM isolation flag for every mutant.
    pub isolate: bool,
}

/// The expression of an optional reference.
pub open spec fn optional_regex(pattern: Option<&Regex>) -> Option<Regex> {
    match pattern {
        Some(pattern) => Some(*pattern),
        None => None,
    }
}

impl RunView {
    /// Whether this is how the run opens its current file.
    pub open spec fn opens_by(self, opening: Opening) -> bool {
        &&& self.stage is Open
        &&& opening.file == self.current
        &&& opening.digest == self.settings.digest
        &&& optional_regex(opening.contract_filter) == self.settings.contract_filter
    }

    /// Whether this is how the run has the mutants of its current file run.
    pub open spec fn executes_by(self, execution: Execution) -> bool {
        &&& self.stage == (StageView::Execute { mutants: execution.mutants@ })
        &&& execution.file == self.current
        &&& execution.num_workers == self.settings.num_workers
        &&& execution.json_output == self.settings.json_output
        &&& *execution.filter_args == self.settings.filter_args
        &&& execution.isolate == self.settings.isolate
    }
}

impl MutationRun {
    /// How to open the current file, where that is what has to be done next.
    pub fn opening(&self) -> (opening: Option<Opening<'_>>)
        ensures
            opening is Some <==> self@.stage is Open,
            opening matches Some(opening) ==> self@.opens_by(opening),
    {
        match &self.stage {
            Stage::Open => Some(
                Opening {
                    file: self.current,
                    digest: self.settings.digest,
                    contract_filter: match &self.settings.contract_filter {
                        Some(filter) => Some(filter),
                        None => None,
                    },
                },
            ),
            _ => None,
        }
    }

    /// How to run the mutants of the current file, where that is what has to be done next.
    pub fn execution(&self) -> (execution: Option<Execution<'_>>)
        ensures
            execution is Some <==> self@.stage is Execute,
            execution matches Some(execution) ==> self@.executes_by(execution),
    {
        match &self.stage {
            Stage::Execute { mutants } => Some(
                Execution {
                    file: self.current,
                    mutants,
                    num_workers: self.settings.num_workers,
                    json_output: self.settings.json_output,
                    filter_args: &self.settings.filter_args,
                    isolate: self.settings.isolate,
                },
            ),
            _ => None,
        }
    }

    /// The current file, whose build id every lookup and everything kept goes by; `None` once
    /// all files are done.
    pub fn current_file(&self) -> (file: Option<&TargetFile>)
        ensures
            file is Some <==> 0 <= self@.current < self@.files.len(),
            file matches Some(file) ==> *file == self@.files[self@.current],
    {
        if self.current < self.files.len() {
            Some(&self.files[self.current])
        } else {
            None
        }
    }
}

/// Whether the file that a notice names, if it names one, is among `count` files.
pub open spec fn names_one_of(notice: Notice, count: nat) -> bool {
    match notice {
        Notice::File { file } => file < count,
        Notice::NoMutants { file } => file < count,
        _ => true,
    }
}

impl MutationRun {
    /// The settings of the run.
    pub fn settings(&self) -> (settings: &RunSettings)
        ensures
            *settings == self@.settings,
    {
        &self.settings
    }

    /// The files of the run.
    pub fn files(&self) -> (files: &Vec<TargetFile>)
        ensures
            files@ == self@.files,
    {
        &self.files
    }

    /// The position of the current file, or the number of files once all are done.
    pub fn current(&self) -> (current: usize)
        ensures
            current == self@.current,
    {
        self.current
    }

    /// What has to be done next.
    pub fn stage(&self) -> (stage: &Stage)
        ensures
            stage@ == self@.stage,
    {
        &self.stage
    }

    /// Whether mutants are run under a progress display.
    pub fn displays_progress(&self) -> (displays: bool)
        ensures
            displays == self@.settings.displays_progress(),
    {
        self.settings.show_progress && !self.settings.json_output
    }

    /// Whether the summary is shown to the user: once the run is over, unless it failed or its
    /// output is JSON.
    pub fn shows_report(&self) -> (shows: bool)
        ensures
            shows == (self@.stage is Done && !self@.settings.json_output),
    {
        match &self.stage {
            Stage::Done => !self.settings.json_output,
            _ => false,
        }
    }

    /// The line for a notice.
    pub fn line_for(&self, notice: Notice) -> (line: String)
        requires
            names_one_of(notice, self@.files.len()),
        ensures
            line@ == notice_text(notice, displays_of(self@.files)),
    {
        match notice {
            Notice::Workers { count } => "Running mutation tests with ".to_owned().concat(
                decimal_text(count).as_str(),
            ).concat(" parallel workers..."),
            Notice::File { file } => "Running mutation tests for ".to_owned().concat(
                self.files[file].display.as_str(),
            ),
            Notice::CachedResults { count } => "  Using cached results for ".to_owned().concat(
                decimal_text(count).as_str(),
            ).concat(" mutants"),
            Notice::NoMutants { file } => "  No mutants generated for ".to_owned().concat(
                self.files[file].display.as_str(),
            ),
            Notice::Generated { count } => "  Generated ".to_owned().concat(
                decimal_text(count).as_str(),
            ).concat(" mutants, testing in parallel..."),
        }
    }

    /// The result of the run, which took the given time. A run that failed has none, nor has one
    /// that is not over.
    pub fn finish(self, duration: Elapsed) -> (result: Option<MutationRunResult>)
        ensures
            result is Some <==> self@.stage is Done,
            result matches Some(result) ==> {
                &&& result.summary@ == self@.summary
                &&& result.cancelled == self@.cancelled
                &&& result.duration == duration
            },
    {
        match self.stage {
            Stage::Done => Some(
                MutationRunResult { summary: self.summary, cancelled: self.cancelled, duration },
            ),
            _ => None,
        }
    }
}

/// No event breaks what holds of every run.
pub proof fn law_runs_stay_well_formed(run: RunView, event: EventView)
    requires
        run.well_formed(),
    ensures
        run.after(event).well_formed(),
{
    match (run.stage, event) {
        (StageView::Execute { mutants }, EventView::Executed { outcomes, .. }) => {
            law_kept_outcomes_are_sorted(outcomes, 0, 0);
        },
        (StageView::LoadMutants, EventView::Mutants(Some(cached))) => {
            law_every_mutant_is_run_once(unskipped(cached));
        },
        (StageView::Generate, EventView::Generated(mutants)) => {
            law_every_mutant_is_run_once(mutants);
        },
        _ => {},
    }
}

/// The lines of a run name no files but its own.
pub proof fn law_lines_name_files_of_the_run(run: RunView, event: EventView)
    requires
        run.well_formed(),
        run.files.len() <= usize::MAX,
    ensures
        forall|i: int|
            0 <= i < run.lines_after(event).len() ==> names_one_of(
                #[trigger] run.lines_after(event)[i],
                run.files.len(),
            ),
{
}

} // verus!
