//! Mutants, what became of them, and the tally of a run.

use crate::order::{
    has_key, law_sorted_by_key, law_sorting_forgets_arrival_of_identified_items,
    law_sorting_is_stable, law_sorting_keeps_the_items, sort_by_keys, stable_sorted, Key,
};
use vstd::prelude::*;
use vstd::seq_lib::{
    lemma_multiset_commutative, to_multiset_build, to_multiset_contains, to_multiset_len,
    to_multiset_remove,
};

verus! {

/// A range of source text.
#[derive(Clone, Copy, Debug, PartialEq, Eq, Structural)]
pub struct Span {
    /// Where the range starts.
    pub lo: u32,
    /// Where the range ends.
    pub hi: u32,
}

/// A mutation of one file: the source text that it replaces, and the number under which the rest
/// of it is kept.
#[derive(Clone, Copy, Debug, PartialEq, Eq, Structural)]
pub struct Mutant {
    /// The replaced text.
    pub span: Span,
    /// The number of the mutant, which an outcome of it has too.
    pub id: usize,
}

/// What became of a mutant.
#[derive(Clone, Copy, Debug, PartialEq, Eq, Structural)]
pub enum MutationResult {
    /// A test failed on it.
    Dead,
    /// All tests passed on it.
    Alive,
    /// It did not compile.
    Invalid,
    /// It was not run.
    Skipped,
    /// Its tests did not come to an end in time.
    TimedOut,
}

/// A mutant and what became of it.
#[derive(Clone, Copy, Debug, PartialEq, Eq, Structural)]
pub struct MutantOutcome {
    /// The mutant.
    pub mutant: Mutant,
    /// What became of it.
    pub result: MutationResult,
}

/// The key by which mutants are run: from the start of the file, and of those that start
/// together the widest first.
pub open spec fn mutant_key() -> spec_fn(Mutant) -> Key {
    |mutant: Mutant| (mutant.span.lo, (u32::MAX - mutant.span.hi) as u32, 0usize, 0u8)
}

/// The place of a result among outcomes of the same mutant.
pub open spec fn rank(result: MutationResult) -> u8 {
    match result {
        MutationResult::Dead => 0,
        MutationResult::Alive => 1,
        MutationResult::Invalid => 2,
        MutationResult::Skipped => 3,
        MutationResult::TimedOut => 4,
    }
}

/// The key by which outcomes are kept: by their span, and where that is the same by the number
/// of the mutant and the result, which leave nothing to the order in which the outcomes came.
pub open spec fn outcome_key() -> spec_fn(MutantOutcome) -> Key {
    |outcome: MutantOutcome|
        (
            outcome.mutant.span.lo,
            outcome.mutant.span.hi,
            outcome.mutant.id,
            rank(outcome.result),
        )
}

/// Whether a mutant of the span `a` may run before one of the span `b`: it starts earlier, or
/// starts with it and reaches as far or further.
pub open spec fn runs_no_later(a: Span, b: Span) -> bool {
    a.lo < b.lo || (a.lo == b.lo && a.hi >= b.hi)
}

/// Whether an outcome of the span `a` may be kept before one of the span `b`: it starts earlier,
/// or starts with it and reaches as far or less far.
pub open spec fn is_kept_no_later(a: Span, b: Span) -> bool {
    a.lo < b.lo || (a.lo == b.lo && a.hi <= b.hi)
}

/// Mutants in the order in which they are run.
pub open spec fn sorted_mutants(mutants: Seq<Mutant>) -> Seq<Mutant> {
    stable_sorted(mutants, mutant_key())
}

/// Outcomes in the order in which they are kept.
pub open spec fn sorted_outcomes(outcomes: Seq<MutantOutcome>) -> Seq<MutantOutcome> {
    stable_sorted(outcomes, outcome_key())
}

/// Sort mutants by span for optimal adaptive testing: where one span lies in another, the outer
/// one is tried first.
pub fn sort_mutants(mutants: &Vec<Mutant>) -> (sorted: Vec<Mutant>)
    ensures
        sorted@ == sorted_mutants(mutants@),
        sorted@.to_multiset() == mutants@.to_multiset(),
        sorted@.len() == mutants@.len(),
        forall|i: int, j: int|
            0 <= i < j < sorted@.len() ==> runs_no_later(
                (#[trigger] sorted@[i]).span,
                (#[trigger] sorted@[j]).span,
            ),
{
    let mut keys: Vec<Key> = Vec::new();
    let mut i: usize = 0;
    while i < mutants.len()
        invariant
            i <= mutants.len(),
            keys@ =~= mutants@.take(i as int).map_values(mutant_key()),
        decreases mutants.len() - i,
    {
        let span: Span = mutants[i].span;
        keys.push((span.lo, u32::MAX - span.hi, 0, 0));
        i = i + 1;
    }
    assert(mutants@.take(i as int) =~= mutants@);
    let sorted: Vec<Mutant> = sort_by_keys(mutants, &keys);
    proof {
        law_every_mutant_is_run_once(mutants@);
        assert forall|i: int, j: int| 0 <= i < j < sorted@.len() implies runs_no_later(
            (#[trigger] sorted@[i]).span,
            (#[trigger] sorted@[j]).span,
        ) by {
            law_outer_spans_run_first(mutants@, i, j);
        }
    }
    sorted
}

/// The place of a result among outcomes of the same mutant.
fn rank_of(result: MutationResult) -> (place: u8)
    ensures
        place == rank(result),
{
    match result {
        MutationResult::Dead => 0,
        MutationResult::Alive => 1,
        MutationResult::Invalid => 2,
        MutationResult::Skipped => 3,
        MutationResult::TimedOut => 4,
    }
}

/// Sort outcomes by span, mutant and result, so that what is kept does not follow the order in
/// which workers came to an end.
pub fn sort_outcomes(outcomes: &Vec<MutantOutcome>) -> (sorted: Vec<MutantOutcome>)
    ensures
        sorted@ == sorted_outcomes(outcomes@),
        sorted@.to_multiset() == outcomes@.to_multiset(),
        sorted@.len() == outcomes@.len(),
        forall|i: int, j: int|
            0 <= i < j < sorted@.len() ==> is_kept_no_later(
                (#[trigger] sorted@[i]).mutant.span,
                (#[trigger] sorted@[j]).mutant.span,
            ),
{
    let mut keys: Vec<Key> = Vec::new();
    let mut i: usize = 0;
    while i < outcomes.len()
        invariant
            i <= outcomes.len(),
            keys@ =~= outcomes@.take(i as int).map_values(outcome_key()),
        decreases outcomes.len() - i,
    {
        let outcome: MutantOutcome = outcomes[i];
        let span: Span = outcome.mutant.span;
        keys.push((span.lo, span.hi, outcome.mutant.id, rank_of(outcome.result)));
        i = i + 1;
    }
    assert(outcomes@.take(i as int) =~= outcomes@);
    let sorted: Vec<MutantOutcome> = sort_by_keys(outcomes, &keys);
    proof {
        law_kept_outcomes_are_sorted(outcomes@, 0, 0);
        assert forall|i: int, j: int| 0 <= i < j < sorted@.len() implies is_kept_no_later(
            (#[trigger] sorted@[i]).mutant.span,
            (#[trigger] sorted@[j]).mutant.span,
        ) by {
            law_kept_outcomes_are_sorted(outcomes@, i, j);
        }
    }
    sorted
}

/// Sorting runs every mutant once, and none that was not there.
pub proof fn law_every_mutant_is_run_once(mutants: Seq<Mutant>)
    ensures
        sorted_mutants(mutants).to_multiset() == mutants.to_multiset(),
        sorted_mutants(mutants).len() == mutants.len(),
{
    law_sorting_keeps_the_items(mutants, mutant_key());
}

/// A mutant never runs before one that starts earlier, nor before one that starts with it and
/// reaches further.
pub proof fn law_outer_spans_run_first(mutants: Seq<Mutant>, i: int, j: int)
    requires
        0 <= i < j < mutants.len(),
    ensures
        sorted_mutants(mutants).len() == mutants.len(),
        runs_no_later(sorted_mutants(mutants)[i].span, sorted_mutants(mutants)[j].span),
        ({
            let first = sorted_mutants(mutants)[i].span;
            let second = sorted_mutants(mutants)[j].span;
            first.lo < second.lo || (first.lo == second.lo && first.hi >= second.hi)
        }),
{
    law_sorted_by_key(mutants, mutant_key(), i, j);
}

/// Kept outcomes are those that came, in ascending order of their spans.
pub proof fn law_kept_outcomes_are_sorted(outcomes: Seq<MutantOutcome>, i: int, j: int)
    ensures
        sorted_outcomes(outcomes).to_multiset() == outcomes.to_multiset(),
        sorted_outcomes(outcomes).len() == outcomes.len(),
        0 <= i < j < outcomes.len() ==> is_kept_no_later(
            sorted_outcomes(outcomes)[i].mutant.span,
            sorted_outcomes(outcomes)[j].mutant.span,
        ),
        0 <= i < j < outcomes.len() ==> ({
            let first = sorted_outcomes(outcomes)[i].mutant;
            let second = sorted_outcomes(outcomes)[j].mutant;
            first.span.lo < second.span.lo || (first.span.lo == second.span.lo && (first.span.hi
                < second.span.hi || (first.span.hi == second.span.hi && first.id <= second.id)))
        }),
{
    law_sorting_keeps_the_items(outcomes, outcome_key());
    if 0 <= i < j < outcomes.len() {
        law_sorted_by_key(outcomes, outcome_key(), i, j);
    }
}

/// Kept outcomes do not depend on the order in which workers came to an end.
pub proof fn law_kept_outcomes_forget_completion_order(
    a: Seq<MutantOutcome>,
    b: Seq<MutantOutcome>,
)
    requires
        a.to_multiset() == b.to_multiset(),
    ensures
        sorted_outcomes(a) == sorted_outcomes(b),
{
    law_sorting_forgets_arrival_of_identified_items(a, b, outcome_key());
}

/// The mathematical content of a [`MutationsSummary`].
#[verifier::ext_equal]
pub struct SummaryView {
    pub dead: Seq<Mutant>,
    pub survived: Seq<Mutant>,
    pub invalid: Seq<Mutant>,
    pub skipped: Seq<Mutant>,
    pub timed_out: Seq<Mutant>,
}

impl SummaryView {
    /// The summary of no mutant.
    pub open spec fn empty() -> SummaryView {
        SummaryView {
            dead: Seq::empty(),
            survived: Seq::empty(),
            invalid: Seq::empty(),
            skipped: Seq::empty(),
            timed_out: Seq::empty(),
        }
    }

    /// Both summaries, one after the other.
    pub open spec fn merged(self, other: SummaryView) -> SummaryView {
        SummaryView {
            dead: self.dead + other.dead,
            survived: self.survived + other.survived,
            invalid: self.invalid + other.invalid,
            skipped: self.skipped + other.skipped,
            timed_out: self.timed_out + other.timed_out,
        }
    }

    /// Whether both summaries hold the same mutants under each result, in whatever order.
    pub open spec fn same_mutants(self, other: SummaryView) -> bool {
        &&& self.dead.to_multiset() == other.dead.to_multiset()
        &&& self.survived.to_multiset() == other.survived.to_multiset()
        &&& self.invalid.to_multiset() == other.invalid.to_multiset()
        &&& self.skipped.to_multiset() == other.skipped.to_multiset()
        &&& self.timed_out.to_multiset() == other.timed_out.to_multiset()
    }

    /// The number of mutants in the summary.
    pub open spec fn total(self) -> nat {
        self.dead.len() + self.survived.len() + self.invalid.len() + self.skipped.len()
            + self.timed_out.len()
    }
}

/// Whether an outcome has the given result.
pub open spec fn has_result(result: MutationResult) -> spec_fn(MutantOutcome) -> bool {
    |outcome: MutantOutcome| outcome.result == result
}

/// The mutant of an outcome.
pub open spec fn mutant_of() -> spec_fn(MutantOutcome) -> Mutant {
    |outcome: MutantOutcome| outcome.mutant
}

/// The mutants with the given result, in the order of their outcomes.
pub open spec fn mutants_with(outcomes: Seq<MutantOutcome>, result: MutationResult) -> Seq<
    Mutant,
> {
    outcomes.filter(has_result(result)).map_values(mutant_of())
}

/// The summary of outcomes: every mutant under its result.
pub open spec fn report_of(outcomes: Seq<MutantOutcome>) -> SummaryView {
    SummaryView {
        dead: mutants_with(outcomes, MutationResult::Dead),
        survived: mutants_with(outcomes, MutationResult::Alive),
        invalid: mutants_with(outcomes, MutationResult::Invalid),
        skipped: mutants_with(outcomes, MutationResult::Skipped),
        timed_out: mutants_with(outcomes, MutationResult::TimedOut),
    }
}

/// The spans of the mutants that survived, in the order of their outcomes.
pub open spec fn survived_spans(outcomes: Seq<MutantOutcome>) -> Seq<Span> {
    mutants_with(outcomes, MutationResult::Alive).map_values(|mutant: Mutant| mutant.span)
}

/// Summary of mutations across files.
pub struct MutationsSummary {
    /// Mutants that a test caught.
    pub dead: Vec<Mutant>,
    /// Mutants that no test caught.
    pub survived: Vec<Mutant>,
    /// Mutants that did not compile.
    pub invalid: Vec<Mutant>,
    /// Mutants that were not run.
    pub skipped: Vec<Mutant>,
    /// Mutants whose tests did not come to an end in time.
    pub timed_out: Vec<Mutant>,
}

impl View for MutationsSummary {
    type V = SummaryView;

    open spec fn view(&self) -> SummaryView {
        SummaryView {
            dead: self.dead@,
            survived: self.survived@,
            invalid: self.invalid@,
            skipped: self.skipped@,
            timed_out: self.timed_out@,
        }
    }
}

/// One more outcome adds its mutant to those of its result and to no other.
proof fn lemma_one_more_outcome(
    outcomes: Seq<MutantOutcome>,
    outcome: MutantOutcome,
    result: MutationResult,
)
    ensures
        mutants_with(outcomes.push(outcome), result) == if outcome.result == result {
            mutants_with(outcomes, result).push(outcome.mutant)
        } else {
            mutants_with(outcomes, result)
        },
{
    reveal(Seq::filter);
    assert(outcomes.push(outcome).drop_last() =~= outcomes);
    assert(mutants_with(outcomes.push(outcome), result) =~= if outcome.result == result {
        mutants_with(outcomes, result).push(outcome.mutant)
    } else {
        mutants_with(outcomes, result)
    });
}

impl MutationsSummary {
    /// The summary of no mutant.
    pub fn new() -> (summary: MutationsSummary)
        ensures
            summary@ == SummaryView::empty(),
    {
        MutationsSummary {
            dead: Vec::new(),
            survived: Vec::new(),
            invalid: Vec::new(),
            skipped: Vec::new(),
            timed_out: Vec::new(),
        }
    }

    /// Puts the mutant of one more outcome under its result.
    pub fn record(&mut self, outcome: MutantOutcome)
        ensures
            final(self)@ == old(self)@.merged(report_of(seq![outcome])),
    {
        match outcome.result {
            MutationResult::Dead => self.dead.push(outcome.mutant),
            MutationResult::Alive => self.survived.push(outcome.mutant),
            MutationResult::Invalid => self.invalid.push(outcome.mutant),
            MutationResult::Skipped => self.skipped.push(outcome.mutant),
            MutationResult::TimedOut => self.timed_out.push(outcome.mutant),
        }
        proof {
            law_no_outcomes_report_nothing();
            let none = Seq::<MutantOutcome>::empty();
            assert(none.push(outcome) =~= seq![outcome]);
            lemma_one_more_outcome(none, outcome, MutationResult::Dead);
            lemma_one_more_outcome(none, outcome, MutationResult::Alive);
            lemma_one_more_outcome(none, outcome, MutationResult::Invalid);
            lemma_one_more_outcome(none, outcome, MutationResult::Skipped);
            lemma_one_more_outcome(none, outcome, MutationResult::TimedOut);
            assert(self@ =~= old(self)@.merged(report_of(seq![outcome])));
        }
    }

    /// The summary of one file's outcomes.
    pub fn of_outcomes(outcomes: &Vec<MutantOutcome>) -> (summary: MutationsSummary)
        ensures
            summary@ == report_of(outcomes@),
    {
        let mut summary: MutationsSummary = MutationsSummary::new();
        proof {
            law_no_outcomes_report_nothing();
        }
        let mut i: usize = 0;
        while i < outcomes.len()
            invariant
                i <= outcomes.len(),
                summary@ == report_of(outcomes@.take(i as int)),
            decreases outcomes.len() - i,
        {
            summary.record(outcomes[i]);
            proof {
                let done = outcomes@.take(i as int);
                let one = seq![outcomes@[i as int]];
                law_reports_add_up(done, one);
                assert(outcomes@.take(i + 1) =~= done + one);
            }
            i = i + 1;
        }
        assert(outcomes@.take(i as int) =~= outcomes@);
        summary
    }

    /// Adds the mutants of another summary behind those of this one.
    pub fn merge(&mut self, other: MutationsSummary)
        ensures
            final(self)@ == old(self)@.merged(other@),
    {
        let mut other = other;
        self.dead.append(&mut other.dead);
        self.survived.append(&mut other.survived);
        self.invalid.append(&mut other.invalid);
        self.skipped.append(&mut other.skipped);
        self.timed_out.append(&mut other.timed_out);
    }
}

/// The spans of the mutants that survived.
pub fn spans_of_survivors(outcomes: &Vec<MutantOutcome>) -> (spans: Vec<Span>)
    ensures
        spans@ == survived_spans(outcomes@),
{
    let mut spans: Vec<Span> = Vec::new();
    let mut i: usize = 0;
    proof {
        law_no_outcomes_report_nothing();
        assert(outcomes@.take(0) =~= Seq::<MutantOutcome>::empty());
        assert(spans@ =~= survived_spans(outcomes@.take(0)));
    }
    while i < outcomes.len()
        invariant
            i <= outcomes.len(),
            spans@ == survived_spans(outcomes@.take(i as int)),
        decreases outcomes.len() - i,
    {
        let outcome: MutantOutcome = outcomes[i];
        if outcome.result == MutationResult::Alive {
            spans.push(outcome.mutant.span);
        }
        proof {
            let done = outcomes@.take(i as int);
            lemma_one_more_outcome(done, outcome, MutationResult::Alive);
            assert(outcomes@.take(i + 1) =~= done.push(outcome));
            assert(spans@ =~= survived_spans(outcomes@.take(i + 1)));
        }
        i = i + 1;
    }
    assert(outcomes@.take(i as int) =~= outcomes@);
    spans
}

/// No outcomes make an empty summary.
pub proof fn law_no_outcomes_report_nothing()
    ensures
        report_of(Seq::empty()) == SummaryView::empty(),
{
    reveal(Seq::filter);
    assert(report_of(Seq::empty()) =~= SummaryView::empty());
}

/// The summary of outcomes one after the other is their summaries merged.
pub proof fn law_reports_add_up(a: Seq<MutantOutcome>, b: Seq<MutantOutcome>)
    ensures
        report_of(a + b) == report_of(a).merged(report_of(b)),
{
    lemma_mutants_with_add_up(a, b, MutationResult::Dead);
    lemma_mutants_with_add_up(a, b, MutationResult::Alive);
    lemma_mutants_with_add_up(a, b, MutationResult::Invalid);
    lemma_mutants_with_add_up(a, b, MutationResult::Skipped);
    lemma_mutants_with_add_up(a, b, MutationResult::TimedOut);
}

/// The mutants with one result, of outcomes one after the other.
proof fn lemma_mutants_with_add_up(
    a: Seq<MutantOutcome>,
    b: Seq<MutantOutcome>,
    result: MutationResult,
)
    ensures
        mutants_with(a + b, result) == mutants_with(a, result) + mutants_with(b, result),
{
    Seq::filter_distributes_over_add(a, b, has_result(result));
    assert(mutants_with(a + b, result) =~= mutants_with(a, result) + mutants_with(b, result));
}

/// Every outcome is counted under one result and under no other.
pub proof fn law_every_outcome_is_counted_once(outcomes: Seq<MutantOutcome>)
    ensures
        report_of(outcomes).total() == outcomes.len(),
    decreases outcomes.len(),
{
    law_no_outcomes_report_nothing();
    if outcomes.len() == 0 {
        assert(outcomes =~= Seq::empty());
    } else {
        let shorter = outcomes.drop_last();
        let last = outcomes.last();
        law_every_outcome_is_counted_once(shorter);
        assert(outcomes =~= shorter.push(last));
        lemma_one_more_outcome(shorter, last, MutationResult::Dead);
        lemma_one_more_outcome(shorter, last, MutationResult::Alive);
        lemma_one_more_outcome(shorter, last, MutationResult::Invalid);
        lemma_one_more_outcome(shorter, last, MutationResult::Skipped);
        lemma_one_more_outcome(shorter, last, MutationResult::TimedOut);
    }
}

/// The order of outcomes does not matter to which mutants have a result.
proof fn lemma_mutants_with_any_order(
    a: Seq<MutantOutcome>,
    b: Seq<MutantOutcome>,
    result: MutationResult,
)
    requires
        a.to_multiset() == b.to_multiset(),
    ensures
        mutants_with(a, result).to_multiset() == mutants_with(b, result).to_multiset(),
    decreases a.len(),
{
    to_multiset_len(a);
    to_multiset_len(b);
    if a.len() == 0 {
        assert(a =~= b);
    } else {
        let shorter = a.drop_last();
        let last = a.last();
        let one = seq![last];
        assert(a.contains(last));
        to_multiset_contains(a, last);
        to_multiset_contains(b, last);
        let at = choose|k: int| 0 <= k < b.len() && b[k] == last;
        let rest = b.remove(at);
        let head = b.take(at);
        let tail = b.skip(at + 1);
        assert(a =~= shorter.push(last));
        to_multiset_build(shorter, last);
        to_multiset_remove(b, at);
        assert(rest.to_multiset() =~= shorter.to_multiset());
        lemma_mutants_with_any_order(shorter, rest, result);
        assert(a =~= shorter + one);
        assert(b =~= head + one + tail);
        assert(rest =~= head + tail);
        lemma_mutants_with_add_up(shorter, one, result);
        lemma_mutants_with_add_up(head + one, tail, result);
        lemma_mutants_with_add_up(head, one, result);
        lemma_mutants_with_add_up(head, tail, result);
        let (s, o) = (mutants_with(shorter, result), mutants_with(one, result));
        let (h, t) = (mutants_with(head, result), mutants_with(tail, result));
        lemma_multiset_commutative(s, o);
        lemma_multiset_commutative(h + o, t);
        lemma_multiset_commutative(h, o);
        lemma_multiset_commutative(h, t);
        assert((s + o).to_multiset() =~= (h + o + t).to_multiset());
    }
}

/// The same outcomes report the same mutants under the same results, in whatever order they came.
pub proof fn law_reports_forget_completion_order(a: Seq<MutantOutcome>, b: Seq<MutantOutcome>)
    requires
        a.to_multiset() == b.to_multiset(),
    ensures
        report_of(a).same_mutants(report_of(b)),
        report_of(a).total() == report_of(b).total(),
{
    lemma_mutants_with_any_order(a, b, MutationResult::Dead);
    lemma_mutants_with_any_order(a, b, MutationResult::Alive);
    lemma_mutants_with_any_order(a, b, MutationResult::Invalid);
    lemma_mutants_with_any_order(a, b, MutationResult::Skipped);
    lemma_mutants_with_any_order(a, b, MutationResult::TimedOut);
    to_multiset_len(a);
    to_multiset_len(b);
    law_every_outcome_is_counted_once(a);
    law_every_outcome_is_counted_once(b);
}

/// Outcomes are kept without loss: the kept outcomes report the same mutants under the same
/// results as the outcomes that came.
pub proof fn law_kept_outcomes_report_the_same(outcomes: Seq<MutantOutcome>)
    ensures
        report_of(sorted_outcomes(outcomes)).same_mutants(report_of(outcomes)),
        report_of(sorted_outcomes(outcomes)).total() == report_of(outcomes).total(),
{
    law_kept_outcomes_are_sorted(outcomes, 0, 0);
    law_reports_forget_completion_order(sorted_outcomes(outcomes), outcomes);
}

/// Merging loses and invents no mutant, adds nothing for an empty summary, and may be done from
/// either end.
pub proof fn law_merging_summaries(a: SummaryView, b: SummaryView, c: SummaryView)
    ensures
        a.merged(b).dead == a.dead + b.dead,
        a.merged(b).survived == a.survived + b.survived,
        a.merged(b).invalid == a.invalid + b.invalid,
        a.merged(b).skipped == a.skipped + b.skipped,
        a.merged(b).timed_out == a.timed_out + b.timed_out,
        a.merged(b).total() == a.total() + b.total(),
        a.merged(SummaryView::empty()) == a,
        SummaryView::empty().merged(a) == a,
        a.merged(b).merged(c) == a.merged(b.merged(c)),
{
    assert(a.merged(SummaryView::empty()) =~= a);
    assert(SummaryView::empty().merged(a) =~= a);
    assert(a.merged(b).merged(c) =~= a.merged(b.merged(c)));
}

/// How often a mutant has a result.
proof fn lemma_mutants_with_counted(
    outcomes: Seq<MutantOutcome>,
    mutant: Mutant,
    result: MutationResult,
)
    ensures
        mutants_with(outcomes, result).to_multiset().count(mutant) == outcomes.to_multiset().count(
            MutantOutcome { mutant, result },
        ),
    decreases outcomes.len(),
{
    let wanted = MutantOutcome { mutant, result };
    if outcomes.len() == 0 {
        reveal(Seq::filter);
        to_multiset_contains(outcomes, wanted);
        to_multiset_contains(mutants_with(outcomes, result), mutant);
        assert(mutants_with(outcomes, result) =~= Seq::empty());
    } else {
        let shorter = outcomes.drop_last();
        let last = outcomes.last();
        lemma_mutants_with_counted(shorter, mutant, result);
        assert(outcomes =~= shorter.push(last));
        lemma_one_more_outcome(shorter, last, result);
        to_multiset_build(shorter, last);
        to_multiset_build(mutants_with(shorter, result), last.mutant);
    }
}

/// A mutant is listed under a result exactly as often as it came with that result.
pub proof fn law_mutants_are_listed_under_their_results(
    outcomes: Seq<MutantOutcome>,
    mutant: Mutant,
)
    ensures
        report_of(outcomes).dead.to_multiset().count(mutant) == outcomes.to_multiset().count(
            MutantOutcome { mutant, result: MutationResult::Dead },
        ),
        report_of(outcomes).survived.to_multiset().count(mutant) == outcomes.to_multiset().count(
            MutantOutcome { mutant, result: MutationResult::Alive },
        ),
        report_of(outcomes).invalid.to_multiset().count(mutant) == outcomes.to_multiset().count(
            MutantOutcome { mutant, result: MutationResult::Invalid },
        ),
        report_of(outcomes).skipped.to_multiset().count(mutant) == outcomes.to_multiset().count(
            MutantOutcome { mutant, result: MutationResult::Skipped },
        ),
        report_of(outcomes).timed_out.to_multiset().count(mutant) == outcomes.to_multiset().count(
            MutantOutcome { mutant, result: MutationResult::TimedOut },
        ),
{
    lemma_mutants_with_counted(outcomes, mutant, MutationResult::Dead);
    lemma_mutants_with_counted(outcomes, mutant, MutationResult::Alive);
    lemma_mutants_with_counted(outcomes, mutant, MutationResult::Invalid);
    lemma_mutants_with_counted(outcomes, mutant, MutationResult::Skipped);
    lemma_mutants_with_counted(outcomes, mutant, MutationResult::TimedOut);
}

/// Under each result stand the mutants that came with it, in the order in which they came.
pub proof fn law_reports_keep_the_order_of_outcomes(outcomes: Seq<MutantOutcome>)
    ensures
        report_of(outcomes).dead == outcomes.filter(
            |outcome: MutantOutcome| outcome.result == MutationResult::Dead,
        ).map_values(|outcome: MutantOutcome| outcome.mutant),
        report_of(outcomes).survived == outcomes.filter(
            |outcome: MutantOutcome| outcome.result == MutationResult::Alive,
        ).map_values(|outcome: MutantOutcome| outcome.mutant),
        report_of(outcomes).invalid == outcomes.filter(
            |outcome: MutantOutcome| outcome.result == MutationResult::Invalid,
        ).map_values(|outcome: MutantOutcome| outcome.mutant),
        report_of(outcomes).skipped == outcomes.filter(
            |outcome: MutantOutcome| outcome.result == MutationResult::Skipped,
        ).map_values(|outcome: MutantOutcome| outcome.mutant),
        report_of(outcomes).timed_out == outcomes.filter(
            |outcome: MutantOutcome| outcome.result == MutationResult::TimedOut,
        ).map_values(|outcome: MutantOutcome| outcome.mutant),
{
    assert(mutant_of() =~= (|outcome: MutantOutcome| outcome.mutant));
    assert(has_result(MutationResult::Dead) =~= (|outcome: MutantOutcome|
        outcome.result == MutationResult::Dead));
    assert(has_result(MutationResult::Alive) =~= (|outcome: MutantOutcome|
        outcome.result == MutationResult::Alive));
    assert(has_result(MutationResult::Invalid) =~= (|outcome: MutantOutcome|
        outcome.result == MutationResult::Invalid));
    assert(has_result(MutationResult::Skipped) =~= (|outcome: MutantOutcome|
        outcome.result == MutationResult::Skipped));
    assert(has_result(MutationResult::TimedOut) =~= (|outcome: MutantOutcome|
        outcome.result == MutationResult::TimedOut));
}

/// The spans of survivors are those of the mutants that came alive, in the order in which they
/// came, and no others.
pub proof fn law_spans_of_survivors(outcomes: Seq<MutantOutcome>)
    ensures
        survived_spans(outcomes) == outcomes.filter(
            |outcome: MutantOutcome| outcome.result == MutationResult::Alive,
        ).map_values(|outcome: MutantOutcome| outcome.mutant.span),
{
    law_reports_keep_the_order_of_outcomes(outcomes);
    let alive = outcomes.filter(
        |outcome: MutantOutcome| outcome.result == MutationResult::Alive,
    );
    assert(survived_spans(outcomes) =~= alive.map_values(
        |outcome: MutantOutcome| outcome.mutant.span,
    ));
}

/// Mutants of one and the same span are run in the order in which they came.
pub proof fn law_mutants_of_a_span_keep_their_order(mutants: Seq<Mutant>, span: Span)
    ensures
        sorted_mutants(mutants).filter(|mutant: Mutant| mutant.span == span) == mutants.filter(
            |mutant: Mutant| mutant.span == span,
        ),
{
    let wanted: Key = (span.lo, (u32::MAX - span.hi) as u32, 0usize, 0u8);
    law_sorting_is_stable(mutants, mutant_key(), wanted);
    assert(has_key(mutant_key(), wanted) =~= (|mutant: Mutant| mutant.span == span));
}

/// A summary holds what its lists hold, and the empty summary nothing.
pub proof fn law_summaries_are_their_lists(summary: MutationsSummary)
    ensures
        SummaryView::empty().dead.len() == 0,
        summary@.dead == summary.dead@,
        SummaryView::empty().survived.len() == 0,
        summary@.survived == summary.survived@,
        SummaryView::empty().invalid.len() == 0,
        summary@.invalid == summary.invalid@,
        SummaryView::empty().skipped.len() == 0,
        summary@.skipped == summary.skipped@,
        SummaryView::empty().timed_out.len() == 0,
        summary@.timed_out == summary.timed_out@,
{
}

} // verus!
