//! What holds of every resolution.

use vstd::prelude::*;
use crate::entries::{entries_step_onward, EntriesStepModel};
use crate::entry::{first_step, step_after_resolver, step_onward, EntryModel, EntryStepModel};
use crate::error::{Outcome, ResolutionError};
use crate::values::{Asset, EvaluatedEntry, OriginModel, ResolutionContext};
use crate::outcome::{in_order, Collaborators};

verus! {

/// The entries of each of `outcomes`, where each succeeded.
pub open spec fn entries_of(outcomes: Seq<Outcome>) -> Seq<Seq<EvaluatedEntry>> {
    Seq::new(outcomes.len(), |i: int| outcomes[i]->Ok_0)
}

/// Parts that all succeed give their entries one behind the other, in the
/// order of the parts.
pub proof fn lemma_in_order_concatenates(outcomes: Seq<Outcome>)
    requires
        forall|i: int| 0 <= i < outcomes.len() ==> (#[trigger] outcomes[i]) is Ok,
    ensures
        in_order(outcomes) == Ok::<Seq<EvaluatedEntry>, ResolutionError>(
            entries_of(outcomes).flatten(),
        ),
    decreases outcomes.len(),
{
    if outcomes.len() > 0 {
        let before = outcomes.drop_last();
        lemma_in_order_concatenates(before);
        assert(entries_of(outcomes) =~= entries_of(before).push(outcomes.last()->Ok_0));
        entries_of(before).lemma_flatten_push(outcomes.last()->Ok_0);
    }
}

/// The failure of the first part that fails is the failure of the whole,
/// whatever the parts behind it come to.
pub proof fn lemma_in_order_fails_fast(outcomes: Seq<Outcome>, k: int)
    requires
        0 <= k < outcomes.len(),
        outcomes[k] is Err,
        forall|j: int| 0 <= j < k ==> (#[trigger] outcomes[j]) is Ok,
    ensures
        in_order(outcomes) == Err::<Seq<EvaluatedEntry>, ResolutionError>(outcomes[k]->Err_0),
    decreases outcomes.len(),
{
    let before = outcomes.drop_last();
    if k == outcomes.len() - 1 {
        lemma_in_order_concatenates(before);
    } else {
        lemma_in_order_fails_fast(before, k);
    }
}

/// Parts of one entry each give, where they succeed, as many entries as there
/// are parts.
pub proof fn lemma_in_order_counts(outcomes: Seq<Outcome>)
    requires
        forall|i: int|
            0 <= i < outcomes.len() ==> ((#[trigger] outcomes[i]) matches Ok(entries)
                ==> entries.len() == 1),
    ensures
        in_order(outcomes) matches Ok(entries) ==> entries.len() == outcomes.len(),
    decreases outcomes.len(),
{
    if outcomes.len() > 0 {
        lemma_in_order_counts(outcomes.drop_last());
    }
}

/// Where the checks of the candidates `assets` stand when `answers` of them
/// are answered: at the failure of the first of these that failed, or, with
/// their entries collected in order, at the next candidate or the end.
pub open spec fn checks_progress(world: Collaborators, assets: Seq<Asset>, answers: nat) -> EntryStepModel {
    match in_order(world.candidate_outcomes(assets).take(answers as int)) {
        Ok(entries) => step_onward(assets, entries),
        Err(error) => EntryStepModel::Finished(Err(error)),
    }
}

/// After the resolver's answer, each further answer takes the resolution of a
/// request one candidate on, until the first candidate that fails.
pub proof fn theorem_request_run(
    world: Collaborators,
    specifier: Seq<char>,
    origin_path: Seq<char>,
    context: ResolutionContext,
    assets: Seq<Asset>,
    answers: nat,
)
    requires
        (world.resolver)(OriginModel { context, path: origin_path }, specifier) == Ok::<
            Seq<Asset>,
            ResolutionError,
        >(assets),
        answers <= assets.len(),
    ensures
        world.run_entry(EntryModel::Request { specifier, origin_path }, context, answers + 1)
            == checks_progress(world, assets, answers),
    decreases answers,
{
    let entry = EntryModel::Request { specifier, origin_path };
    let outcomes = world.candidate_outcomes(assets);
    if answers == 0 {
        assert(world.run_entry(entry, context, 0) == first_step(entry, context));
        assert(world.run_entry(entry, context, 1) == world.answer_entry_step(
            world.run_entry(entry, context, 0),
        ));
        assert(outcomes.take(0) =~= Seq::<Outcome>::empty());
    } else {
        let earlier = (answers - 1) as nat;
        theorem_request_run(world, specifier, origin_path, context, assets, earlier);
        assert(world.run_entry(entry, context, answers + 1) == world.answer_entry_step(
            world.run_entry(entry, context, answers),
        ));
        assert(outcomes.take(answers as int).drop_last() =~= outcomes.take(earlier as int));
        assert(outcomes.take(answers as int).last() == outcomes[earlier as int]);
        lemma_in_order_counts(outcomes.take(earlier as int));
        lemma_in_order_counts(outcomes.take(answers as int));
        match in_order(outcomes.take(earlier as int)) {
            Ok(entries) => {
                assert(entries.len() == earlier);
                match (world.check)(assets[earlier as int]) {
                    Ok(Some(entry)) => {
                        assert(entries + seq![entry] =~= entries.push(entry));
                    },
                    _ => {},
                }
            },
            Err(_) => {},
        }
    }
}

/// A finished resolution of a declaration stays finished, whatever is
/// answered.
pub proof fn lemma_entry_run_stays_finished(
    world: Collaborators,
    entry: EntryModel,
    context: ResolutionContext,
    finished: nat,
    answers: nat,
)
    requires
        world.run_entry(entry, context, finished) is Finished,
        finished <= answers,
    ensures
        world.run_entry(entry, context, answers) == world.run_entry(entry, context, finished),
    decreases answers,
{
    if finished < answers {
        lemma_entry_run_stays_finished(world, entry, context, finished, (answers - 1) as nat);
    }
}

/// The steps of a declaration end in what its resolution comes to, once all
/// its questions are answered: one to the resolver and one for each
/// candidate, and none for an evaluated entry.
pub proof fn theorem_entry_run_finishes(
    world: Collaborators,
    entry: EntryModel,
    context: ResolutionContext,
    answers: nat,
)
    requires
        answers >= world.entry_questions(entry, context),
    ensures
        world.run_entry(entry, context, answers) == EntryStepModel::Finished(
            world.entry_outcome(entry, context),
        ),
{
    let questions = world.entry_questions(entry, context);
    match entry {
        EntryModel::Evaluated { .. } => {},
        EntryModel::Request { specifier, origin_path } => {
            match (world.resolver)(OriginModel { context, path: origin_path }, specifier) {
                Ok(assets) => {
                    theorem_request_run(
                        world,
                        specifier,
                        origin_path,
                        context,
                        assets,
                        assets.len(),
                    );
                    let outcomes = world.candidate_outcomes(assets);
                    assert(outcomes.take(assets.len() as int) =~= outcomes);
                    lemma_in_order_counts(outcomes);
                },
                Err(_) => {
                    assert(world.run_entry(entry, context, 0) == first_step(entry, context));
                    assert(world.run_entry(entry, context, 1) == world.answer_entry_step(
                        world.run_entry(entry, context, 0),
                    ));
                },
            }
        },
    }
    assert(world.run_entry(entry, context, questions) == EntryStepModel::Finished(
        world.entry_outcome(entry, context),
    ));
    lemma_entry_run_stays_finished(world, entry, context, questions, answers);
}

/// An evaluated entry resolves to itself alone, in every environment and
/// whatever the collaborators would answer: its first step is already the
/// last, so no collaborator is asked.
pub proof fn theorem_evaluated_short_circuit(
    world: Collaborators,
    entry: EvaluatedEntry,
    context: ResolutionContext,
)
    ensures
        first_step(EntryModel::Evaluated { entry }, context) == EntryStepModel::Finished(
            Ok(seq![entry]),
        ),
        world.entry_outcome(EntryModel::Evaluated { entry }, context) == Ok::<
            Seq<EvaluatedEntry>,
            ResolutionError,
        >(seq![entry]),
        world.entry_questions(EntryModel::Evaluated { entry }, context) == 0,
{
}

/// A request whose candidates are all evaluable resolves to their
/// representations: one for each candidate, in the resolver's order.
pub proof fn theorem_fan_out(
    world: Collaborators,
    specifier: Seq<char>,
    origin_path: Seq<char>,
    context: ResolutionContext,
    assets: Seq<Asset>,
    entries: Seq<EvaluatedEntry>,
)
    requires
        (world.resolver)(OriginModel { context, path: origin_path }, specifier) == Ok::<
            Seq<Asset>,
            ResolutionError,
        >(assets),
        entries.len() == assets.len(),
        forall|i: int|
            0 <= i < assets.len() ==> (world.check)(#[trigger] assets[i]) == Ok::<
                Option<EvaluatedEntry>,
                ResolutionError,
            >(Some(entries[i])),
    ensures
        world.entry_outcome(EntryModel::Request { specifier, origin_path }, context) == Ok::<
            Seq<EvaluatedEntry>,
            ResolutionError,
        >(entries),
{
    lemma_in_order_of_singletons(world.candidate_outcomes(assets), entries);
}

/// Parts that each give one entry give those entries, in the order of the
/// parts.
pub proof fn lemma_in_order_of_singletons(outcomes: Seq<Outcome>, entries: Seq<EvaluatedEntry>)
    requires
        outcomes.len() == entries.len(),
        forall|i: int|
            0 <= i < outcomes.len() ==> (#[trigger] outcomes[i]) == Ok::<
                Seq<EvaluatedEntry>,
                ResolutionError,
            >(seq![entries[i]]),
    ensures
        in_order(outcomes) == Ok::<Seq<EvaluatedEntry>, ResolutionError>(entries),
    decreases outcomes.len(),
{
    if outcomes.len() > 0 {
        lemma_in_order_of_singletons(outcomes.drop_last(), entries.drop_last());
        assert(entries.drop_last() + seq![entries.last()] =~= entries);
    } else {
        assert(entries =~= Seq::empty());
    }
}

/// A request fails with `NotEvaluable` of its first candidate without an
/// evaluable representation, where the candidates before it are evaluable.
/// It returns no entries: not those of the candidates before, nor those of
/// the candidates behind.
pub proof fn theorem_first_unevaluable_fails(
    world: Collaborators,
    specifier: Seq<char>,
    origin_path: Seq<char>,
    context: ResolutionContext,
    assets: Seq<Asset>,
    k: int,
)
    requires
        (world.resolver)(OriginModel { context, path: origin_path }, specifier) == Ok::<
            Seq<Asset>,
            ResolutionError,
        >(assets),
        0 <= k < assets.len(),
        (world.check)(assets[k]) == Ok::<Option<EvaluatedEntry>, ResolutionError>(None),
        forall|j: int| 0 <= j < k ==> (world.check)(#[trigger] assets[j]) matches Ok(Some(_)),
    ensures
        world.entry_outcome(EntryModel::Request { specifier, origin_path }, context) == Err::<
            Seq<EvaluatedEntry>,
            ResolutionError,
        >(ResolutionError::NotEvaluable(assets[k])),
{
    let outcomes = world.candidate_outcomes(assets);
    assert forall|j: int| 0 <= j < k implies (#[trigger] outcomes[j]) is Ok by {
        assert((world.check)(assets[j]) matches Ok(Some(_)));
    }
    lemma_in_order_fails_fast(outcomes, k);
}

/// A request with a candidate that has no evaluable representation fails
/// with `NotEvaluable`, and returns no entries, unless the check itself
/// failed on an earlier candidate. The candidate that is named is the first
/// without a representation.
pub proof fn theorem_strict_validation(
    world: Collaborators,
    specifier: Seq<char>,
    origin_path: Seq<char>,
    context: ResolutionContext,
    assets: Seq<Asset>,
    k: int,
) -> (first: int)
    requires
        (world.resolver)(OriginModel { context, path: origin_path }, specifier) == Ok::<
            Seq<Asset>,
            ResolutionError,
        >(assets),
        0 <= k < assets.len(),
        (world.check)(assets[k]) == Ok::<Option<EvaluatedEntry>, ResolutionError>(None),
        forall|j: int| 0 <= j < k ==> (world.check)(#[trigger] assets[j]) is Ok,
    ensures
        0 <= first <= k,
        (world.check)(assets[first]) == Ok::<Option<EvaluatedEntry>, ResolutionError>(None),
        world.entry_outcome(EntryModel::Request { specifier, origin_path }, context) == Err::<
            Seq<EvaluatedEntry>,
            ResolutionError,
        >(ResolutionError::NotEvaluable(assets[first])),
{
    let first = lemma_first_unevaluable(world, assets, k);
    theorem_first_unevaluable_fails(world, specifier, origin_path, context, assets, first);
    first
}

/// Before a candidate without a representation there is a first one.
proof fn lemma_first_unevaluable(world: Collaborators, assets: Seq<Asset>, k: int) -> (first: int)
    requires
        0 <= k < assets.len(),
        (world.check)(assets[k]) == Ok::<Option<EvaluatedEntry>, ResolutionError>(None),
        forall|j: int| 0 <= j < k ==> (world.check)(#[trigger] assets[j]) is Ok,
    ensures
        0 <= first <= k,
        (world.check)(assets[first]) == Ok::<Option<EvaluatedEntry>, ResolutionError>(None),
        forall|j: int| 0 <= j < first ==> (world.check)(#[trigger] assets[j]) matches Ok(Some(_)),
    decreases k,
{
    if exists|j: int| 0 <= j < k && (world.check)(#[trigger] assets[j]) == Ok::<
        Option<EvaluatedEntry>,
        ResolutionError,
    >(None) {
        let j = choose|j: int| 0 <= j < k && (world.check)(#[trigger] assets[j]) == Ok::<
            Option<EvaluatedEntry>,
            ResolutionError,
        >(None);
        lemma_first_unevaluable(world, assets, j)
    } else {
        assert forall|j: int| 0 <= j < k implies (world.check)(#[trigger] assets[j]) matches Ok(
            Some(_),
        ) by {
            assert((world.check)(assets[j]) is Ok);
        }
        k
    }
}

/// A request for which the resolver returns no candidate resolves to no
/// entry, and does not fail: after the resolver's answer nothing is asked.
pub proof fn theorem_no_candidates(
    world: Collaborators,
    specifier: Seq<char>,
    origin_path: Seq<char>,
    context: ResolutionContext,
)
    requires
        (world.resolver)(OriginModel { context, path: origin_path }, specifier) == Ok::<
            Seq<Asset>,
            ResolutionError,
        >(Seq::empty()),
    ensures
        world.entry_outcome(EntryModel::Request { specifier, origin_path }, context) == Ok::<
            Seq<EvaluatedEntry>,
            ResolutionError,
        >(Seq::empty()),
        step_after_resolver(Ok(Seq::empty())) == EntryStepModel::Finished(Ok(Seq::empty())),
        world.run_entry(EntryModel::Request { specifier, origin_path }, context, 1)
            == EntryStepModel::Finished(Ok(Seq::empty())),
{
    theorem_entry_run_finishes(world, EntryModel::Request { specifier, origin_path }, context, 1);
}

/// A failure of the resolver is the failure of the request, as it came, and
/// no candidate is checked.
pub proof fn theorem_resolver_failure(
    world: Collaborators,
    specifier: Seq<char>,
    origin_path: Seq<char>,
    context: ResolutionContext,
    error: ResolutionError,
)
    requires
        (world.resolver)(OriginModel { context, path: origin_path }, specifier) == Err::<
            Seq<Asset>,
            ResolutionError,
        >(error),
    ensures
        world.entry_outcome(EntryModel::Request { specifier, origin_path }, context) == Err::<
            Seq<EvaluatedEntry>,
            ResolutionError,
        >(error),
        world.run_entry(EntryModel::Request { specifier, origin_path }, context, 1)
            == EntryStepModel::Finished(Err(error)),
{
    theorem_entry_run_finishes(world, EntryModel::Request { specifier, origin_path }, context, 1);
}

/// Whether two states of the world answer alike what the resolution of
/// `entry` in `context` asks: the resolver for the request, and the check for
/// each candidate of that answer.
pub open spec fn same_answers(
    world: Collaborators,
    other: Collaborators,
    entry: EntryModel,
    context: ResolutionContext,
) -> bool {
    entry matches EntryModel::Request { specifier, origin_path } ==> {
        let origin = OriginModel { context, path: origin_path };
        &&& (world.resolver)(origin, specifier) == (other.resolver)(origin, specifier)
        &&& (world.resolver)(origin, specifier) matches Ok(assets) ==> forall|i: int|
            0 <= i < assets.len() ==> (world.check)(#[trigger] assets[i]) == (other.check)(
                assets[i],
            )
    }
}

/// Resolving a declaration again in the same environment, with collaborators
/// that answer as before, goes through the same steps and comes to the same
/// result: the same entries in the same order, or the same failure.
pub proof fn theorem_idempotent(
    world: Collaborators,
    other: Collaborators,
    entry: EntryModel,
    context: ResolutionContext,
    answers: nat,
)
    requires
        same_answers(world, other, entry, context),
    ensures
        world.entry_outcome(entry, context) == other.entry_outcome(entry, context),
        world.run_entry(entry, context, answers) == other.run_entry(entry, context, answers),
    decreases answers,
{
    match entry {
        EntryModel::Evaluated { .. } => {},
        EntryModel::Request { specifier, origin_path } => {
            match (world.resolver)(OriginModel { context, path: origin_path }, specifier) {
                Ok(assets) => {
                    assert(world.candidate_outcomes(assets) =~= other.candidate_outcomes(assets));
                },
                Err(_) => {},
            }
        },
    }
    if answers > 0 {
        let earlier = (answers - 1) as nat;
        theorem_idempotent(world, other, entry, context, earlier);
        lemma_run_entry_asks_of_answer(world, entry, context, earlier);
    }
}

/// What a request asks while it runs, it asks of the resolver's answer: a
/// step that checks a candidate checks a candidate of that answer.
proof fn lemma_run_entry_asks_of_answer(
    world: Collaborators,
    entry: EntryModel,
    context: ResolutionContext,
    answers: nat,
)
    ensures
        match world.run_entry(entry, context, answers) {
            EntryStepModel::Resolve { origin, specifier } => entry == (EntryModel::Request {
                specifier,
                origin_path: origin.path,
            }) && origin.context == context,
            EntryStepModel::Check { assets, entries } => entry matches EntryModel::Request {
                specifier,
                origin_path,
            } && (world.resolver)(OriginModel { context, path: origin_path }, specifier) == Ok::<
                Seq<Asset>,
                ResolutionError,
            >(assets) && entries.len() < assets.len(),
            EntryStepModel::Finished(_) => true,
        },
    decreases answers,
{
    if answers > 0 {
        lemma_run_entry_asks_of_answer(world, entry, context, (answers - 1) as nat);
    }
}

/// Where the resolution of the list `declarations` stands when `answers` of
/// them are resolved: at the failure of the first of these that failed, or,
/// with their entries collected in order, at the next declaration or the end.
pub open spec fn entries_progress(
    world: Collaborators,
    declarations: Seq<EntryModel>,
    context: ResolutionContext,
    answers: nat,
) -> EntriesStepModel {
    match in_order(world.entry_outcomes(declarations, context).take(answers as int)) {
        Ok(collected) => entries_step_onward(declarations, context, answers, collected),
        Err(error) => EntriesStepModel::Finished(Err(error)),
    }
}

/// Each answer takes the resolution of a list one declaration on, until the
/// first declaration that fails.
pub proof fn theorem_entries_run(
    world: Collaborators,
    declarations: Seq<EntryModel>,
    context: ResolutionContext,
    answers: nat,
)
    requires
        answers <= declarations.len(),
    ensures
        world.run_entries(declarations, context, answers) == entries_progress(
            world,
            declarations,
            context,
            answers,
        ),
    decreases answers,
{
    let outcomes = world.entry_outcomes(declarations, context);
    if answers == 0 {
        assert(outcomes.take(0) =~= Seq::<Outcome>::empty());
    } else {
        let earlier = (answers - 1) as nat;
        theorem_entries_run(world, declarations, context, earlier);
        assert(outcomes.take(answers as int).drop_last() =~= outcomes.take(earlier as int));
        assert(outcomes.take(answers as int).last() == outcomes[earlier as int]);
    }
}

/// A finished resolution of a list stays finished, whatever is answered.
pub proof fn lemma_entries_run_stays_finished(
    world: Collaborators,
    declarations: Seq<EntryModel>,
    context: ResolutionContext,
    finished: nat,
    answers: nat,
)
    requires
        world.run_entries(declarations, context, finished) is Finished,
        finished <= answers,
    ensures
        world.run_entries(declarations, context, answers) == world.run_entries(
            declarations,
            context,
            finished,
        ),
    decreases answers,
{
    if finished < answers {
        lemma_entries_run_stays_finished(
            world,
            declarations,
            context,
            finished,
            (answers - 1) as nat,
        );
    }
}

/// The steps of a list end in what its resolution comes to, once each
/// declaration has been answered for.
pub proof fn theorem_entries_run_finishes(
    world: Collaborators,
    declarations: Seq<EntryModel>,
    context: ResolutionContext,
    answers: nat,
)
    requires
        answers >= declarations.len(),
    ensures
        world.run_entries(declarations, context, answers) == EntriesStepModel::Finished(
            world.entries_outcome(declarations, context),
        ),
{
    let outcomes = world.entry_outcomes(declarations, context);
    theorem_entries_run(world, declarations, context, declarations.len());
    assert(outcomes.take(declarations.len() as int) =~= outcomes);
    lemma_entries_run_stays_finished(world, declarations, context, declarations.len(), answers);
}

/// A list whose declarations all resolve gives their entries one behind the
/// other: those of an earlier declaration before those of a later one, and
/// those of one declaration in its own order.
pub proof fn theorem_concatenation_order(
    world: Collaborators,
    declarations: Seq<EntryModel>,
    context: ResolutionContext,
)
    requires
        forall|i: int|
            0 <= i < declarations.len() ==> world.entry_outcome(
                #[trigger] declarations[i],
                context,
            ) is Ok,
    ensures
        world.entries_outcome(declarations, context) == Ok::<
            Seq<EvaluatedEntry>,
            ResolutionError,
        >(entries_of(world.entry_outcomes(declarations, context)).flatten()),
{
    let outcomes = world.entry_outcomes(declarations, context);
    assert forall|i: int| 0 <= i < outcomes.len() implies (#[trigger] outcomes[i]) is Ok by {
        assert(world.entry_outcome(declarations[i], context) is Ok);
    }
    lemma_in_order_concatenates(outcomes);
}

/// A list fails with the failure of its first declaration that fails, and
/// returns no entries. Up to that declaration each one is asked for in turn;
/// with its failure the resolution is over, so the declarations behind it are
/// never asked for, whatever they are.
pub proof fn theorem_fail_fast(
    world: Collaborators,
    declarations: Seq<EntryModel>,
    context: ResolutionContext,
    k: int,
)
    requires
        0 <= k < declarations.len(),
        world.entry_outcome(declarations[k], context) is Err,
        forall|j: int|
            0 <= j < k ==> world.entry_outcome(#[trigger] declarations[j], context) is Ok,
    ensures
        world.entries_outcome(declarations, context) == Err::<Seq<EvaluatedEntry>, ResolutionError>(
            world.entry_outcome(declarations[k], context)->Err_0,
        ),
        forall|answers: nat|
            answers <= k ==> ((#[trigger] world.run_entries(declarations, context, answers))
                matches EntriesStepModel::Resolve { position, .. } && position == answers),
        forall|answers: nat|
            answers > k ==> #[trigger] world.run_entries(declarations, context, answers)
                == EntriesStepModel::Finished(
                Err(world.entry_outcome(declarations[k], context)->Err_0),
            ),
{
    let outcomes = world.entry_outcomes(declarations, context);
    let error = world.entry_outcome(declarations[k], context)->Err_0;
    assert forall|j: int| 0 <= j < k implies (#[trigger] outcomes[j]) is Ok by {
        assert(world.entry_outcome(declarations[j], context) is Ok);
    }
    lemma_in_order_fails_fast(outcomes, k);
    assert forall|answers: nat| answers <= k implies ((#[trigger] world.run_entries(
        declarations,
        context,
        answers,
    )) matches EntriesStepModel::Resolve { position, .. } && position == answers) by {
        theorem_entries_run(world, declarations, context, answers);
        lemma_in_order_concatenates(outcomes.take(answers as int));
    }
    let failed = (k + 1) as nat;
    theorem_entries_run(world, declarations, context, failed);
    lemma_in_order_fails_fast(outcomes.take(failed as int), k);
    assert forall|answers: nat| answers > k implies #[trigger] world.run_entries(
        declarations,
        context,
        answers,
    ) == EntriesStepModel::Finished(Err(error)) by {
        lemma_entries_run_stays_finished(world, declarations, context, failed, answers);
    }
}

/// Resolving a list again in the same environment, with collaborators that
/// answer each of its declarations as before, comes to the same result.
pub proof fn theorem_entries_idempotent(
    world: Collaborators,
    other: Collaborators,
    declarations: Seq<EntryModel>,
    context: ResolutionContext,
)
    requires
        forall|i: int|
            0 <= i < declarations.len() ==> same_answers(
                world,
                other,
                #[trigger] declarations[i],
                context,
            ),
    ensures
        world.entries_outcome(declarations, context) == other.entries_outcome(
            declarations,
            context,
        ),
{
    assert forall|i: int| 0 <= i < declarations.len() implies world.entry_outcome(
        #[trigger] declarations[i],
        context,
    ) == other.entry_outcome(declarations[i], context) by {
        theorem_idempotent(world, other, declarations[i], context, 0);
    }
    assert(world.entry_outcomes(declarations, context) =~= other.entry_outcomes(
        declarations,
        context,
    ));
}

} // verus!
