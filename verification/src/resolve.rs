//! Resolution with collaborators that answer at once.
//!
//! Where the resolver and the check are functions that return their answer,
//! the steps of a resolution can be gone through here: these functions ask
//! each question as it comes up and return what the resolution comes to.
//!
//! What comes out is stated in two ways. For any collaborators, the result is
//! one that their answers lead to (`may_resolve_to`, `may_resolve_all_to`).
//! For collaborators whose answers depend on the question alone, the result
//! is the outcome that `outcome` defines for these answers (`answer_as`).

use vstd::prelude::*;
use crate::entries::{EntriesStep, EntriesStepModel, RuntimeEntries};
use crate::entry::{
    resolver_answer_of, CheckAnswer, EntryModel, EntryStep, EntryStepModel, RuntimeEntry,
};
use crate::error::{outcome_of, Outcome, ResolutionError};
use crate::outcome::{candidate_outcome, in_order, Collaborators};
use crate::theorems::{lemma_in_order_fails_fast, lemma_in_order_of_singletons};
use crate::values::{
    Asset, EvaluatedEntry, OriginModel, Request, ResolutionContext, ResolveOrigin,
};

verus! {

/// Whether `resolver` and `check` can be asked what the resolution of `entry`
/// in `context` asks them: the resolver for the request from its origin, and
/// the check about each candidate that the resolver may return for it. An
/// evaluated entry asks nothing.
pub open spec fn can_answer<R, C>(
    resolver: &R,
    check: &C,
    entry: EntryModel,
    context: ResolutionContext,
) -> bool where
    R: Fn(&ResolveOrigin, &Request) -> Result<Vec<Asset>, ResolutionError>,
    C: Fn(Asset) -> Result<Option<EvaluatedEntry>, ResolutionError>,
 {
    entry matches EntryModel::Request { specifier, origin_path } ==> {
        &&& forall|origin: &ResolveOrigin, request: &Request|
            origin@ == (OriginModel { context, path: origin_path }) && request@ == specifier
                ==> #[trigger] resolver.requires((origin, request))
        &&& forall|
            origin: &ResolveOrigin,
            request: &Request,
            answer: Result<Vec<Asset>, ResolutionError>,
            i: int,
        |
            origin@ == (OriginModel { context, path: origin_path }) && request@ == specifier
                && #[trigger] resolver.ensures((origin, request), answer) && answer is Ok && 0 <= i
                < answer->Ok_0@.len() ==> check.requires((#[trigger] answer->Ok_0@[i],))
    }
}

/// Whether `outcomes` are those of the parts that a resolution of `parts`
/// parts asks for: those of all parts, or those of the parts up to the first
/// that fails.
pub open spec fn asked_until_failure(outcomes: Seq<Outcome>, parts: nat) -> bool {
    &&& outcomes.len() <= parts
    &&& forall|i: int| 0 <= i < outcomes.len() - 1 ==> (#[trigger] outcomes[i]) is Ok
    &&& outcomes.len() < parts ==> outcomes.len() > 0 && outcomes.last() is Err
}

/// What the first candidates among `assets` contribute, given the check's
/// `answers` about them.
pub open spec fn check_outcomes(assets: Seq<Asset>, answers: Seq<CheckAnswer>) -> Seq<Outcome> {
    Seq::new(answers.len(), |i: int| candidate_outcome(assets[i], answers[i]))
}

/// Whether the candidates `assets` come to `outcome` when `check` gives
/// `answers`: one answer for each candidate that is asked about.
pub open spec fn checked_to<C>(
    check: &C,
    assets: Seq<Asset>,
    answers: Seq<CheckAnswer>,
    outcome: Outcome,
) -> bool where C: Fn(Asset) -> Result<Option<EvaluatedEntry>, ResolutionError> {
    &&& asked_until_failure(check_outcomes(assets, answers), assets.len())
    &&& forall|i: int|
        0 <= i < answers.len() ==> check.ensures((assets[i],), #[trigger] answers[i])
    &&& outcome == in_order(check_outcomes(assets, answers))
}

/// Whether the request `entry` comes to `outcome` in `context` when
/// `resolver`, asked for `request` from `origin`, gives `answer`.
pub open spec fn resolved_to<R, C>(
    resolver: &R,
    check: &C,
    entry: EntryModel,
    context: ResolutionContext,
    origin: &ResolveOrigin,
    request: &Request,
    answer: Result<Vec<Asset>, ResolutionError>,
    outcome: Outcome,
) -> bool where
    R: Fn(&ResolveOrigin, &Request) -> Result<Vec<Asset>, ResolutionError>,
    C: Fn(Asset) -> Result<Option<EvaluatedEntry>, ResolutionError>,
 {
    &&& entry == (EntryModel::Request { specifier: request@, origin_path: origin@.path })
    &&& origin@.context == context
    &&& resolver.ensures((origin, request), answer)
    &&& match answer {
        Ok(assets) => exists|answers: Seq<CheckAnswer>|
            checked_to(check, assets@, answers, outcome),
        Err(error) => outcome == Err::<Seq<EvaluatedEntry>, ResolutionError>(error),
    }
}

/// Whether `outcome` is what the resolution of `entry` in `context` can come
/// to with `resolver` and `check`: an evaluated entry comes to itself; a
/// request comes to what an answer of the resolver, and answers of the check
/// about its candidates in turn, lead to.
pub open spec fn may_resolve_to<R, C>(
    resolver: &R,
    check: &C,
    entry: EntryModel,
    context: ResolutionContext,
    outcome: Outcome,
) -> bool where
    R: Fn(&ResolveOrigin, &Request) -> Result<Vec<Asset>, ResolutionError>,
    C: Fn(Asset) -> Result<Option<EvaluatedEntry>, ResolutionError>,
 {
    match entry {
        EntryModel::Evaluated { entry } => outcome == Ok::<Seq<EvaluatedEntry>, ResolutionError>(
            seq![entry],
        ),
        EntryModel::Request { .. } => exists|
            origin: &ResolveOrigin,
            request: &Request,
            answer: Result<Vec<Asset>, ResolutionError>,
        |
            resolved_to(resolver, check, entry, context, origin, request, answer, outcome),
    }
}

/// Whether the list `declarations` comes to `outcome` in `context` when the
/// declarations that are asked for come to `outcomes`.
pub open spec fn all_resolved_to<R, C>(
    resolver: &R,
    check: &C,
    declarations: Seq<EntryModel>,
    context: ResolutionContext,
    outcomes: Seq<Outcome>,
    outcome: Outcome,
) -> bool where
    R: Fn(&ResolveOrigin, &Request) -> Result<Vec<Asset>, ResolutionError>,
    C: Fn(Asset) -> Result<Option<EvaluatedEntry>, ResolutionError>,
 {
    &&& asked_until_failure(outcomes, declarations.len())
    &&& forall|i: int|
        0 <= i < outcomes.len() ==> may_resolve_to(
            resolver,
            check,
            declarations[i],
            context,
            #[trigger] outcomes[i],
        )
    &&& outcome == in_order(outcomes)
}

/// Whether `outcome` is what the resolution of the list `declarations` in
/// `context` can come to with `resolver` and `check`: the entries of all
/// declarations in list order, or the failure of the first declaration that
/// fails, with the declarations behind it left unresolved.
pub open spec fn may_resolve_all_to<R, C>(
    resolver: &R,
    check: &C,
    declarations: Seq<EntryModel>,
    context: ResolutionContext,
    outcome: Outcome,
) -> bool where
    R: Fn(&ResolveOrigin, &Request) -> Result<Vec<Asset>, ResolutionError>,
    C: Fn(Asset) -> Result<Option<EvaluatedEntry>, ResolutionError>,
 {
    exists|outcomes: Seq<Outcome>|
        all_resolved_to(resolver, check, declarations, context, outcomes, outcome)
}

/// Whether `resolver` and `check` answer as `world` says: whatever one of
/// them returns for a question is what `world` holds for that question.
pub open spec fn answer_as<R, C>(resolver: &R, check: &C, world: Collaborators) -> bool where
    R: Fn(&ResolveOrigin, &Request) -> Result<Vec<Asset>, ResolutionError>,
    C: Fn(Asset) -> Result<Option<EvaluatedEntry>, ResolutionError>,
 {
    &&& forall|origin: &ResolveOrigin, request: &Request, answer: Result<Vec<Asset>, ResolutionError>|
        #[trigger] resolver.ensures((origin, request), answer) ==> resolver_answer_of(answer) == (
        world.resolver)(origin@, request@)
    &&& forall|asset: Asset, answer: Result<Option<EvaluatedEntry>, ResolutionError>|
        #[trigger] check.ensures((asset,), answer) ==> answer == (world.check)(asset)
}

/// The parts that a resolution asks for come to what all parts come to: the
/// parts behind the first failure do not change the result.
pub proof fn lemma_in_order_of_asked(all: Seq<Outcome>, asked: Seq<Outcome>)
    requires
        asked_until_failure(asked, all.len()),
        asked == all.take(asked.len() as int),
    ensures
        in_order(asked) == in_order(all),
{
    if asked.len() == all.len() {
        assert(all.take(all.len() as int) =~= all);
    } else {
        let last = asked.len() - 1;
        lemma_in_order_fails_fast(asked, last);
        assert forall|j: int| 0 <= j < last implies (#[trigger] all[j]) is Ok by {
            assert(asked[j] is Ok);
        }
        lemma_in_order_fails_fast(all, last);
    }
}

/// With collaborators whose answers depend on the question alone, a
/// declaration can come to one outcome only: the one that `world`, which
/// holds their answers, gives it.
pub proof fn theorem_answers_decide<R, C>(
    resolver: &R,
    check: &C,
    world: Collaborators,
    entry: EntryModel,
    context: ResolutionContext,
    outcome: Outcome,
) where
    R: Fn(&ResolveOrigin, &Request) -> Result<Vec<Asset>, ResolutionError>,
    C: Fn(Asset) -> Result<Option<EvaluatedEntry>, ResolutionError>,

    requires
        answer_as(resolver, check, world),
        may_resolve_to(resolver, check, entry, context, outcome),
    ensures
        outcome == world.entry_outcome(entry, context),
{
    if entry is Request {
        let (origin, request, answer) = choose|
            origin: &ResolveOrigin,
            request: &Request,
            answer: Result<Vec<Asset>, ResolutionError>,
        |
            resolved_to(resolver, check, entry, context, origin, request, answer, outcome);
        assert(resolver.ensures((origin, request), answer));
        match answer {
            Ok(assets) => {
                let answers = choose|answers: Seq<CheckAnswer>|
                    checked_to(check, assets@, answers, outcome);
                let asked = check_outcomes(assets@, answers);
                let all = world.candidate_outcomes(assets@);
                assert forall|i: int| 0 <= i < answers.len() implies #[trigger] answers[i] == (
                world.check)(assets@[i]) by {
                    assert(check.ensures((assets@[i],), answers[i]));
                }
                assert(asked =~= all.take(asked.len() as int));
                lemma_in_order_of_asked(all, asked);
            },
            Err(_) => {},
        }
    }
}

/// With collaborators whose answers depend on the question alone, a list can
/// come to one outcome only: the one that `world`, which holds their
/// answers, gives it.
pub proof fn theorem_answers_decide_all<R, C>(
    resolver: &R,
    check: &C,
    world: Collaborators,
    declarations: Seq<EntryModel>,
    context: ResolutionContext,
    outcome: Outcome,
) where
    R: Fn(&ResolveOrigin, &Request) -> Result<Vec<Asset>, ResolutionError>,
    C: Fn(Asset) -> Result<Option<EvaluatedEntry>, ResolutionError>,

    requires
        answer_as(resolver, check, world),
        may_resolve_all_to(resolver, check, declarations, context, outcome),
    ensures
        outcome == world.entries_outcome(declarations, context),
{
    let asked = choose|outcomes: Seq<Outcome>|
        all_resolved_to(resolver, check, declarations, context, outcomes, outcome);
    let all = world.entry_outcomes(declarations, context);
    assert forall|i: int| 0 <= i < asked.len() implies #[trigger] asked[i] == all[i] by {
        theorem_answers_decide(resolver, check, world, declarations[i], context, asked[i]);
    }
    assert(asked =~= all.take(asked.len() as int));
    lemma_in_order_of_asked(all, asked);
}

/// Whether `resolver` has answered the request `entry` in `context` with the
/// candidates `assets`.
spec fn resolver_gave<R>(
    resolver: &R,
    entry: EntryModel,
    context: ResolutionContext,
    assets: Seq<Asset>,
) -> bool where R: Fn(&ResolveOrigin, &Request) -> Result<Vec<Asset>, ResolutionError> {
    exists|origin: &ResolveOrigin, request: &Request, answer: Result<Vec<Asset>, ResolutionError>|
        given(resolver, entry, context, origin, request, answer, assets)
}

/// Whether `resolver`, asked for `request` from `origin` on behalf of `entry`
/// in `context`, has given `answer`, which holds the candidates `assets`.
spec fn given<R>(
    resolver: &R,
    entry: EntryModel,
    context: ResolutionContext,
    origin: &ResolveOrigin,
    request: &Request,
    answer: Result<Vec<Asset>, ResolutionError>,
    assets: Seq<Asset>,
) -> bool where R: Fn(&ResolveOrigin, &Request) -> Result<Vec<Asset>, ResolutionError> {
    &&& entry == (EntryModel::Request { specifier: request@, origin_path: origin@.path })
    &&& origin@.context == context
    &&& resolver.ensures((origin, request), answer)
    &&& resolver_answer_of(answer) == Ok::<Seq<Asset>, ResolutionError>(assets)
}

/// The answers of the check that gave `entries`, one for each.
spec fn answers_that_gave(entries: Seq<EvaluatedEntry>) -> Seq<CheckAnswer> {
    Seq::new(entries.len(), |i: int| Ok(Some(entries[i])))
}

/// What the resolution of a request has come to when the check has given
/// `last` about the candidate behind those that gave `entries`, and with it
/// the candidates are through or the resolution has failed.
proof fn lemma_checks_finished<R, C>(
    resolver: &R,
    check: &C,
    entry: EntryModel,
    context: ResolutionContext,
    assets: Seq<Asset>,
    entries: Seq<EvaluatedEntry>,
    last: CheckAnswer,
) where
    R: Fn(&ResolveOrigin, &Request) -> Result<Vec<Asset>, ResolutionError>,
    C: Fn(Asset) -> Result<Option<EvaluatedEntry>, ResolutionError>,

    requires
        resolver_gave(resolver, entry, context, assets),
        entries.len() < assets.len(),
        forall|i: int|
            0 <= i < entries.len() ==> check.ensures(
                (assets[i],),
                Ok(Some(#[trigger] entries[i])),
            ),
        check.ensures((assets[entries.len() as int],), last),
        last matches Ok(Some(_)) ==> entries.len() + 1 == assets.len(),
    ensures
        may_resolve_to(
            resolver,
            check,
            entry,
            context,
            in_order(check_outcomes(assets, answers_that_gave(entries).push(last))),
        ),
        in_order(check_outcomes(assets, answers_that_gave(entries).push(last))) == match last {
            Ok(Some(found)) => Ok(entries.push(found)),
            Ok(None) => Err(ResolutionError::NotEvaluable(assets[entries.len() as int])),
            Err(error) => Err(error),
        },
{
    let answers = answers_that_gave(entries).push(last);
    let outcomes = check_outcomes(assets, answers);
    let outcome = in_order(outcomes);
    let asked = entries.len() as int;
    assert forall|i: int| 0 <= i < answers.len() implies check.ensures(
        (assets[i],),
        #[trigger] answers[i],
    ) by {
        if i < asked {
            assert(check.ensures((assets[i],), Ok(Some(entries[i]))));
        }
    }
    match last {
        Ok(Some(found)) => {
            lemma_in_order_of_singletons(outcomes, entries.push(found));
        },
        _ => {
            lemma_in_order_fails_fast(outcomes, asked);
        },
    }
    assert(checked_to(check, assets, answers, outcome));
    let (origin, request, answer) = choose|
        origin: &ResolveOrigin,
        request: &Request,
        answer: Result<Vec<Asset>, ResolutionError>,
    |
        given(resolver, entry, context, origin, request, answer, assets);
    assert(resolved_to(resolver, check, entry, context, origin, request, answer, outcome));
}

/// The questions to the resolver that a step has still to ask.
spec fn resolutions_ahead(step: EntryStepModel) -> nat {
    match step {
        EntryStepModel::Resolve { .. } => 1,
        _ => 0,
    }
}

/// The candidates that a step has still to check, as far as the step shows.
spec fn candidates_ahead(step: EntryStepModel) -> nat {
    match step {
        EntryStepModel::Check { assets, entries } => (assets.len() - entries.len()) as nat,
        _ => 0,
    }
}

/// The declarations that a step has still to ask for.
spec fn declarations_ahead(step: EntriesStepModel) -> nat {
    match step {
        EntriesStepModel::Resolve { declarations, position, .. } => (declarations.len()
            - position) as nat,
        EntriesStepModel::Finished(_) => 0,
    }
}

/// What a request comes to with the resolver's `answer`, where the answer is
/// a failure or holds no candidates.
spec fn outcome_without_candidates(answer: Result<Vec<Asset>, ResolutionError>) -> Outcome {
    match answer {
        Ok(_) => Ok(Seq::empty()),
        Err(error) => Err(error),
    }
}

impl RuntimeEntry {
    /// Resolves this declaration in `context`, asking `resolver` and `check`.
    ///
    /// An evaluated entry resolves to itself alone, and neither collaborator is
    /// called: nothing is required of them. For a request the resolver is
    /// asked once, and the check once for each candidate in the resolver's
    /// order, up to the first that has no evaluable representation or on
    /// which the check fails. The request resolves to the representations in
    /// that order; it fails, with no entries, with the failure of the
    /// resolver, with `NotEvaluable` of the candidate without a
    /// representation, or with the failure of the check.
    pub fn resolve_entry<R, C>(
        &self,
        context: ResolutionContext,
        resolver: &R,
        check: &C,
    ) -> (result: Result<Vec<EvaluatedEntry>, ResolutionError>) where
        R: Fn(&ResolveOrigin, &Request) -> Result<Vec<Asset>, ResolutionError>,
        C: Fn(Asset) -> Result<Option<EvaluatedEntry>, ResolutionError>,

        requires
            can_answer(resolver, check, self@, context),
        ensures
            self@ matches EntryModel::Evaluated { entry } ==> outcome_of(result) == Ok::<
                Seq<EvaluatedEntry>,
                ResolutionError,
            >(seq![entry]),
            may_resolve_to(resolver, check, self@, context, outcome_of(result)),
            forall|world: Collaborators| #[trigger]
                answer_as(resolver, check, world) ==> outcome_of(result) == world.entry_outcome(
                    self@,
                    context,
                ),
    {
        let mut step = self.start(context);
        loop
            invariant
                can_answer(resolver, check, self@, context),
                step@ matches EntryStepModel::Resolve { origin, specifier } ==> self@ == (
                EntryModel::Request { specifier, origin_path: origin.path }) && origin.context
                    == context,
                step@ matches EntryStepModel::Check { assets, entries } ==> {
                    &&& entries.len() < assets.len()
                    &&& resolver_gave(resolver, self@, context, assets)
                    &&& forall|i: int|
                        0 <= i < assets.len() ==> check.requires((#[trigger] assets[i],))
                    &&& forall|i: int|
                        0 <= i < entries.len() ==> check.ensures(
                            (assets[i],),
                            Ok(Some(#[trigger] entries[i])),
                        )
                },
                step@ matches EntryStepModel::Finished(outcome) ==> may_resolve_to(
                    resolver,
                    check,
                    self@,
                    context,
                    outcome,
                ),
            decreases resolutions_ahead(step@), candidates_ahead(step@),
        {
            match step {
                EntryStep::Finished(result) => {
                    proof {
                        assert forall|world: Collaborators| #[trigger]
                            answer_as(resolver, check, world) implies outcome_of(result)
                            == world.entry_outcome(self@, context) by {
                            theorem_answers_decide(
                                resolver,
                                check,
                                world,
                                self@,
                                context,
                                outcome_of(result),
                            );
                        }
                    }
                    return result;
                },
                EntryStep::Resolve(waiting) => {
                    let origin = waiting.origin();
                    let request = waiting.request();
                    let answer = resolver(origin, request);
                    proof {
                        let outcome = outcome_without_candidates(answer);
                        if answer is Ok {
                            let assets = answer->Ok_0@;
                            assert(given(
                                resolver,
                                self@,
                                context,
                                origin,
                                request,
                                answer,
                                assets,
                            ));
                            if assets.len() == 0 {
                                let none = Seq::<CheckAnswer>::empty();
                                assert(checked_to(check, assets, none, outcome));
                            }
                        }
                        if answer is Err || answer->Ok_0@.len() == 0 {
                            assert(resolved_to(
                                resolver,
                                check,
                                self@,
                                context,
                                origin,
                                request,
                                answer,
                                outcome,
                            ));
                        }
                    }
                    step = waiting.resolved(answer);
                },
                EntryStep::Check(waiting) => {
                    let ghost assets = waiting.assets();
                    let ghost entries = waiting.entries();
                    let asset = waiting.asset();
                    let answer = check(asset);
                    proof {
                        if !(answer matches Ok(Some(_))) || entries.len() + 1 == assets.len() {
                            lemma_checks_finished(
                                resolver,
                                check,
                                self@,
                                context,
                                assets,
                                entries,
                                answer,
                            );
                        }
                    }
                    step = waiting.checked(answer);
                },
            }
        }
    }
}

impl RuntimeEntries {
    /// Resolves this list in `context`, asking `resolver` and `check`.
    ///
    /// The declarations are resolved one by one in list order, and the result
    /// holds the entries of the first declaration, then those of the second,
    /// and so on. The first declaration that fails ends the resolution with
    /// its failure: no entries are returned, and the declarations behind it
    /// are not resolved.
    pub fn resolve_entries<R, C>(
        &self,
        context: ResolutionContext,
        resolver: &R,
        check: &C,
    ) -> (result: Result<Vec<EvaluatedEntry>, ResolutionError>) where
        R: Fn(&ResolveOrigin, &Request) -> Result<Vec<Asset>, ResolutionError>,
        C: Fn(Asset) -> Result<Option<EvaluatedEntry>, ResolutionError>,

        requires
            forall|i: int|
                0 <= i < self@.len() ==> can_answer(resolver, check, #[trigger] self@[i], context),
        ensures
            may_resolve_all_to(resolver, check, self@, context, outcome_of(result)),
            forall|world: Collaborators| #[trigger]
                answer_as(resolver, check, world) ==> outcome_of(result) == world.entries_outcome(
                    self@,
                    context,
                ),
    {
        let mut step = self.start(context);
        let ghost mut outcomes: Seq<Outcome> = Seq::empty();
        proof {
            if self@.len() == 0 {
                assert(all_resolved_to(
                    resolver,
                    check,
                    self@,
                    context,
                    outcomes,
                    Ok(Seq::empty()),
                ));
            }
        }
        loop
            invariant
                forall|i: int|
                    0 <= i < self@.len() ==> can_answer(
                        resolver,
                        check,
                        #[trigger] self@[i],
                        context,
                    ),
                step@ matches EntriesStepModel::Resolve {
                    declarations,
                    context: asked,
                    position,
                    collected,
                } ==> {
                    &&& declarations == self@
                    &&& asked == context
                    &&& position < declarations.len()
                    &&& outcomes.len() == position
                    &&& forall|i: int|
                        0 <= i < outcomes.len() ==> (#[trigger] outcomes[i]) is Ok
                            && may_resolve_to(resolver, check, self@[i], context, outcomes[i])
                    &&& in_order(outcomes) == Ok::<Seq<EvaluatedEntry>, ResolutionError>(collected)
                },
                step@ matches EntriesStepModel::Finished(outcome) ==> may_resolve_all_to(
                    resolver,
                    check,
                    self@,
                    context,
                    outcome,
                ),
            decreases declarations_ahead(step@),
        {
            match step {
                EntriesStep::Finished(result) => {
                    proof {
                        assert forall|world: Collaborators| #[trigger]
                            answer_as(resolver, check, world) implies outcome_of(result)
                            == world.entries_outcome(self@, context) by {
                            theorem_answers_decide_all(
                                resolver,
                                check,
                                world,
                                self@,
                                context,
                                outcome_of(result),
                            );
                        }
                    }
                    return result;
                },
                EntriesStep::Resolve(waiting) => {
                    let entry = waiting.entry();
                    let answer = entry.resolve_entry(waiting.context(), resolver, check);
                    proof {
                        let earlier = outcomes;
                        outcomes = outcomes.push(outcome_of(answer));
                        assert(outcomes.drop_last() =~= earlier);
                        if answer is Err || outcomes.len() == self@.len() {
                            assert(all_resolved_to(
                                resolver,
                                check,
                                self@,
                                context,
                                outcomes,
                                in_order(outcomes),
                            ));
                        }
                    }
                    step = waiting.resolved(answer);
                },
            }
        }
    }
}

} // verus!
