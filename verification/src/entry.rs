//! One runtime entry, and its resolution step by step.
//!
//! Resolving a declaration needs two collaborators that this library cannot
//! call: the module resolver and the check whether an asset is evaluable.
//! So resolution is a sequence of steps. Each step but the last is a question
//! to one collaborator; the caller gets the answer and hands it to the step,
//! which gives the next one.

use vstd::prelude::*;
use crate::error::{outcome_of, Outcome, ResolutionError};
use crate::values::{
    Asset, EvaluatedEntry, FileSystemPath, OriginModel, Request, ResolutionContext, ResolveOrigin,
};

verus! {

/// What has to be evaluated before the module graph runs.
#[derive(Debug, PartialEq, Eq)]
pub enum RuntimeEntry {
    /// A module still to be resolved: the request, and the path to resolve it
    /// from.
    Request(Request, FileSystemPath),
    /// An entry that is known to be evaluable.
    Evaluated(EvaluatedEntry),
}

/// A declaration as a mathematical value.
pub enum EntryModel {
    Request { specifier: Seq<char>, origin_path: Seq<char> },
    Evaluated { entry: EvaluatedEntry },
}

impl View for RuntimeEntry {
    type V = EntryModel;

    open spec fn view(&self) -> EntryModel {
        match self {
            RuntimeEntry::Request(request, path) => EntryModel::Request {
                specifier: request@,
                origin_path: path@,
            },
            RuntimeEntry::Evaluated(entry) => EntryModel::Evaluated { entry: *entry },
        }
    }
}

impl Clone for RuntimeEntry {
    fn clone(&self) -> (copy: Self)
        ensures
            copy == *self,
    {
        match self {
            RuntimeEntry::Request(request, path) => RuntimeEntry::Request(
                request.clone(),
                path.clone(),
            ),
            RuntimeEntry::Evaluated(entry) => RuntimeEntry::Evaluated(*entry),
        }
    }
}

/// What the resolver answers: the candidate assets in its order, or its
/// failure.
pub type ResolverAnswer = Result<Seq<Asset>, ResolutionError>;

/// What the evaluability check answers: the evaluable representation of the
/// asset, or none, or a failure of the layer below.
pub type CheckAnswer = Result<Option<EvaluatedEntry>, ResolutionError>;

/// A step of the resolution of one declaration, as a mathematical value.
pub enum EntryStepModel {
    /// The resolver is asked for `specifier` from `origin`.
    Resolve { origin: OriginModel, specifier: Seq<char> },
    /// The check is asked about `assets[entries.len()]`; the candidates before
    /// it gave `entries`.
    Check { assets: Seq<Asset>, entries: Seq<EvaluatedEntry> },
    /// Nothing is asked any more.
    Finished(Outcome),
}

/// The first step for `entry` in `context`. An evaluated entry is its own
/// result, so nothing is asked; a request goes to the resolver, with the
/// origin made of `context` and the declaration's path.
pub open spec fn first_step(entry: EntryModel, context: ResolutionContext) -> EntryStepModel {
    match entry {
        EntryModel::Evaluated { entry } => EntryStepModel::Finished(Ok(seq![entry])),
        EntryModel::Request { specifier, origin_path } => EntryStepModel::Resolve {
            origin: OriginModel { context, path: origin_path },
            specifier,
        },
    }
}

/// The step that follows once the first `entries.len()` of `assets` gave
/// `entries`: the next candidate is checked, or all are done.
pub open spec fn step_onward(assets: Seq<Asset>, entries: Seq<EvaluatedEntry>) -> EntryStepModel {
    if entries.len() < assets.len() {
        EntryStepModel::Check { assets, entries }
    } else {
        EntryStepModel::Finished(Ok(entries))
    }
}

/// The step that follows the resolver's answer. A failure ends the resolution
/// as it came; candidates are checked from the first on, and without
/// candidates the result is the empty list.
pub open spec fn step_after_resolver(answer: ResolverAnswer) -> EntryStepModel {
    match answer {
        Ok(assets) => step_onward(assets, Seq::empty()),
        Err(error) => EntryStepModel::Finished(Err(error)),
    }
}

/// The step that follows the check's answer about `assets[entries.len()]`. A
/// representation joins the entries; a candidate without one ends the
/// resolution with `NotEvaluable` of that candidate; a failure ends it as it
/// came.
pub open spec fn step_after_check(
    assets: Seq<Asset>,
    entries: Seq<EvaluatedEntry>,
    answer: CheckAnswer,
) -> EntryStepModel {
    match answer {
        Ok(Some(entry)) => step_onward(assets, entries.push(entry)),
        Ok(None) => EntryStepModel::Finished(
            Err(ResolutionError::NotEvaluable(assets[entries.len() as int])),
        ),
        Err(error) => EntryStepModel::Finished(Err(error)),
    }
}

/// The resolver's answer as a mathematical value.
pub open spec fn resolver_answer_of(answer: Result<Vec<Asset>, ResolutionError>) -> ResolverAnswer {
    match answer {
        Ok(assets) => Ok(assets@),
        Err(error) => Err(error),
    }
}

/// A resolution that waits for the resolver.
#[derive(Debug, PartialEq, Eq)]
pub struct AwaitingResolver<'a> {
    origin: ResolveOrigin<'a>,
    request: &'a Request,
}

impl<'a> AwaitingResolver<'a> {
    /// The origin that the resolver is asked to resolve from.
    pub closed spec fn origin_model(&self) -> OriginModel {
        self.origin@
    }

    /// The specifier that the resolver is asked for.
    pub closed spec fn specifier_model(&self) -> Seq<char> {
        self.request@
    }

    /// The origin to hand to the resolver.
    pub fn origin(&self) -> (origin: &ResolveOrigin<'a>)
        ensures
            origin@ == self.origin_model(),
    {
        &self.origin
    }

    /// The request to hand to the resolver.
    pub fn request(&self) -> (request: &'a Request)
        ensures
            request@ == self.specifier_model(),
    {
        self.request
    }

    /// Takes the resolver's answer and gives the step that follows it.
    ///
    /// Without candidates the resolution is finished with no entries, and
    /// has not failed; with a failure of the resolver it is finished with
    /// that failure.
    pub fn resolved(self, answer: Result<Vec<Asset>, ResolutionError>) -> (step: EntryStep<'a>)
        ensures
            step@ == step_after_resolver(resolver_answer_of(answer)),
            answer matches Ok(assets) && assets@.len() == 0 ==> step@ == EntryStepModel::Finished(
                Ok(Seq::empty()),
            ),
            answer matches Err(error) ==> step@ == EntryStepModel::Finished(Err(error)),
    {
        match answer {
            Err(error) => EntryStep::Finished(Err(error)),
            Ok(assets) => {
                let entries: Vec<EvaluatedEntry> = Vec::with_capacity(assets.len());
                if assets.len() == 0 {
                    EntryStep::Finished(Ok(entries))
                } else {
                    EntryStep::Check(AwaitingCheck { assets, entries })
                }
            },
        }
    }
}

/// A resolution that waits for the check of one candidate.
#[derive(Debug, PartialEq, Eq)]
pub struct AwaitingCheck {
    assets: Vec<Asset>,
    entries: Vec<EvaluatedEntry>,
}

impl AwaitingCheck {
    #[verifier::type_invariant]
    spec fn has_candidate(&self) -> bool {
        self.entries@.len() < self.assets@.len()
    }

    /// The candidates that the resolver returned, in its order.
    pub closed spec fn assets(&self) -> Seq<Asset> {
        self.assets@
    }

    /// The entries that the candidates before the asked one gave.
    pub closed spec fn entries(&self) -> Seq<EvaluatedEntry> {
        self.entries@
    }

    /// The candidate to hand to the check.
    pub fn asset(&self) -> (asset: Asset)
        ensures
            self.entries().len() < self.assets().len(),
            asset == self.assets()[self.entries().len() as int],
    {
        proof {
            use_type_invariant(self);
        }
        self.assets[self.entries.len()]
    }

    /// Takes the check's answer and gives the step that follows it.
    ///
    /// A candidate without a representation finishes the resolution with
    /// `NotEvaluable` of that candidate: the entries collected so far are
    /// dropped, and the candidates behind it are not asked about.
    pub fn checked(self, answer: Result<Option<EvaluatedEntry>, ResolutionError>) -> (step:
        EntryStep<'static>)
        ensures
            step@ == step_after_check(self.assets(), self.entries(), answer),
            answer == Ok::<Option<EvaluatedEntry>, ResolutionError>(None) ==> step@
                == EntryStepModel::Finished(
                Err(ResolutionError::NotEvaluable(self.assets()[self.entries().len() as int])),
            ),
            answer matches Err(error) ==> step@ == EntryStepModel::Finished(Err(error)),
    {
        proof {
            use_type_invariant(&self);
        }
        match answer {
            Err(error) => EntryStep::Finished(Err(error)),
            Ok(None) => {
                let asset = self.assets[self.entries.len()];
                EntryStep::Finished(Err(ResolutionError::NotEvaluable(asset)))
            },
            Ok(Some(entry)) => {
                let AwaitingCheck { assets, mut entries } = self;
                entries.push(entry);
                if entries.len() < assets.len() {
                    EntryStep::Check(AwaitingCheck { assets, entries })
                } else {
                    EntryStep::Finished(Ok(entries))
                }
            },
        }
    }
}

/// A step of the resolution of one declaration.
#[derive(Debug, PartialEq, Eq)]
pub enum EntryStep<'a> {
    /// Ask the resolver, and hand its answer to `resolved`.
    Resolve(AwaitingResolver<'a>),
    /// Ask the check, and hand its answer to `checked`.
    Check(AwaitingCheck),
    /// The resolution is over: the entries in order, or the failure.
    Finished(Result<Vec<EvaluatedEntry>, ResolutionError>),
}

impl<'a> View for EntryStep<'a> {
    type V = EntryStepModel;

    open spec fn view(&self) -> EntryStepModel {
        match self {
            EntryStep::Resolve(waiting) => EntryStepModel::Resolve {
                origin: waiting.origin_model(),
                specifier: waiting.specifier_model(),
            },
            EntryStep::Check(waiting) => EntryStepModel::Check {
                assets: waiting.assets(),
                entries: waiting.entries(),
            },
            EntryStep::Finished(result) => EntryStepModel::Finished(outcome_of(*result)),
        }
    }
}

impl RuntimeEntry {
    /// The first step of the resolution of this declaration in `context`.
    ///
    /// An evaluated entry resolves to itself, in any context and without a
    /// question to a collaborator: its first step is finished. A request asks
    /// the resolver for its specifier, from the origin made of `context` and
    /// its path.
    pub fn start(&self, context: ResolutionContext) -> (step: EntryStep<'_>)
        ensures
            step@ == first_step(self@, context),
            self@ matches EntryModel::Evaluated { entry } ==> step@ == EntryStepModel::Finished(
                Ok(seq![entry]),
            ),
    {
        match self {
            RuntimeEntry::Evaluated(entry) => {
                let mut entries: Vec<EvaluatedEntry> = Vec::new();
                entries.push(*entry);
                assert(entries@ =~= seq![*entry]);
                EntryStep::Finished(Ok(entries))
            },
            RuntimeEntry::Request(request, path) => EntryStep::Resolve(
                AwaitingResolver { origin: ResolveOrigin::new(context, path), request },
            ),
        }
    }
}

} // verus!
