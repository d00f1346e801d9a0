//! What a resolution amounts to, given what the collaborators answer.
//!
//! The steps of `entry` and `entries` say what is asked next. This module says
//! what comes out in the end, as a function of the declaration, the
//! environment and the collaborators' answers, and what the steps go through
//! when the collaborators answer them.

use vstd::prelude::*;
use crate::entries::{first_entries_step, step_after_entry, EntriesStepModel};
use crate::entry::{
    first_step, step_after_check, step_after_resolver, CheckAnswer, EntryModel, EntryStepModel,
    ResolverAnswer,
};
use crate::error::{Outcome, ResolutionError};
use crate::values::{Asset, OriginModel, ResolutionContext};

verus! {

/// The collaborators as mathematical functions: what the resolver answers for
/// an origin and a specifier, and what the check answers for an asset.
pub struct Collaborators {
    pub resolver: spec_fn(OriginModel, Seq<char>) -> ResolverAnswer,
    pub check: spec_fn(Asset) -> CheckAnswer,
}

/// The outcomes of parts, taken together: the entries of all parts, part by
/// part in the order of the parts and within a part in its own order, or the
/// failure of the first part that failed.
pub open spec fn in_order(outcomes: Seq<Outcome>) -> Outcome
    decreases outcomes.len(),
{
    if outcomes.len() == 0 {
        Ok(Seq::empty())
    } else {
        match in_order(outcomes.drop_last()) {
            Err(error) => Err(error),
            Ok(before) => match outcomes.last() {
                Err(error) => Err(error),
                Ok(entries) => Ok(before + entries),
            },
        }
    }
}

/// What one candidate contributes, given the check's answer about it: its
/// representation, or `NotEvaluable` of the candidate, or the failure as it
/// came.
pub open spec fn candidate_outcome(asset: Asset, answer: CheckAnswer) -> Outcome {
    match answer {
        Ok(Some(entry)) => Ok(seq![entry]),
        Ok(None) => Err(ResolutionError::NotEvaluable(asset)),
        Err(error) => Err(error),
    }
}

impl Collaborators {
    /// What each of `assets` contributes, in their order.
    pub open spec fn candidate_outcomes(self, assets: Seq<Asset>) -> Seq<Outcome> {
        Seq::new(assets.len(), |i: int| candidate_outcome(assets[i], (self.check)(assets[i])))
    }

    /// What the resolution of `entry` in `context` comes to.
    pub open spec fn entry_outcome(self, entry: EntryModel, context: ResolutionContext) -> Outcome {
        match entry {
            EntryModel::Evaluated { entry } => Ok(seq![entry]),
            EntryModel::Request { specifier, origin_path } => match (self.resolver)(
                OriginModel { context, path: origin_path },
                specifier,
            ) {
                Ok(assets) => in_order(self.candidate_outcomes(assets)),
                Err(error) => Err(error),
            },
        }
    }

    /// What each of `declarations` comes to in `context`, in their order.
    pub open spec fn entry_outcomes(
        self,
        declarations: Seq<EntryModel>,
        context: ResolutionContext,
    ) -> Seq<Outcome> {
        Seq::new(declarations.len(), |i: int| self.entry_outcome(declarations[i], context))
    }

    /// What the resolution of the list `declarations` in `context` comes to.
    pub open spec fn entries_outcome(
        self,
        declarations: Seq<EntryModel>,
        context: ResolutionContext,
    ) -> Outcome {
        in_order(self.entry_outcomes(declarations, context))
    }

    /// The step that follows `step` when its question is answered. A finished
    /// resolution stays as it is.
    pub open spec fn answer_entry_step(self, step: EntryStepModel) -> EntryStepModel {
        match step {
            EntryStepModel::Resolve { origin, specifier } => step_after_resolver(
                (self.resolver)(origin, specifier),
            ),
            EntryStepModel::Check { assets, entries } => step_after_check(
                assets,
                entries,
                (self.check)(assets[entries.len() as int]),
            ),
            EntryStepModel::Finished(outcome) => EntryStepModel::Finished(outcome),
        }
    }

    /// The step that the resolution of `entry` in `context` is at when
    /// `answers` of its questions have been answered.
    pub open spec fn run_entry(
        self,
        entry: EntryModel,
        context: ResolutionContext,
        answers: nat,
    ) -> EntryStepModel
        decreases answers,
    {
        if answers == 0 {
            first_step(entry, context)
        } else {
            self.answer_entry_step(self.run_entry(entry, context, (answers - 1) as nat))
        }
    }

    /// The number of questions that the resolution of `entry` in `context`
    /// asks at most: one to the resolver, and one for each candidate.
    pub open spec fn entry_questions(self, entry: EntryModel, context: ResolutionContext) -> nat {
        match entry {
            EntryModel::Evaluated { .. } => 0,
            EntryModel::Request { specifier, origin_path } => match (self.resolver)(
                OriginModel { context, path: origin_path },
                specifier,
            ) {
                Ok(assets) => 1 + assets.len(),
                Err(_) => 1,
            },
        }
    }

    /// The step that follows `step` when the declaration that it asks for is
    /// resolved. A finished resolution stays as it is.
    pub open spec fn answer_entries_step(self, step: EntriesStepModel) -> EntriesStepModel {
        match step {
            EntriesStepModel::Resolve {
                declarations,
                context,
                position,
                collected,
            } => step_after_entry(
                declarations,
                context,
                position,
                collected,
                self.entry_outcome(declarations[position as int], context),
            ),
            EntriesStepModel::Finished(outcome) => EntriesStepModel::Finished(outcome),
        }
    }

    /// The step that the resolution of the list `declarations` in `context` is
    /// at when `answers` of its declarations have been resolved.
    pub open spec fn run_entries(
        self,
        declarations: Seq<EntryModel>,
        context: ResolutionContext,
        answers: nat,
    ) -> EntriesStepModel
        decreases answers,
    {
        if answers == 0 {
            first_entries_step(declarations, context)
        } else {
            self.answer_entries_step(
                self.run_entries(declarations, context, (answers - 1) as nat),
            )
        }
    }
}

} // verus!
