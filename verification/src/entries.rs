//! A list of runtime entries, and its resolution step by step.
//!
//! The list is resolved declaration by declaration, in list order. Each step
//! but the last asks the caller for the resolution of one declaration; the
//! caller hands the result to the step, which gives the next one. The first
//! failure ends the resolution: the declarations behind it are not asked for.

use vstd::prelude::*;
use crate::entry::{EntryModel, RuntimeEntry};
use crate::error::{outcome_of, Outcome, ResolutionError};
use crate::values::{EvaluatedEntry, ResolutionContext};

verus! {

/// Declarations in the order in which their entries are to be evaluated. A
/// declaration may occur more than once, and then its entries do too.
#[derive(Debug, PartialEq, Eq)]
pub struct RuntimeEntries(pub Vec<RuntimeEntry>);

impl Clone for RuntimeEntries {
    fn clone(&self) -> (copy: Self)
        ensures
            copy.0@ == self.0@,
            copy@ == self@,
    {
        let mut declarations: Vec<RuntimeEntry> = Vec::with_capacity(self.0.len());
        for position in 0..self.0.len()
            invariant
                declarations@ == self.0@.take(position as int),
        {
            declarations.push(self.0[position].clone());
            assert(self.0@.take(position + 1) =~= self.0@.take(position as int).push(
                self.0@[position as int],
            ));
        }
        assert(self.0@.take(self.0@.len() as int) =~= self.0@);
        RuntimeEntries(declarations)
    }
}

impl View for RuntimeEntries {
    type V = Seq<EntryModel>;

    open spec fn view(&self) -> Seq<EntryModel> {
        self.0@.map_values(|entry: RuntimeEntry| entry@)
    }
}

/// A step of the resolution of a list, as a mathematical value.
pub enum EntriesStepModel {
    /// The caller is asked to resolve `declarations[position]` in `context`;
    /// the declarations before it gave `collected`.
    Resolve {
        declarations: Seq<EntryModel>,
        context: ResolutionContext,
        position: nat,
        collected: Seq<EvaluatedEntry>,
    },
    /// Nothing is asked any more.
    Finished(Outcome),
}

/// The step that follows once the first `position` of `declarations` gave
/// `collected`: the next declaration is asked for, or all are done.
pub open spec fn entries_step_onward(
    declarations: Seq<EntryModel>,
    context: ResolutionContext,
    position: nat,
    collected: Seq<EvaluatedEntry>,
) -> EntriesStepModel {
    if position < declarations.len() {
        EntriesStepModel::Resolve { declarations, context, position, collected }
    } else {
        EntriesStepModel::Finished(Ok(collected))
    }
}

/// The first step for `declarations` in `context`.
pub open spec fn first_entries_step(
    declarations: Seq<EntryModel>,
    context: ResolutionContext,
) -> EntriesStepModel {
    entries_step_onward(declarations, context, 0, Seq::empty())
}

/// The step that follows the resolution of `declarations[position]`. Its
/// entries go behind those collected so far, in their own order; its failure
/// ends the resolution of the list as it came.
pub open spec fn step_after_entry(
    declarations: Seq<EntryModel>,
    context: ResolutionContext,
    position: nat,
    collected: Seq<EvaluatedEntry>,
    answer: Outcome,
) -> EntriesStepModel {
    match answer {
        Ok(entries) => entries_step_onward(
            declarations,
            context,
            position + 1,
            collected + entries,
        ),
        Err(error) => EntriesStepModel::Finished(Err(error)),
    }
}

/// A resolution of a list that waits for the resolution of one declaration.
#[derive(Debug, PartialEq, Eq)]
pub struct AwaitingEntry<'a> {
    declarations: &'a RuntimeEntries,
    context: ResolutionContext,
    position: usize,
    collected: Vec<EvaluatedEntry>,
}

impl<'a> AwaitingEntry<'a> {
    #[verifier::type_invariant]
    spec fn has_declaration(&self) -> bool {
        self.position < self.declarations.0@.len()
    }

    /// The declarations of the list.
    pub closed spec fn declarations(&self) -> Seq<EntryModel> {
        self.declarations@
    }

    /// The environment that the list is resolved in.
    pub closed spec fn context_model(&self) -> ResolutionContext {
        self.context
    }

    /// The place in the list of the declaration asked for.
    pub closed spec fn position(&self) -> nat {
        self.position as nat
    }

    /// The entries that the declarations before the asked one gave.
    pub closed spec fn collected(&self) -> Seq<EvaluatedEntry> {
        self.collected@
    }

    /// The declaration to resolve.
    pub fn entry(&self) -> (entry: &'a RuntimeEntry)
        ensures
            self.position() < self.declarations().len(),
            entry@ == self.declarations()[self.position() as int],
    {
        proof {
            use_type_invariant(self);
        }
        &self.declarations.0[self.position]
    }

    /// The place of that declaration in the list, counted from 0.
    pub fn index(&self) -> (index: usize)
        ensures
            index == self.position(),
            index < self.declarations().len(),
    {
        proof {
            use_type_invariant(self);
        }
        self.position
    }

    /// The environment to resolve it in.
    pub fn context(&self) -> (context: ResolutionContext)
        ensures
            context == self.context_model(),
    {
        self.context
    }

    /// Takes the resolution of the declaration asked for and gives the step
    /// that follows it.
    ///
    /// A failure finishes the resolution of the list with that failure: the
    /// entries collected so far are dropped, and the declarations behind the
    /// failed one are not asked for.
    pub fn resolved(self, answer: Result<Vec<EvaluatedEntry>, ResolutionError>) -> (step:
        EntriesStep<'a>)
        ensures
            step@ == step_after_entry(
                self.declarations(),
                self.context_model(),
                self.position(),
                self.collected(),
                outcome_of(answer),
            ),
            answer matches Err(error) ==> step@ == EntriesStepModel::Finished(Err(error)),
    {
        proof {
            use_type_invariant(&self);
        }
        match answer {
            Err(error) => EntriesStep::Finished(Err(error)),
            Ok(mut entries) => {
                let AwaitingEntry { declarations, context, position, mut collected } = self;
                assert(position < declarations.0.len());
                collected.append(&mut entries);
                onward(declarations, context, position + 1, collected)
            },
        }
    }
}

/// A step of the resolution of a list.
#[derive(Debug, PartialEq, Eq)]
pub enum EntriesStep<'a> {
    /// Resolve the declaration, and hand the result to `resolved`.
    Resolve(AwaitingEntry<'a>),
    /// The resolution is over: the entries in order, or the first failure.
    Finished(Result<Vec<EvaluatedEntry>, ResolutionError>),
}

impl<'a> View for EntriesStep<'a> {
    type V = EntriesStepModel;

    open spec fn view(&self) -> EntriesStepModel {
        match self {
            EntriesStep::Resolve(waiting) => EntriesStepModel::Resolve {
                declarations: waiting.declarations(),
                context: waiting.context_model(),
                position: waiting.position(),
                collected: waiting.collected(),
            },
            EntriesStep::Finished(result) => EntriesStepModel::Finished(outcome_of(*result)),
        }
    }
}

/// Asks for the declaration at `position`, or finishes behind the last one.
fn onward<'a>(
    declarations: &'a RuntimeEntries,
    context: ResolutionContext,
    position: usize,
    collected: Vec<EvaluatedEntry>,
) -> (step: EntriesStep<'a>)
    ensures
        step@ == entries_step_onward(declarations@, context, position as nat, collected@),
{
    if position < declarations.0.len() {
        EntriesStep::Resolve(AwaitingEntry { declarations, context, position, collected })
    } else {
        EntriesStep::Finished(Ok(collected))
    }
}

impl RuntimeEntries {
    /// The first step of the resolution of this list in `context`: the first
    /// declaration is asked for, or an empty list is finished with no entries.
    pub fn start(&self, context: ResolutionContext) -> (step: EntriesStep<'_>)
        ensures
            step@ == first_entries_step(self@, context),
    {
        onward(self, context, 0, Vec::new())
    }
}

} // verus!
