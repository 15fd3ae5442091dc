//! What the host is asked to do for one invocation.

use vstd::prelude::*;
use crate::error::{Error, ErrorText};

verus! {

/// One thing for the host to do.
#[derive(Debug, PartialEq, Eq)]
pub enum Step {
    /// Write the line to standard output.
    Print(String),
    /// Create the directory at the path, with those above it.
    MakeDir(String),
    /// Create an empty file at the path.
    Create(String),
    /// Put the text in the place of what the file at the path holds.
    Write(String, String),
    /// Hand the line to the shell and wait until the command ends, with the
    /// streams of this process. Only a command that cannot be started is a
    /// failure; how it ends is not looked at.
    Spawn(String),
}

/// A [`Step`] with its texts as sequences of characters.
pub enum StepText {
    Print(Seq<char>),
    MakeDir(Seq<char>),
    Create(Seq<char>),
    Write(Seq<char>, Seq<char>),
    Spawn(Seq<char>),
}

impl View for Step {
    type V = StepText;

    open spec fn view(&self) -> StepText {
        match self {
            Step::Print(line) => StepText::Print(line@),
            Step::MakeDir(path) => StepText::MakeDir(path@),
            Step::Create(path) => StepText::Create(path@),
            Step::Write(path, text) => StepText::Write(path@, text@),
            Step::Spawn(line) => StepText::Spawn(line@),
        }
    }
}

/// The views of a vector of steps.
pub open spec fn steps_view(steps: Seq<Step>) -> Seq<StepText> {
    Seq::new(steps.len(), |i: int| steps[i]@)
}

/// The view of a sequence with one more step is the view with one more.
pub proof fn lemma_steps_push(steps: Seq<Step>, step: Step)
    ensures
        steps_view(steps.push(step)) == steps_view(steps).push(step@),
{
    assert(steps_view(steps.push(step)) =~= steps_view(steps).push(step@));
}

/// What the failure of a step means for the invocation; nothing for a line
/// that was to be printed.
pub open spec fn failure_of(step: StepText, cause: Seq<char>) -> Option<ErrorText> {
    match step {
        StepText::Print(_) => None,
        StepText::MakeDir(path) => Some(ErrorText::ConfigDirCreation(path, cause)),
        StepText::Create(path) => Some(ErrorText::ConfigFileCreation(path, cause)),
        StepText::Write(path, _) => Some(ErrorText::ConfigFileWrite(path, cause)),
        StepText::Spawn(_) => Some(ErrorText::Command(cause)),
    }
}

/// The views of an optional error.
pub open spec fn error_view(error: Option<Error>) -> Option<ErrorText> {
    match error {
        Some(e) => Some(e@),
        None => None,
    }
}

/// The view of an outcome.
pub open spec fn outcome_view(outcome: Result<(), Error>) -> Result<(), ErrorText> {
    match outcome {
        Ok(_) => Ok(()),
        Err(e) => Err(e@),
    }
}

impl Step {
    /// The error with which the invocation ends where the host could not do
    /// this step, `cause` being what the system said; nothing for a line
    /// that was to be printed.
    pub fn failure(&self, cause: String) -> (error: Option<Error>)
        ensures
            error_view(error) == failure_of(self@, cause@),
    {
        match self {
            Step::Print(_) => None,
            Step::MakeDir(path) => Some(Error::ConfigDirCreation(path.clone(), cause)),
            Step::Create(path) => Some(Error::ConfigFileCreation(path.clone(), cause)),
            Step::Write(path, _) => Some(Error::ConfigFileWrite(path.clone(), cause)),
            Step::Spawn(_) => Some(Error::Command(cause)),
        }
    }
}

/// The steps of one invocation and how it ends once they are done. The host
/// does the steps in their order; where one fails, it stops, and the
/// invocation ends with the failure of that step.
#[derive(Debug, PartialEq, Eq)]
pub struct Script {
    /// The steps, in the order in which to do them.
    pub steps: Vec<Step>,
    /// How the invocation ends once every step is done.
    pub outcome: Result<(), Error>,
}

/// A [`Script`] with its texts as sequences of characters.
pub struct ScriptText {
    pub steps: Seq<StepText>,
    pub outcome: Result<(), ErrorText>,
}

impl View for Script {
    type V = ScriptText;

    open spec fn view(&self) -> ScriptText {
        ScriptText { steps: steps_view(self.steps@), outcome: outcome_view(self.outcome) }
    }
}

} // verus!
