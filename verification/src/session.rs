//! One invocation from its options to its end.
//!
//! The library opens no file and starts no process. A [`Session`] says what
//! the host has to do next; the host does it and hands back what came of
//! it, until the session is finished.

use vstd::prelude::*;
use crate::args::{Crud, CrudText, Opt, OptText, SubOpt, SubOptText};
use crate::error::{Error, ErrorText};
use crate::invoke::{
    Invocation, editor_line, invocable, invocations, invocations_view, is_invocable,
    parse_invocations, start_editor,
};
use crate::plan::{alias_plan, alias_script, crud_plan, crud_script, init_plan, init_script};
use crate::script::{Script, ScriptText, Step, StepText, failure_of, outcome_view};
use crate::text::text_of;
use crate::utils::CommandParams;

verus! {

/// What an invocation is for, once its configuration is at hand.
#[derive(Debug, PartialEq, Eq)]
pub enum Goal {
    /// Open the configuration in the user's editor.
    Edit,
    /// Look at the aliases of the directory or change them.
    Crud(Crud),
    /// Run these aliases; whether to show each command; whether to leave
    /// the commands unrun.
    Alias(Vec<CommandParams>, bool, bool),
}

/// A [`Goal`] with its texts as sequences of characters.
pub enum GoalText {
    Edit,
    Crud(CrudText),
    Alias(Seq<Invocation>, bool, bool),
}

impl View for Goal {
    type V = GoalText;

    open spec fn view(&self) -> GoalText {
        match self {
            Goal::Edit => GoalText::Edit,
            Goal::Crud(op) => GoalText::Crud(op@),
            Goal::Alias(calls, debug, no_op) => GoalText::Alias(
                invocations_view(calls@),
                *debug,
                *no_op,
            ),
        }
    }
}

/// Where an invocation stands, and with it what the host has to do next.
#[derive(Debug, PartialEq, Eq)]
pub enum Session {
    /// A configuration is to be started. The host tells the working
    /// directory.
    InitDir,
    /// No configuration was named. The host looks for the configuration of
    /// the project around the working directory.
    Locating(Goal),
    /// The configuration is the file at the path. The host reads it.
    Reading(Goal, String),
    /// The configuration at the path has the text. The host tells the
    /// working directory.
    NeedDir(Goal, String, String),
    /// The host does the step of the script at the position.
    Running(Script, usize),
    /// The invocation has ended, so.
    Finished(Result<(), Error>),
}

/// A [`Session`] with its texts as sequences of characters.
pub enum SessionText {
    InitDir,
    Locating(GoalText),
    Reading(GoalText, Seq<char>),
    NeedDir(GoalText, Seq<char>, Seq<char>),
    Running(ScriptText, nat),
    Finished(Result<(), ErrorText>),
}

impl View for Session {
    type V = SessionText;

    open spec fn view(&self) -> SessionText {
        match self {
            Session::InitDir => SessionText::InitDir,
            Session::Locating(goal) => SessionText::Locating(goal@),
            Session::Reading(goal, path) => SessionText::Reading(goal@, path@),
            Session::NeedDir(goal, path, text) => SessionText::NeedDir(goal@, path@, text@),
            Session::Running(script, next) => SessionText::Running(script@, *next as nat),
            Session::Finished(outcome) => SessionText::Finished(outcome_view(*outcome)),
        }
    }
}

/// What the host hands back.
#[derive(Debug, PartialEq, Eq)]
pub enum Reply {
    /// The working directory; nothing where it cannot be told.
    Dir(Option<String>),
    /// What the search for the configuration of the project gave.
    Located(Result<Option<String>, Error>),
    /// The text of the file, or the cause for which it could not be read.
    Text(Result<String, String>),
    /// The step is done, or the cause for which it could not be done.
    Done(Result<(), String>),
}

/// A [`Reply`] with its texts as sequences of characters.
pub enum ReplyText {
    Dir(Option<Seq<char>>),
    Located(Result<Option<Seq<char>>, ErrorText>),
    Text(Result<Seq<char>, Seq<char>>),
    Done(Result<(), Seq<char>>),
}

impl View for Reply {
    type V = ReplyText;

    open spec fn view(&self) -> ReplyText {
        match self {
            Reply::Dir(dir) => ReplyText::Dir(text_of(*dir)),
            Reply::Located(Ok(found)) => ReplyText::Located(Ok(text_of(*found))),
            Reply::Located(Err(error)) => ReplyText::Located(Err(error@)),
            Reply::Text(Ok(text)) => ReplyText::Text(Ok(text@)),
            Reply::Text(Err(cause)) => ReplyText::Text(Err(cause@)),
            Reply::Done(Ok(_)) => ReplyText::Done(Ok(())),
            Reply::Done(Err(cause)) => ReplyText::Done(Err(cause@)),
        }
    }
}

/// The session that does the steps of `script` from position `next` on:
/// it ends with the outcome of the script where no step is left.
pub open spec fn advance(script: ScriptText, next: nat) -> SessionText {
    if next < script.steps.len() {
        SessionText::Running(script, next)
    } else {
        SessionText::Finished(script.outcome)
    }
}

/// The session that gets the configuration for `goal`: the file that was
/// named is read; where none was named, one is looked for.
pub open spec fn load(goal: GoalText, config_path: Option<Seq<char>>) -> SessionText {
    match config_path {
        Some(path) => SessionText::Reading(goal, path),
        None => SessionText::Locating(goal),
    }
}

/// The options can be acted on: the tokens of an invocation of aliases do
/// not begin with the separator.
pub open spec fn startable(opt: OptText) -> bool {
    opt.sub_cmd matches Some(SubOptText::Other(tokens)) ==> invocable(tokens)
}

/// The session at its start. Without a subcommand there is nothing to do.
/// A configuration is started only where none was named.
pub open spec fn started(opt: OptText) -> SessionText {
    match opt.sub_cmd {
        None => SessionText::Finished(Ok(())),
        Some(SubOptText::Init) => match opt.config_path {
            Some(path) => SessionText::Finished(Err(ErrorText::ConfigExist(path))),
            None => SessionText::InitDir,
        },
        Some(SubOptText::Edit) => load(GoalText::Edit, opt.config_path),
        Some(SubOptText::Crud(op)) => load(GoalText::Crud(op), opt.config_path),
        Some(SubOptText::Other(tokens)) => load(
            GoalText::Alias(invocations(tokens), opt.debug, opt.no_op),
            opt.config_path,
        ),
    }
}

/// What is done for `goal`, the configuration being the file `path` with
/// the text `text`, in the working directory `cwd`.
pub open spec fn act(goal: GoalText, path: Seq<char>, text: Seq<char>, cwd: Seq<char>) -> ScriptText {
    match goal {
        GoalText::Edit => ScriptText {
            steps: seq![StepText::Spawn(editor_line(path))],
            outcome: Ok(()),
        },
        GoalText::Crud(op) => crud_plan(path, text, cwd, op),
        GoalText::Alias(calls, debug, no_op) => alias_plan(text, cwd, calls, debug, no_op),
    }
}

/// The session after the host has handed back `reply`. A reply that the
/// session did not ask for leaves it as it is.
pub open spec fn resumed(session: SessionText, reply: ReplyText) -> SessionText {
    match (session, reply) {
        (SessionText::InitDir, ReplyText::Dir(Some(cwd))) => advance(init_plan(cwd), 0),
        (SessionText::InitDir, ReplyText::Dir(None)) => SessionText::Finished(
            Err(ErrorText::CurrentDir),
        ),
        (SessionText::Locating(goal), ReplyText::Located(Ok(Some(path)))) => SessionText::Reading(
            goal,
            path,
        ),
        (SessionText::Locating(goal), ReplyText::Located(Ok(None))) => SessionText::Finished(
            Err(ErrorText::NoConfigFile),
        ),
        (SessionText::Locating(goal), ReplyText::Located(Err(error))) => SessionText::Finished(
            Err(error),
        ),
        (SessionText::Reading(goal, path), ReplyText::Text(Ok(text))) => match goal {
            GoalText::Edit => advance(act(goal, path, text, Seq::empty()), 0),
            _ => SessionText::NeedDir(goal, path, text),
        },
        (SessionText::Reading(goal, path), ReplyText::Text(Err(cause))) => SessionText::Finished(
            Err(ErrorText::NoFile(path, cause)),
        ),
        (SessionText::NeedDir(goal, path, text), ReplyText::Dir(Some(cwd))) => advance(
            act(goal, path, text, cwd),
            0,
        ),
        (SessionText::NeedDir(goal, path, text), ReplyText::Dir(None)) => SessionText::Finished(
            Err(ErrorText::CurrentDir),
        ),
        (SessionText::Running(script, next), ReplyText::Done(Ok(_))) => advance(script, next + 1),
        (SessionText::Running(script, next), ReplyText::Done(Err(cause))) => if next
            < script.steps.len() {
            match failure_of(script.steps[next as int], cause) {
                Some(error) => SessionText::Finished(Err(error)),
                None => advance(script, next + 1),
            }
        } else {
            SessionText::Finished(script.outcome)
        },
        _ => session,
    }
}

fn begin(script: Script) -> (session: Session)
    ensures
        session@ == advance(script@, 0),
{
    follow(script, 0)
}

fn follow(script: Script, next: usize) -> (session: Session)
    ensures
        session@ == advance(script@, next as nat),
{
    if next < script.steps.len() {
        Session::Running(script, next)
    } else {
        Session::Finished(script.outcome)
    }
}

fn load_for(goal: Goal, config_path: Option<String>) -> (session: Session)
    ensures
        session@ == load(goal@, text_of(config_path)),
{
    match config_path {
        Some(path) => Session::Reading(goal, path),
        None => Session::Locating(goal),
    }
}

fn act_on(goal: Goal, path: String, text: &str, cwd: &str) -> (script: Script)
    ensures
        script@ == act(goal@, path@, text@, cwd@),
{
    match goal {
        Goal::Edit => start_editor(path.as_str()),
        Goal::Crud(op) => crud_script(path, text, cwd, op),
        Goal::Alias(calls, debug, no_op) => alias_script(text, cwd, &calls, debug, no_op),
    }
}

/// Whether an invocation can be begun with the options `opt`.
pub fn can_run(opt: &Opt) -> (yes: bool)
    ensures
        yes == startable(opt@),
{
    match &opt.sub_cmd {
        Some(SubOpt::Other(tokens)) => is_invocable(tokens),
        _ => true,
    }
}

/// Begins an invocation with the options `opt`.
pub fn run(opt: Opt) -> (session: Session)
    requires
        startable(opt@),
    ensures
        session@ == started(opt@),
{
    let debug = opt.debug;
    let no_op = opt.no_op;
    match opt.sub_cmd {
        None => Session::Finished(Ok(())),
        Some(SubOpt::Init) => match opt.config_path {
            Some(path) => Session::Finished(Err(Error::ConfigExist(path))),
            None => Session::InitDir,
        },
        Some(SubOpt::Edit) => load_for(Goal::Edit, opt.config_path),
        Some(SubOpt::Crud(op)) => load_for(Goal::Crud(op), opt.config_path),
        Some(SubOpt::Other(tokens)) => {
            let calls = parse_invocations(&tokens);
            load_for(Goal::Alias(calls, debug, no_op), opt.config_path)
        },
    }
}

impl Session {
    /// The step that the host has to do now, if the session is at one.
    pub fn step(&self) -> (step: Option<&Step>)
        ensures
            match self@ {
                SessionText::Running(script, next) if next < script.steps.len() => step matches Some(
                    s,
                ) && s@ == script.steps[next as int],
                _ => step is None,
            },
    {
        match self {
            Session::Running(script, next) => if *next < script.steps.len() {
                Some(&script.steps[*next])
            } else {
                None
            },
            _ => None,
        }
    }

    /// Goes on with what the host hands back.
    pub fn resume(self, reply: Reply) -> (next: Session)
        ensures
            next@ == resumed(self@, reply@),
    {
        match self {
            Session::InitDir => match reply {
                Reply::Dir(Some(cwd)) => begin(init_script(cwd.as_str())),
                Reply::Dir(None) => Session::Finished(Err(Error::CurrentDir)),
                _ => Session::InitDir,
            },
            Session::Locating(goal) => match reply {
                Reply::Located(Ok(Some(path))) => Session::Reading(goal, path),
                Reply::Located(Ok(None)) => Session::Finished(Err(Error::NoConfigFile)),
                Reply::Located(Err(error)) => Session::Finished(Err(error)),
                _ => Session::Locating(goal),
            },
            Session::Reading(goal, path) => match reply {
                Reply::Text(Ok(text)) => match goal {
                    Goal::Edit => begin(act_on(goal, path, text.as_str(), "")),
                    _ => Session::NeedDir(goal, path, text),
                },
                Reply::Text(Err(cause)) => Session::Finished(Err(Error::NoFile(path, cause))),
                _ => Session::Reading(goal, path),
            },
            Session::NeedDir(goal, path, text) => match reply {
                Reply::Dir(Some(cwd)) => begin(act_on(goal, path, text.as_str(), cwd.as_str())),
                Reply::Dir(None) => Session::Finished(Err(Error::CurrentDir)),
                _ => Session::NeedDir(goal, path, text),
            },
            Session::Running(script, next) => match reply {
                Reply::Done(Ok(_)) => if next < script.steps.len() {
                    follow(script, next + 1)
                } else {
                    Session::Finished(script.outcome)
                },
                Reply::Done(Err(cause)) => if next < script.steps.len() {
                    match script.steps[next].failure(cause) {
                        Some(error) => Session::Finished(Err(error)),
                        None => follow(script, next + 1),
                    }
                } else {
                    Session::Finished(script.outcome)
                },
                _ => Session::Running(script, next),
            },
            Session::Finished(outcome) => Session::Finished(outcome),
        }
    }
}

} // verus!
