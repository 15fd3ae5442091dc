//! Where the configuration is looked for.
//!
//! A project keeps its configuration in a marker file; the search starts in
//! a directory and goes up, directory by directory, until a marker file is
//! there or no directory is left. Whether a file is there is asked of the
//! host.

use vstd::prelude::*;
use crate::error::{Error, ErrorText};
use crate::path::{
    child, child_of, components, is_ancestor, lemma_parent_components, lemma_parent_shorter,
    parent, parent_of,
};
use crate::script::{Script, ScriptText, Step, StepText, lemma_steps_push};
use crate::text::text_of;

verus! {

/// The marker file of the directory `dir`.
pub open spec fn marker(dir: Seq<char>) -> Seq<char> {
    child(dir, ".d.toml"@)
}

/// The directory `k` steps above `start`, if there are that many.
pub open spec fn climbed(start: Seq<char>, k: nat) -> Option<Seq<char>>
    decreases k,
{
    if k == 0 {
        Some(start)
    } else {
        match climbed(start, (k - 1) as nat) {
            Some(dir) => parent(dir),
            None => None,
        }
    }
}

/// Every directory that the search comes to is the directory where it
/// started or one above it, nearer ones first.
pub proof fn lemma_climbed_above(start: Seq<char>, k: nat)
    requires
        climbed(start, k) is Some,
    ensures
        is_ancestor(climbed(start, k)->0, start),
        components(climbed(start, k)->0).len() + k == components(start).len(),
    decreases k,
{
    if k == 0 {
        assert(components(start) =~= components(start).subrange(0, components(start).len() as int));
    } else {
        let below = climbed(start, (k - 1) as nat)->0;
        lemma_climbed_above(start, (k - 1) as nat);
        lemma_parent_components(below);
        let here = components(parent(below)->0);
        assert(here =~= components(start).subrange(0, here.len() as int));
    }
}

/// Whether the host, asked if a file is at the path `text`, gave `answer`.
pub open spec fn said<F: Fn(&str) -> bool>(present: &F, text: Seq<char>, answer: bool) -> bool {
    exists|path: &str| path@ == text && #[trigger] present.ensures((path,), answer)
}

/// Whether a search that starts in the directory `start` ends in the
/// directory `end` with `found`: `end` is `start` or a directory above it;
/// of every directory from `start` up to `end`, but not of `end`, the host
/// said that its marker file is not there; and either `found` is the marker
/// file of `end`, of which the host said that it is there, or nothing was
/// found, the marker file of `end` is not there either, and `end` is the
/// topmost directory.
pub open spec fn searched<F: Fn(&str) -> bool>(
    start: Seq<char>,
    present: &F,
    end: Seq<char>,
    found: Option<Seq<char>>,
) -> bool {
    exists|k: nat|
        {
            &&& climbed(start, k) == Some(end)
            &&& forall|j: nat|
                j < k ==> #[trigger] climbed(start, j) is Some && said(
                    present,
                    marker(climbed(start, j)->0),
                    false,
                )
            &&& match found {
                Some(config) => config == marker(end) && said(present, config, true),
                None => said(present, marker(end), false) && parent(end) is None,
            }
        }
}

/// Goes up from `path` until the marker file of a directory is there, and
/// gives the path of that file; `path` is then that directory. Gives nothing
/// where no directory from `path` up to the topmost has one; `path` is then
/// the topmost.
pub fn traverse_upwards_for_config<F: Fn(&str) -> bool>(path: &mut String, present: &F) -> (found:
    Option<String>)
    requires
        forall|p: &str| present.requires((p,)),
    ensures
        searched(old(path)@, present, final(path)@, text_of(found)),
{
    let ghost start = path@;
    let ghost mut k: nat = 0;
    loop
        invariant
            start == old(path)@,
            forall|p: &str| present.requires((p,)),
            climbed(start, k) == Some(path@),
            forall|j: nat|
                j < k ==> #[trigger] climbed(start, j) is Some && said(
                    present,
                    marker(climbed(start, j)->0),
                    false,
                ),
        decreases path@.len(),
    {
        let candidate = child_of(path.as_str(), ".d.toml");
        if present(candidate.as_str()) {
            assert(said(present, candidate@, true));
            return Some(candidate);
        }
        assert(said(present, marker(path@), false));
        match parent_of(path.as_str()) {
            None => {
                return None;
            },
            Some(above) => {
                proof {
                    lemma_parent_shorter(path@);
                    k = k + 1;
                }
                *path = above;
            },
        }
    }
}

/// The configuration of the project around the directory `start`: the marker
/// file of the nearest directory, from `start` upwards, that has one. The
/// host gives `start` in canonical form, or the cause for which it could not
/// make it so.
pub fn get_config_path<F: Fn(&str) -> bool>(start: Result<String, String>, present: F) -> (found:
    Result<Option<String>, Error>)
    requires
        forall|p: &str| present.requires((p,)),
    ensures
        match start {
            Err(cause) => found matches Err(error) && error@ == ErrorText::ConfigPath(cause@),
            Ok(from) => found matches Ok(config) && exists|end: Seq<char>|
                searched(from@, &present, end, text_of(config)),
        },
{
    match start {
        Err(cause) => Err(Error::ConfigPath(cause)),
        Ok(from) => {
            let mut dir = from;
            let found = traverse_upwards_for_config(&mut dir, &present);
            assert(searched(from@, &present, dir@, text_of(found)));
            Ok(found)
        },
    }
}

/// The directory of this program's own configuration inside the user's
/// configuration directory `config_dir`.
pub open spec fn global_dir(config_dir: Seq<char>) -> Seq<char> {
    child(config_dir, "dipse"@)
}

/// The configuration file of the user, for every project without one of its
/// own.
pub open spec fn global_file(config_dir: Seq<char>) -> Seq<char> {
    child(global_dir(config_dir), "d.toml"@)
}

/// What is done to set up the configuration file of the user: its directory
/// is created, then the file, empty; the invocation then ends by asking the
/// user to fill it in.
pub open spec fn setup_plan(config_dir: Seq<char>) -> ScriptText {
    ScriptText {
        steps: seq![
            StepText::MakeDir(global_dir(config_dir)),
            StepText::Create(global_file(config_dir)),
        ],
        outcome: Err(ErrorText::NewConfig(global_file(config_dir))),
    }
}

/// Whether `found` is what the user's configuration directory `config_dir`
/// and the answer of the host lead to: the path of the user's configuration
/// file where it is there; else what is done to set it up; and nothing to
/// do but to fail where the configuration directory cannot be told.
pub open spec fn is_global_config<F: Fn(&str) -> bool>(
    config_dir: Option<Seq<char>>,
    present: &F,
    found: Result<String, Script>,
) -> bool {
    match config_dir {
        None => found matches Err(script) && script@ == (ScriptText {
            steps: Seq::empty(),
            outcome: Err(ErrorText::ConfigDir),
        }),
        Some(dir) => match found {
            Ok(file) => file@ == global_file(dir) && said(present, global_file(dir), true),
            Err(script) => script@ == setup_plan(dir) && said(present, global_file(dir), false),
        },
    }
}

/// The configuration file of the user inside the configuration directory
/// `config_dir`, or what is to be done where it is not there yet.
pub fn global_config<F: Fn(&str) -> bool>(config_dir: Option<String>, present: &F) -> (found: Result<
    String,
    Script,
>)
    requires
        forall|p: &str| present.requires((p,)),
    ensures
        is_global_config(text_of(config_dir), present, found),
{
    match config_dir {
        None => {
            let script = Script { steps: Vec::new(), outcome: Err(Error::ConfigDir) };
            assert(script@.steps =~= Seq::<StepText>::empty());
            Err(script)
        },
        Some(dir) => {
            let home = child_of(dir.as_str(), "dipse");
            let file = child_of(home.as_str(), "d.toml");
            if present(file.as_str()) {
                return Ok(file);
            }
            assert(said(present, global_file(dir@), false));
            let mut steps: Vec<Step> = Vec::new();
            proof {
                lemma_steps_push(steps@, Step::MakeDir(home));
            }
            steps.push(Step::MakeDir(home));
            proof {
                lemma_steps_push(steps@, Step::Create(file));
            }
            steps.push(Step::Create(file.clone()));
            let script = Script { steps, outcome: Err(Error::NewConfig(file)) };
            assert(script@.steps =~= setup_plan(dir@).steps);
            Err(script)
        },
    }
}

/// Asks `dirs::config_dir` for the configuration directory of the user and
/// gives its path as text. Nothing is claimed of the answer: it depends on
/// the environment.
#[verifier::external_body]
fn user_config_dir() -> (dir: Option<String>) {
    dirs::config_dir().map(|dir| dir.to_string_lossy().into_owned())
}

/// The configuration file of the user, or what is to be done where it is
/// not there yet.
pub fn create_config_file<F: Fn(&str) -> bool>(present: &F) -> (found: Result<String, Script>)
    requires
        forall|p: &str| present.requires((p,)),
    ensures
        exists|config_dir: Option<Seq<char>>| is_global_config(config_dir, present, found),
{
    let config_dir = user_config_dir();
    let found = global_config(config_dir, present);
    assert(is_global_config(text_of(config_dir), present, found));
    found
}

} // verus!
