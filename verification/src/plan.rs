//! What is done for each kind of invocation, once the host has told what
//! it was asked.

use vstd::prelude::*;
use vstd::string::StringExecFns;
use crate::alias::{crud, edited, refusal, shown};
use crate::args::{Crud, CrudText};
use crate::config::marker;
use crate::error::{Error, ErrorText};
use crate::invoke::{Invocation, invocations_view, lemma_dry_run, planned, run_calls};
use crate::parser::{Tables, parse_toml, parsed, to_toml, written};
use crate::path::child_of;
use crate::resolver::{applies, resolve, selected};
use crate::script::{Script, ScriptText, Step, StepText, lemma_steps_push};
use crate::utils::CommandParams;

verus! {

/// Nothing is done, and the invocation ends with `error`.
pub open spec fn failed(error: ErrorText) -> ScriptText {
    ScriptText { steps: Seq::empty(), outcome: Err(error) }
}

fn fail(error: Error) -> (script: Script)
    ensures
        script@ == failed(error@),
{
    let script = Script { steps: Vec::new(), outcome: Err(error) };
    assert(script@.steps =~= Seq::<StepText>::empty());
    script
}

/// The first line of a new configuration: the head of a table, named after
/// the file itself.
pub open spec fn first_line(file: Seq<char>) -> Seq<char> {
    "[\""@ + file + "\"]\n"@
}

/// What is done to start a configuration in the directory `cwd`: its marker
/// file is created, and the head of a table is written into it.
pub open spec fn init_plan(cwd: Seq<char>) -> ScriptText {
    ScriptText {
        steps: seq![
            StepText::Create(marker(cwd)),
            StepText::Write(marker(cwd), first_line(marker(cwd))),
        ],
        outcome: Ok(()),
    }
}

/// What is done to start a configuration in the directory `cwd`.
pub fn init_script(cwd: &str) -> (script: Script)
    ensures
        script@ == init_plan(cwd@),
{
    let file = child_of(cwd, ".d.toml");
    let line = String::from_str("[\"").concat(file.as_str()).concat("\"]\n");
    let mut steps: Vec<Step> = Vec::new();
    proof {
        lemma_steps_push(steps@, Step::Create(file));
    }
    steps.push(Step::Create(file.clone()));
    proof {
        lemma_steps_push(steps@, Step::Write(file, line));
    }
    steps.push(Step::Write(file, line));
    let script = Script { steps, outcome: Ok(()) };
    assert(script@.steps =~= init_plan(cwd@).steps);
    script
}

/// The lines to print: one, or none.
pub open spec fn print_of(text: Option<Seq<char>>) -> Seq<StepText> {
    match text {
        Some(t) => seq![StepText::Print(t)],
        None => Seq::empty(),
    }
}

/// What is done once the table at position `i` of `tables` has taken the
/// change `op`: after a look at the table, what there is to show is printed;
/// after a change, the whole configuration is written to the file `path`.
pub open spec fn settled(path: Seq<char>, tables: Tables, i: int, op: CrudText) -> ScriptText {
    if op is List {
        ScriptText { steps: print_of(shown(tables[i].1, op)), outcome: Ok(()) }
    } else {
        match written(tables.update(i, (tables[i].0, edited(tables[i].1, op)))) {
            Ok(new_text) => ScriptText {
                steps: seq![StepText::Write(path, new_text)],
                outcome: Ok(()),
            },
            Err(error) => failed(error),
        }
    }
}

/// What is done to look at the aliases of the directory `cwd` or to change
/// them, the configuration being the file `path` with the text `text`: the
/// text is read, the directory that applies to `cwd` is found, and its table
/// is looked at or changed as `op` says. Where the text is no configuration,
/// no directory applies or the table refuses, nothing is done.
pub open spec fn crud_plan(path: Seq<char>, text: Seq<char>, cwd: Seq<char>, op: CrudText) -> ScriptText {
    match parsed(text) {
        Err(error) => failed(error),
        Ok(tables) => if !(exists|j: int| applies(tables, cwd, j)) {
            failed(ErrorText::NoConfigForPath(cwd))
        } else {
            match refusal(tables[selected(tables, cwd)].1, op, cwd) {
                Some(why) => failed(why),
                None => settled(path, tables, selected(tables, cwd), op),
            }
        },
    }
}

/// What is done to look at the aliases of the directory `cwd` or to change
/// them.
pub fn crud_script(path: String, text: &str, cwd: &str, op: Crud) -> (script: Script)
    ensures
        script@ == crud_plan(path@, text@, cwd@, op@),
{
    let mut entries = match parse_toml(text) {
        Ok(entries) => entries,
        Err(error) => {
            return fail(error);
        },
    };
    let look = match op {
        Crud::List { .. } => true,
        _ => false,
    };
    let mut steps: Vec<Step> = Vec::new();
    match crud(&mut entries, cwd, op) {
        Err(error) => fail(error),
        Ok(shown) => {
            if look {
                if let Some(line) = shown {
                    proof {
                        lemma_steps_push(steps@, Step::Print(line));
                    }
                    steps.push(Step::Print(line));
                }
                let script = Script { steps, outcome: Ok(()) };
                assert(script@.steps =~= crud_plan(path@, text@, cwd@, op@).steps);
                script
            } else {
                match to_toml(&entries) {
                    Ok(new_text) => {
                        proof {
                            lemma_steps_push(steps@, Step::Write(path, new_text));
                        }
                        steps.push(Step::Write(path, new_text));
                        let script = Script { steps, outcome: Ok(()) };
                        assert(script@.steps =~= crud_plan(path@, text@, cwd@, op@).steps);
                        script
                    },
                    Err(error) => fail(error),
                }
            }
        },
    }
}

/// What is done to run the aliases `calls` in the directory `cwd`, the
/// configuration having the text `text`: the text is read, the directory
/// that applies to `cwd` is found, and the aliases are run from its table.
pub open spec fn alias_plan(
    text: Seq<char>,
    cwd: Seq<char>,
    calls: Seq<Invocation>,
    debug: bool,
    no_op: bool,
) -> ScriptText {
    match parsed(text) {
        Err(error) => failed(error),
        Ok(tables) => if !(exists|j: int| applies(tables, cwd, j)) {
            failed(ErrorText::NoConfigForPath(cwd))
        } else {
            planned(calls, tables[selected(tables, cwd)].1, cwd, debug, no_op)
        },
    }
}

/// What is done to run the aliases `calls` in the directory `cwd`.
pub fn alias_script(text: &str, cwd: &str, calls: &Vec<CommandParams>, debug: bool, no_op: bool) -> (script:
    Script)
    ensures
        script@ == alias_plan(text@, cwd@, invocations_view(calls@), debug, no_op),
{
    let entries = match parse_toml(text) {
        Ok(entries) => entries,
        Err(error) => {
            return fail(error);
        },
    };
    match resolve(&entries, cwd) {
        Err(error) => fail(error),
        Ok((_, entry)) => run_calls(calls, entry, cwd, debug, no_op),
    }
}

/// Where the table refuses, nothing is printed and nothing is written: the
/// configuration stays as it is.
pub proof fn lemma_refused_does_nothing(
    path: Seq<char>,
    text: Seq<char>,
    cwd: Seq<char>,
    op: CrudText,
    tables: Tables,
)
    requires
        parsed(text) == Ok::<Tables, ErrorText>(tables),
        exists|j: int| applies(tables, cwd, j),
        refusal(tables[selected(tables, cwd)].1, op, cwd) is Some,
    ensures
        crud_plan(path, text, cwd, op) == failed(
            refusal(tables[selected(tables, cwd)].1, op, cwd)->0,
        ),
{
}

/// Where the commands are left unrun, nothing is handed to the shell,
/// whatever the configuration and the aliases.
pub proof fn lemma_dry_run_starts_nothing(
    text: Seq<char>,
    cwd: Seq<char>,
    calls: Seq<Invocation>,
    debug: bool,
    i: int,
)
    requires
        0 <= i < alias_plan(text, cwd, calls, debug, true).steps.len(),
    ensures
        alias_plan(text, cwd, calls, debug, true).steps[i] is Print,
{
    match parsed(text) {
        Ok(tables) => {
            if exists|j: int| applies(tables, cwd, j) {
                lemma_dry_run(calls, tables[selected(tables, cwd)].1, cwd, debug, i);
            }
        },
        Err(_) => {},
    }
}

} // verus!
