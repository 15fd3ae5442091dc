//! Running aliases: which commands an invocation stands for, and in which
//! order they are run.

use vstd::prelude::*;
use vstd::string::StringExecFns;
use crate::alias::get_cmd_str;
use crate::assoc::{has_key, value_of};
use crate::error::ErrorText;
use crate::parser::{Entry, Table};
use crate::script::{Script, ScriptText, Step, StepText, lemma_steps_push, steps_view};
use crate::text::{same_text, texts};
use crate::utils::{CommandParams, command_line_of, command_text};

verus! {

/// Whether the first separator `--` of `tokens` stands at `i`.
pub open spec fn splits_at(tokens: Seq<Seq<char>>, i: int) -> bool {
    &&& 0 <= i < tokens.len()
    &&& tokens[i] == "--"@
    &&& forall|j: int| 0 <= j < i ==> tokens[j] != "--"@
}

/// Whether `tokens` hold a separator.
pub open spec fn has_split(tokens: Seq<Seq<char>>) -> bool {
    exists|i: int| splits_at(tokens, i)
}

/// The place of the first separator.
pub open spec fn split_point(tokens: Seq<Seq<char>>) -> int {
    choose|i: int| splits_at(tokens, i)
}

/// The tokens can be read as an invocation: they do not begin with the
/// separator, so that the arguments behind it have an alias to go to.
pub open spec fn invocable(tokens: Seq<Seq<char>>) -> bool {
    !splits_at(tokens, 0)
}

/// Whether the tokens can be read as an invocation.
pub fn is_invocable(cmd_list: &Vec<String>) -> (yes: bool)
    ensures
        yes == invocable(texts(cmd_list@)),
{
    cmd_list.len() == 0 || !same_text(cmd_list[0].as_str(), "--")
}

/// An alias and the arguments for it.
pub type Invocation = (Seq<char>, Seq<Seq<char>>);

/// Each token as an alias without arguments.
pub open spec fn bare(tokens: Seq<Seq<char>>) -> Seq<Invocation> {
    Seq::new(tokens.len(), |i: int| (tokens[i], Seq::<Seq<char>>::empty()))
}

/// The aliases that `tokens` name, each with its arguments: without a
/// separator every token is an alias without arguments; with one, the
/// tokens before it are, but for the last of them, which gets the tokens
/// behind the separator as its arguments.
pub open spec fn invocations(tokens: Seq<Seq<char>>) -> Seq<Invocation> {
    if has_split(tokens) {
        let at = split_point(tokens);
        bare(tokens.take(at - 1)).push((tokens[at - 1], tokens.skip(at + 1)))
    } else {
        bare(tokens)
    }
}

/// The views of a vector of commands with their arguments.
pub open spec fn invocations_view(v: Seq<CommandParams>) -> Seq<Invocation> {
    Seq::new(v.len(), |i: int| (v[i].cmd_str@, texts(v[i].params@)))
}

/// Reads the tokens of an invocation: the aliases to run, in their order,
/// each with the arguments to put behind its command.
pub fn parse_invocations(cmd_list: &Vec<String>) -> (parsed: Vec<CommandParams>)
    requires
        invocable(texts(cmd_list@)),
    ensures
        invocations_view(parsed@) == invocations(texts(cmd_list@)),
{
    let ghost tokens = texts(cmd_list@);
    let mut split: usize = 0;
    while split < cmd_list.len() && !same_text(cmd_list[split].as_str(), "--")
        invariant
            split <= cmd_list.len(),
            tokens == texts(cmd_list@),
            forall|j: int| 0 <= j < split ==> tokens[j] != "--"@,
        decreases cmd_list.len() - split,
    {
        split += 1;
    }
    let found = split < cmd_list.len();
    proof {
        if found {
            assert(splits_at(tokens, split as int));
            let at = split_point(tokens);
            assert(splits_at(tokens, at));
            assert(at == split);
        } else {
            assert forall|i: int| !splits_at(tokens, i) by {}
        }
    }
    let bare_end = if found {
        split - 1
    } else {
        cmd_list.len()
    };
    let mut parsed: Vec<CommandParams> = Vec::new();
    let mut i: usize = 0;
    while i < bare_end
        invariant
            i <= bare_end <= cmd_list.len(),
            tokens == texts(cmd_list@),
            parsed@.len() == i,
            invocations_view(parsed@) == bare(tokens.take(i as int)),
        decreases bare_end - i,
    {
        let ghost before = parsed@;
        parsed.push(CommandParams { cmd_str: cmd_list[i].clone(), params: Vec::new() });
        assert forall|j: int| 0 <= j < i + 1 implies invocations_view(parsed@)[j] == bare(
            tokens.take(i + 1),
        )[j] by {
            if j < i {
                assert(invocations_view(before)[j] == bare(tokens.take(i as int))[j]);
            } else {
                assert(texts(parsed@[j].params@) =~= Seq::<Seq<char>>::empty());
            }
        }
        assert(invocations_view(parsed@) =~= bare(tokens.take(i + 1)));
        i += 1;
    }
    if found {
        let mut params: Vec<String> = Vec::new();
        let mut k: usize = split + 1;
        while k < cmd_list.len()
            invariant
                split < k <= cmd_list.len(),
                tokens == texts(cmd_list@),
                params@.len() == k - split - 1,
                texts(params@) == tokens.subrange(split + 1, k as int),
            decreases cmd_list.len() - k,
        {
            let ghost before = params@;
            params.push(cmd_list[k].clone());
            assert forall|j: int| 0 <= j < k - split implies texts(params@)[j] == tokens.subrange(
                split + 1,
                k + 1,
            )[j] by {
                if j < k - split - 1 {
                    assert(texts(before)[j] == tokens.subrange(split + 1, k as int)[j]);
                }
            }
            assert(texts(params@) =~= tokens.subrange(split + 1, k + 1));
            k += 1;
        }
        assert(tokens.subrange(split + 1, cmd_list.len() as int) =~= tokens.skip(split + 1));
        let ghost before = parsed@;
        parsed.push(CommandParams { cmd_str: cmd_list[split - 1].clone(), params });
        assert forall|j: int| 0 <= j < split implies invocations_view(parsed@)[j] == invocations(
            tokens,
        )[j] by {
            if j < split - 1 {
                assert(invocations_view(before)[j] == bare(tokens.take(split - 1))[j]);
            }
        }
        assert(invocations_view(parsed@) =~= invocations(tokens));
    } else {
        assert(tokens.take(cmd_list.len() as int) =~= tokens);
    }
    parsed
}

/// The line with which a command is shown before it is run.
pub open spec fn echo_text(line: Seq<char>) -> Seq<char> {
    "`"@ + line + "`"@
}

/// What is done for one command: it is shown where `debug` is set, and run
/// unless `no_op` is set.
pub open spec fn steps_for(line: Seq<char>, debug: bool, no_op: bool) -> Seq<StepText> {
    let show = if debug {
        seq![StepText::Print(echo_text(line))]
    } else {
        Seq::empty()
    };
    let run = if no_op {
        Seq::empty()
    } else {
        seq![StepText::Spawn(line)]
    };
    show + run
}

/// What is done for the aliases `calls`, one after the other: each stands
/// for its command in `table`, with its arguments behind it. The first
/// alias that the table does not have ends the invocation; those before it
/// have been run by then.
pub open spec fn planned(
    calls: Seq<Invocation>,
    table: Table,
    cwd: Seq<char>,
    debug: bool,
    no_op: bool,
) -> ScriptText
    decreases calls.len(),
{
    if calls.len() == 0 {
        ScriptText { steps: Seq::empty(), outcome: Ok(()) }
    } else if !has_key(table, calls[0].0) {
        ScriptText {
            steps: Seq::empty(),
            outcome: Err(ErrorText::NoCmdStringFound(cwd, calls[0].0)),
        }
    } else {
        let line = command_text(value_of(table, calls[0].0), calls[0].1);
        let rest = planned(calls.drop_first(), table, cwd, debug, no_op);
        ScriptText { steps: steps_for(line, debug, no_op) + rest.steps, outcome: rest.outcome }
    }
}

/// What is done for the aliases `calls` in a directory with the aliases of
/// `entry`.
pub fn run_calls(calls: &Vec<CommandParams>, entry: &Entry, cwd: &str, debug: bool, no_op: bool) -> (script:
    Script)
    requires
        entry.wf(),
    ensures
        script@ == planned(invocations_view(calls@), entry@, cwd@, debug, no_op),
{
    let ghost all = invocations_view(calls@);
    let ghost goal = planned(all, entry@, cwd@, debug, no_op);
    let mut steps: Vec<Step> = Vec::new();
    let mut i: usize = 0;
    assert(all.skip(0) =~= all);
    assert(steps_view(steps@) + goal.steps =~= goal.steps);
    while i < calls.len()
        invariant
            i <= calls.len(),
            entry.wf(),
            all == invocations_view(calls@),
            goal == planned(all, entry@, cwd@, debug, no_op),
            goal.steps == steps_view(steps@) + planned(
                all.skip(i as int),
                entry@,
                cwd@,
                debug,
                no_op,
            ).steps,
            goal.outcome == planned(all.skip(i as int), entry@, cwd@, debug, no_op).outcome,
        decreases calls.len() - i,
    {
        let ghost rest = all.skip(i as int);
        assert(rest[0] == all[i as int]);
        assert(rest.drop_first() =~= all.skip(i + 1));
        match get_cmd_str(entry, calls[i].cmd_str.as_str(), cwd) {
            Err(error) => {
                let script = Script { steps, outcome: Err(error) };
                assert(!has_key(entry@, rest[0].0));
                assert(script@.steps =~= goal.steps);
                assert(script@.outcome == goal.outcome);
                return script;
            },
            Ok(command) => {
                let line = command_line_of(command.as_str(), &calls[i].params);
                let ghost before = steps_view(steps@);
                if debug {
                    let shown = String::from_str("`").concat(line.as_str()).concat("`");
                    proof {
                        lemma_steps_push(steps@, Step::Print(shown));
                    }
                    steps.push(Step::Print(shown));
                }
                if !no_op {
                    proof {
                        lemma_steps_push(steps@, Step::Spawn(line));
                    }
                    steps.push(Step::Spawn(line));
                }
                assert(steps_view(steps@) =~= before + steps_for(line@, debug, no_op));
                assert(goal.steps =~= steps_view(steps@) + planned(
                    all.skip(i + 1),
                    entry@,
                    cwd@,
                    debug,
                    no_op,
                ).steps);
            },
        }
        i += 1;
    }
    let script = Script { steps, outcome: Ok(()) };
    assert(script@.steps =~= goal.steps);
    assert(script@.outcome == goal.outcome);
    script
}

/// What is done for the invocation `cmd_list` in a directory with the
/// aliases of `entry`: the aliases that the tokens name are run one after
/// the other, the last of them with the arguments behind the separator.
pub fn run_cmd(cmd_list: Vec<String>, entry: &Entry, cwd: &str, debug: bool, no_op: bool) -> (script:
    Script)
    requires
        entry.wf(),
        invocable(texts(cmd_list@)),
    ensures
        script@ == planned(invocations(texts(cmd_list@)), entry@, cwd@, debug, no_op),
{
    let calls = parse_invocations(&cmd_list);
    run_calls(&calls, entry, cwd, debug, no_op)
}

/// The line that opens a file in the user's editor.
pub open spec fn editor_line(path: Seq<char>) -> Seq<char> {
    "$EDITOR "@ + path
}

/// What is done to let the user edit the configuration at `config_path`:
/// the shell starts the editor that the environment names.
pub fn start_editor(config_path: &str) -> (script: Script)
    ensures
        script@ == (ScriptText {
            steps: seq![StepText::Spawn(editor_line(config_path@))],
            outcome: Ok(()),
        }),
{
    let mut steps: Vec<Step> = Vec::new();
    let line = String::from_str("$EDITOR ").concat(config_path);
    proof {
        lemma_steps_push(steps@, Step::Spawn(line));
    }
    steps.push(Step::Spawn(line));
    let script = Script { steps, outcome: Ok(()) };
    assert(script@.steps =~= seq![StepText::Spawn(editor_line(config_path@))]);
    script
}

/// Where the commands are left unrun, nothing is handed to the shell.
pub proof fn lemma_dry_run(calls: Seq<Invocation>, table: Table, cwd: Seq<char>, debug: bool, i: int)
    requires
        0 <= i < planned(calls, table, cwd, debug, true).steps.len(),
    ensures
        planned(calls, table, cwd, debug, true).steps[i] is Print,
    decreases calls.len(),
{
    if calls.len() > 0 && has_key(table, calls[0].0) {
        let line = command_text(value_of(table, calls[0].0), calls[0].1);
        if i >= steps_for(line, debug, true).len() {
            lemma_dry_run(
                calls.drop_first(),
                table,
                cwd,
                debug,
                i - steps_for(line, debug, true).len(),
            );
        }
    }
}

/// Where every alias is in the table, the invocation ends well, and as many
/// commands are handed to the shell as there are aliases.
pub proof fn lemma_all_known(calls: Seq<Invocation>, table: Table, cwd: Seq<char>)
    requires
        forall|i: int| 0 <= i < calls.len() ==> has_key(table, (#[trigger] calls[i]).0),
    ensures
        planned(calls, table, cwd, false, false).outcome is Ok,
        planned(calls, table, cwd, false, false).steps.len() == calls.len(),
        forall|i: int|
            0 <= i < calls.len() ==> #[trigger] planned(calls, table, cwd, false, false).steps[i]
                == StepText::Spawn(command_text(value_of(table, calls[i].0), calls[i].1)),
    decreases calls.len(),
{
    if calls.len() > 0 {
        assert(has_key(table, calls[0].0));
        let rest = calls.drop_first();
        assert forall|i: int| 0 <= i < rest.len() implies has_key(table, (#[trigger] rest[i]).0) by {
            assert(rest[i] == calls[i + 1]);
        }
        lemma_all_known(rest, table, cwd);
        let whole = planned(calls, table, cwd, false, false);
        let tail = planned(rest, table, cwd, false, false);
        assert forall|i: int| 0 <= i < calls.len() implies #[trigger] whole.steps[i]
            == StepText::Spawn(command_text(value_of(table, calls[i].0), calls[i].1)) by {
            if i > 0 {
                assert(whole.steps[i] == tail.steps[i - 1]);
                assert(rest[i - 1] == calls[i]);
            }
        }
    }
}

} // verus!
