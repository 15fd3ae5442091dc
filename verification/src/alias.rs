//! Looking at the aliases of a directory and changing them.

use vstd::prelude::*;
use vstd::string::StringExecFns;
use crate::args::{Crud, CrudText};
use crate::assoc::{has_key, lemma_put, lemma_put_then_without, put, sorted_keys, value_of, without};
use crate::error::{Error, ErrorText};
use crate::parser::{Entries, Entry, Table};
use crate::resolver::{applies, is_selected, select, selected};
use crate::text::{glue, text_of};

verus! {

/// The command that `cmd` stands for in the table.
pub fn get_cmd_str(entry: &Entry, cmd: &str, cwd: &str) -> (found: Result<String, Error>)
    requires
        entry.wf(),
    ensures
        match found {
            Ok(command) => has_key(entry@, cmd@) && command@ == value_of(entry@, cmd@),
            Err(error) => !has_key(entry@, cmd@) && error@ == ErrorText::NoCmdStringFound(
                cwd@,
                cmd@,
            ),
        },
{
    match entry.get(cmd) {
        Some(command) => Ok(command.clone()),
        None => Err(Error::NoCmdStringFound(cwd.to_owned(), cmd.to_owned())),
    }
}

/// How the formatting of the standard library shows a text for debugging:
/// between double quotes, with what cannot stand there escaped.
pub uninterp spec fn debug_text(text: Seq<char>) -> Seq<char>;

/// Formats a text as `Debug` for `str` does, with `{:?}`. Trusted: that what
/// comes out depends on the text alone.
#[verifier::external_body]
fn quoted(text: &str) -> (shown: String)
    ensures
        shown@ == debug_text(text@),
{
    format!("{:?}", text)
}

/// One line for each alias of the table.
pub open spec fn listing_lines(table: Table) -> Seq<char>
    decreases table.len(),
{
    if table.len() == 0 {
        Seq::empty()
    } else {
        listing_lines(table.drop_last()) + "    "@ + debug_text(table.last().0) + ": "@
            + debug_text(table.last().1) + ",\n"@
    }
}

/// The table as it is shown: its aliases between braces, one on a line; the
/// two braces alone where it has none.
pub open spec fn listing(table: Table) -> Seq<char> {
    if table.len() == 0 {
        "{}"@
    } else {
        "{\n"@ + listing_lines(table) + "}"@
    }
}

/// What is shown of one alias.
pub open spec fn alias_line(name: Seq<char>, command: Seq<char>) -> Seq<char> {
    name + ": "@ + command
}

/// What to show of the table: the alias `name` with its command, or the
/// whole table where no name is given.
pub fn list_entries(entry: &Entry, name: Option<String>, cwd: &str) -> (shown: Result<
    String,
    Error,
>)
    requires
        entry.wf(),
    ensures
        match (name, shown) {
            (None, Ok(text)) => text@ == listing(entry@),
            (Some(n), Ok(text)) => has_key(entry@, n@) && text@ == alias_line(
                n@,
                value_of(entry@, n@),
            ),
            (Some(n), Err(error)) => !has_key(entry@, n@) && error@
                == ErrorText::NoCmdStringFound(cwd@, n@),
            (None, Err(_)) => false,
        },
{
    match name {
        Some(n) => match entry.get(n.as_str()) {
            Some(command) => {
                let mut text = n;
                text.append(": ");
                text.append(command.as_str());
                Ok(text)
            },
            None => Err(Error::NoCmdStringFound(cwd.to_owned(), n)),
        },
        None => {
            if entry.len() == 0 {
                return Ok(String::from_str("{}"));
            }
            let mut text = String::from_str("{\n");
            let mut i: usize = 0;
            while i < entry.len()
                invariant
                    i <= entry@.len(),
                    text@ == "{\n"@ + listing_lines(entry@.take(i as int)),
                decreases entry@.len() - i,
            {
                assert(entry@.take(i + 1).drop_last() =~= entry@.take(i as int));
                let line = glue("    ", quoted(entry.name_at(i).as_str()).as_str(), ": ", quoted(
                    entry.command_at(i).as_str(),
                ).as_str());
                text.append(line.as_str());
                text.append(",\n");
                assert(text@ =~= "{\n"@ + listing_lines(entry@.take(i + 1)));
                i += 1;
            }
            assert(entry@.take(entry@.len() as int) =~= entry@);
            text.append("}");
            Ok(text)
        },
    }
}

/// Why the table does not take the change or cannot show what is asked
/// for; nothing where it does.
pub open spec fn refusal(table: Table, op: CrudText, cwd: Seq<char>) -> Option<ErrorText> {
    match op {
        CrudText::Add { name, cmd } => if has_key(table, name) {
            Some(ErrorText::CmdStringExists(cwd, value_of(table, name)))
        } else {
            None
        },
        CrudText::List { name: Some(name) } => if has_key(table, name) {
            None
        } else {
            Some(ErrorText::NoCmdStringFound(cwd, name))
        },
        CrudText::List { name: None } => None,
        CrudText::Update { name, cmd } => if has_key(table, name) {
            None
        } else {
            Some(ErrorText::NoCmdStringFound(cwd, name))
        },
        CrudText::Delete { name } => if has_key(table, name) {
            None
        } else {
            Some(ErrorText::NoCmdStringFound(cwd, name))
        },
    }
}

/// The table after the change.
pub open spec fn edited(table: Table, op: CrudText) -> Table {
    match op {
        CrudText::Add { name, cmd } => put(table, name, cmd),
        CrudText::List { name } => table,
        CrudText::Update { name, cmd } => put(table, name, cmd),
        CrudText::Delete { name } => without(table, name),
    }
}

/// What is shown to the user.
pub open spec fn shown(table: Table, op: CrudText) -> Option<Seq<char>> {
    match op {
        CrudText::List { name: Some(name) } => Some(alias_line(name, value_of(table, name))),
        CrudText::List { name: None } => Some(listing(table)),
        _ => None,
    }
}

/// Looks at the table at position `i` or changes it, as `op` says. A new
/// alias is added only where the name is free; an alias is given another
/// command, or taken away, only where it is there. Where the table refuses,
/// nothing is changed.
pub fn apply(entries: &mut Entries, i: usize, op: Crud, cwd: &str) -> (done: Result<
    Option<String>,
    Error,
>)
    requires
        old(entries).wf(),
        i < old(entries)@.len(),
    ensures
        final(entries).wf(),
        match refusal(old(entries)@[i as int].1, op@, cwd@) {
            Some(why) => done matches Err(error) && error@ == why && final(entries)@ == old(
                entries,
            )@,
            None => done matches Ok(text) && text_of(text) == shown(
                old(entries)@[i as int].1,
                op@,
            ) && final(entries)@ == old(entries)@.update(
                i as int,
                (old(entries)@[i as int].0, edited(old(entries)@[i as int].1, op@)),
            ),
        },
{
    let ghost before = entries@;
    match op {
        Crud::List { name } => {
            assert(before.update(i as int, (before[i as int].0, before[i as int].1)) =~= before);
            match list_entries(entries.entry_at(i), name, cwd) {
                Ok(text) => Ok(Some(text)),
                Err(error) => Err(error),
            }
        },
        Crud::Add { name, cmd } => {
            match entries.entry_at(i).get(name.as_str()) {
                Some(command) => Err(Error::CmdStringExists(cwd.to_owned(), command.clone())),
                None => {
                    entries.insert_alias(i, name, cmd);
                    Ok(None)
                },
            }
        },
        Crud::Update { name, cmd } => {
            if entries.entry_at(i).get(name.as_str()).is_none() {
                return Err(Error::NoCmdStringFound(cwd.to_owned(), name));
            }
            entries.insert_alias(i, name, cmd);
            Ok(None)
        },
        Crud::Delete { name } => {
            if entries.entry_at(i).get(name.as_str()).is_none() {
                return Err(Error::NoCmdStringFound(cwd.to_owned(), name));
            }
            entries.remove_alias(i, name.as_str());
            Ok(None)
        },
    }
}

/// Finds the table that applies to `cwd` and looks at it or changes it, as
/// `op` says.
pub fn crud(entries: &mut Entries, cwd: &str, op: Crud) -> (done: Result<Option<String>, Error>)
    requires
        old(entries).wf(),
    ensures
        final(entries).wf(),
        (forall|j: int| !applies(old(entries)@, cwd@, j)) ==> (done matches Err(error) && error@
            == ErrorText::NoConfigForPath(cwd@) && final(entries)@ == old(entries)@),
        (exists|j: int| applies(old(entries)@, cwd@, j)) ==> {
            let i = selected(old(entries)@, cwd@);
            &&& is_selected(old(entries)@, cwd@, i)
            &&& match refusal(old(entries)@[i].1, op@, cwd@) {
                Some(why) => done matches Err(error) && error@ == why && final(entries)@ == old(
                    entries,
                )@,
                None => done matches Ok(text) && text_of(text) == shown(old(entries)@[i].1, op@)
                    && final(entries)@ == old(entries)@.update(
                    i,
                    (old(entries)@[i].0, edited(old(entries)@[i].1, op@)),
                ),
            }
        },
{
    match select(entries, cwd) {
        Some(i) => {
            assert(applies(entries@, cwd@, i as int));
            apply(entries, i, op, cwd)
        },
        None => Err(Error::NoConfigForPath(cwd.to_owned())),
    }
}

/// An alias that was added can be taken away again, and the table is then
/// what it was.
pub proof fn lemma_add_then_delete(table: Table, name: Seq<char>, cmd: Seq<char>, cwd: Seq<char>)
    requires
        sorted_keys(table),
        refusal(table, CrudText::Add { name, cmd }, cwd) is None,
    ensures
        refusal(edited(table, CrudText::Add { name, cmd }), CrudText::Delete { name }, cwd) is None,
        edited(edited(table, CrudText::Add { name, cmd }), CrudText::Delete { name }) == table,
{
    lemma_put(table, name, cmd);
    lemma_put_then_without(table, name, cmd);
}

/// An alias that was added cannot be added again: the table refuses, and
/// tells the command that the alias has.
pub proof fn lemma_add_twice(
    table: Table,
    name: Seq<char>,
    cmd: Seq<char>,
    other: Seq<char>,
    cwd: Seq<char>,
)
    requires
        sorted_keys(table),
        refusal(table, CrudText::Add { name, cmd }, cwd) is None,
    ensures
        refusal(edited(table, CrudText::Add { name, cmd }), CrudText::Add { name, cmd: other }, cwd)
            == Some(ErrorText::CmdStringExists(cwd, cmd)),
{
    lemma_put(table, name, cmd);
}

/// An alias that is not there can be given no command and cannot be taken
/// away: the table refuses.
pub proof fn lemma_absent_alias(table: Table, name: Seq<char>, cmd: Seq<char>, cwd: Seq<char>)
    requires
        !has_key(table, name),
    ensures
        refusal(table, CrudText::Update { name, cmd }, cwd) == Some(
            ErrorText::NoCmdStringFound(cwd, name),
        ),
        refusal(table, CrudText::Delete { name }, cwd) == Some(
            ErrorText::NoCmdStringFound(cwd, name),
        ),
{
}

} // verus!
