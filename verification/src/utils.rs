//! Commands with their arguments, and how they are handed to the shell.

use vstd::prelude::*;
use vstd::string::StringExecFns;
use crate::text::{join, joined, texts};

verus! {

/// A command and the arguments to put behind it.
#[derive(Debug, PartialEq, Eq)]
pub struct CommandParams {
    /// The command: an alias, or what the alias stands for.
    pub cmd_str: String,
    /// The arguments, in their order.
    pub params: Vec<String>,
}

/// The command, and behind it each argument after a single space.
pub open spec fn command_text(command: Seq<char>, params: Seq<Seq<char>>) -> Seq<char> {
    if params.len() == 0 {
        command
    } else {
        command + " "@ + joined(params, " "@)
    }
}

impl CommandParams {
    /// The line that is run.
    pub open spec fn line(&self) -> Seq<char> {
        command_text(self.cmd_str@, texts(self.params@))
    }

    /// The line that is run: the command, and behind it each argument after
    /// a single space.
    pub fn command_line(&self) -> (text: String)
        ensures
            text@ == self.line(),
    {
        command_line_of(self.cmd_str.as_str(), &self.params)
    }
}

/// The line that is run for a command and its arguments.
pub fn command_line_of(command: &str, params: &Vec<String>) -> (text: String)
    ensures
        text@ == command_text(command@, texts(params@)),
{
    if params.len() == 0 {
        String::from_str(command)
    } else {
        let rest = join(params, " ");
        let mut text = String::from_str(command);
        text.append(" ");
        text.append(rest.as_str());
        text
    }
}

/// The words with which a line is given to the shell.
pub open spec fn shell_text(line: Seq<char>) -> Seq<Seq<char>> {
    seq!["sh"@, "-c"@, line]
}

/// The program to start for a line and the arguments to start it with: the
/// shell, told to run the line.
pub fn shell_words(line: &str) -> (words: Vec<String>)
    ensures
        texts(words@) == shell_text(line@),
{
    let mut words: Vec<String> = Vec::new();
    words.push(String::from_str("sh"));
    words.push(String::from_str("-c"));
    words.push(String::from_str(line));
    assert(texts(words@) =~= shell_text(line@));
    words
}

} // verus!
