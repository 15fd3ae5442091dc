//! What the user asked for.

use vstd::prelude::*;
use crate::text::{text_of, texts};

verus! {

/// The options of one invocation.
#[derive(Debug, PartialEq, Eq)]
pub struct Opt {
    /// What to do: edit the aliases, or run some.
    pub sub_cmd: Option<SubOpt>,
    /// The configuration file to use in place of the one that a search
    /// would find.
    pub config_path: Option<String>,
    /// Whether each command is shown before it is run.
    pub debug: bool,
    /// Whether the commands are left unrun.
    pub no_op: bool,
}

/// What to do.
#[derive(Debug, PartialEq, Eq)]
pub enum SubOpt {
    /// Look at the aliases of the directory or change them.
    Crud(Crud),
    /// Open the configuration in the user's editor.
    Edit,
    /// Start a configuration in the working directory.
    Init,
    /// Run aliases: their names, and after `--` the arguments for the last
    /// of them.
    Other(Vec<String>),
}

/// A look at the aliases of the directory, or a change to them.
#[derive(Debug, PartialEq, Eq)]
#[allow(inconsistent_fields)]
pub enum Crud {
    /// Add a new alias.
    Add {
        /// The name of the alias.
        name: String,
        /// The command it stands for.
        cmd: String,
    },
    /// Show one alias, or all where no name is given.
    List {
        /// The name of the alias.
        name: Option<String>,
    },
    /// Give an alias another command.
    Update {
        /// The name of the alias.
        name: String,
        /// The command it stands for from now on.
        cmd: String,
    },
    /// Take an alias away.
    Delete {
        /// The name of the alias.
        name: String,
    },
}

/// A [`Crud`] with its texts as sequences of characters.
#[allow(inconsistent_fields)]
pub enum CrudText {
    Add { name: Seq<char>, cmd: Seq<char> },
    List { name: Option<Seq<char>> },
    Update { name: Seq<char>, cmd: Seq<char> },
    Delete { name: Seq<char> },
}

impl View for Crud {
    type V = CrudText;

    open spec fn view(&self) -> CrudText {
        match self {
            Crud::Add { name, cmd } => CrudText::Add { name: name@, cmd: cmd@ },
            Crud::List { name } => CrudText::List { name: text_of(*name) },
            Crud::Update { name, cmd } => CrudText::Update { name: name@, cmd: cmd@ },
            Crud::Delete { name } => CrudText::Delete { name: name@ },
        }
    }
}

/// A [`SubOpt`] with its texts as sequences of characters.
pub enum SubOptText {
    Crud(CrudText),
    Edit,
    Init,
    Other(Seq<Seq<char>>),
}

impl View for SubOpt {
    type V = SubOptText;

    open spec fn view(&self) -> SubOptText {
        match self {
            SubOpt::Crud(crud) => SubOptText::Crud(crud@),
            SubOpt::Edit => SubOptText::Edit,
            SubOpt::Init => SubOptText::Init,
            SubOpt::Other(tokens) => SubOptText::Other(texts(tokens@)),
        }
    }
}

/// An [`Opt`] with its texts as sequences of characters.
pub struct OptText {
    pub sub_cmd: Option<SubOptText>,
    pub config_path: Option<Seq<char>>,
    pub debug: bool,
    pub no_op: bool,
}

impl View for Opt {
    type V = OptText;

    open spec fn view(&self) -> OptText {
        OptText {
            sub_cmd: match self.sub_cmd {
                Some(sub) => Some(sub@),
                None => None,
            },
            config_path: text_of(self.config_path),
            debug: self.debug,
            no_op: self.no_op,
        }
    }
}

} // verus!
