//! What can go wrong, and how it is told to the user.

use vstd::prelude::*;
use vstd::string::StringExecFns;
use crate::text::glue;

verus! {

/// Every way in which an invocation can fail. Paths and the causes that the
/// system reported are kept as text.
#[derive(Debug, PartialEq, Eq)]
pub enum Error {
    /// The file at the path could not be read; the cause.
    NoFile(String, String),
    /// The configuration is not a table of tables of texts; the cause.
    UnableToParse(String),
    /// The configuration could not be written as text; the cause.
    UnableToSerialize(String),
    /// The table that applies to the directory has no such alias.
    NoCmdStringFound(String, String),
    /// The alias to add is there already; the directory and the command that
    /// the alias has.
    CmdStringExists(String, String),
    /// No configured directory is the working directory or above it.
    NoConfigForPath(String),
    /// A command could not be started; the cause.
    Command(String),
    /// The working directory cannot be told.
    CurrentDir,
    /// The user's configuration directory cannot be told.
    ConfigDir,
    /// The directory to search from cannot be made canonical; the cause.
    ConfigPath(String),
    /// The file at the path could not be created; the cause.
    ConfigFileCreation(String, String),
    /// The file at the path could not be written; the cause.
    ConfigFileWrite(String, String),
    /// The directory at the path could not be created; the cause.
    ConfigDirCreation(String, String),
    /// A configuration was created at the path and has to be filled in.
    NewConfig(String),
    /// A configuration was named where a new one was to be created.
    ConfigExist(String),
    /// No configuration was named and none was found.
    NoConfigFile,
}

/// An [`Error`] with its texts as sequences of characters.
pub enum ErrorText {
    NoFile(Seq<char>, Seq<char>),
    UnableToParse(Seq<char>),
    UnableToSerialize(Seq<char>),
    NoCmdStringFound(Seq<char>, Seq<char>),
    CmdStringExists(Seq<char>, Seq<char>),
    NoConfigForPath(Seq<char>),
    Command(Seq<char>),
    CurrentDir,
    ConfigDir,
    ConfigPath(Seq<char>),
    ConfigFileCreation(Seq<char>, Seq<char>),
    ConfigFileWrite(Seq<char>, Seq<char>),
    ConfigDirCreation(Seq<char>, Seq<char>),
    NewConfig(Seq<char>),
    ConfigExist(Seq<char>),
    NoConfigFile,
}

impl View for Error {
    type V = ErrorText;

    open spec fn view(&self) -> ErrorText {
        match self {
            Error::NoFile(path, cause) => ErrorText::NoFile(path@, cause@),
            Error::UnableToParse(cause) => ErrorText::UnableToParse(cause@),
            Error::UnableToSerialize(cause) => ErrorText::UnableToSerialize(cause@),
            Error::NoCmdStringFound(path, name) => ErrorText::NoCmdStringFound(path@, name@),
            Error::CmdStringExists(path, command) => ErrorText::CmdStringExists(path@, command@),
            Error::NoConfigForPath(path) => ErrorText::NoConfigForPath(path@),
            Error::Command(cause) => ErrorText::Command(cause@),
            Error::CurrentDir => ErrorText::CurrentDir,
            Error::ConfigDir => ErrorText::ConfigDir,
            Error::ConfigPath(cause) => ErrorText::ConfigPath(cause@),
            Error::ConfigFileCreation(path, cause) => ErrorText::ConfigFileCreation(path@, cause@),
            Error::ConfigFileWrite(path, cause) => ErrorText::ConfigFileWrite(path@, cause@),
            Error::ConfigDirCreation(path, cause) => ErrorText::ConfigDirCreation(path@, cause@),
            Error::NewConfig(path) => ErrorText::NewConfig(path@),
            Error::ConfigExist(path) => ErrorText::ConfigExist(path@),
            Error::NoConfigFile => ErrorText::NoConfigFile,
        }
    }
}

/// The message of an error, as the user reads it.
pub open spec fn message_text(error: ErrorText) -> Seq<char> {
    match error {
        ErrorText::NoFile(path, cause) => "Could not read file: "@ + path + "\n"@ + cause,
        ErrorText::UnableToParse(cause) => cause,
        ErrorText::UnableToSerialize(cause) => cause,
        ErrorText::NoCmdStringFound(path, name) => "No command "@ + name + " found for path: "@
            + path,
        ErrorText::CmdStringExists(path, command) => "Command "@ + command
            + " already exists for path: "@ + path,
        ErrorText::NoConfigForPath(path) => "No entries found for path: "@ + path,
        ErrorText::Command(cause) => cause,
        ErrorText::CurrentDir => "Unable to access the current working directory."@,
        ErrorText::ConfigDir => "Could not access config directory"@,
        ErrorText::ConfigPath(cause) => cause,
        ErrorText::ConfigFileCreation(path, cause) => "Could not create configuration file: "@
            + path + "\n"@ + cause,
        ErrorText::ConfigFileWrite(path, cause) => "Could not write to config file: "@ + path
            + "\n"@ + cause,
        ErrorText::ConfigDirCreation(path, cause) => "Could not create configuration directory: "@
            + path + "\n"@ + cause,
        ErrorText::NewConfig(path) => "Empty configuration file. Please edit "@ + path,
        ErrorText::ConfigExist(path) => "A configuration file was named already: "@ + path,
        ErrorText::NoConfigFile => "No configuration file found"@,
    }
}

impl Error {
    /// The message of the error, as the user reads it.
    pub fn message(&self) -> (text: String)
        ensures
            text@ == message_text(self@),
    {
        match self {
            Error::NoFile(path, cause) => glue(
                "Could not read file: ",
                path.as_str(),
                "\n",
                cause.as_str(),
            ),
            Error::UnableToParse(cause) => cause.clone(),
            Error::UnableToSerialize(cause) => cause.clone(),
            Error::NoCmdStringFound(path, name) => glue(
                "No command ",
                name.as_str(),
                " found for path: ",
                path.as_str(),
            ),
            Error::CmdStringExists(path, command) => glue(
                "Command ",
                command.as_str(),
                " already exists for path: ",
                path.as_str(),
            ),
            Error::NoConfigForPath(path) => String::from_str("No entries found for path: ").concat(
                path.as_str(),
            ),
            Error::Command(cause) => cause.clone(),
            Error::CurrentDir => String::from_str(
                "Unable to access the current working directory.",
            ),
            Error::ConfigDir => String::from_str("Could not access config directory"),
            Error::ConfigPath(cause) => cause.clone(),
            Error::ConfigFileCreation(path, cause) => glue(
                "Could not create configuration file: ",
                path.as_str(),
                "\n",
                cause.as_str(),
            ),
            Error::ConfigFileWrite(path, cause) => glue(
                "Could not write to config file: ",
                path.as_str(),
                "\n",
                cause.as_str(),
            ),
            Error::ConfigDirCreation(path, cause) => glue(
                "Could not create configuration directory: ",
                path.as_str(),
                "\n",
                cause.as_str(),
            ),
            Error::NewConfig(path) => String::from_str(
                "Empty configuration file. Please edit ",
            ).concat(path.as_str()),
            Error::ConfigExist(path) => String::from_str(
                "A configuration file was named already: ",
            ).concat(path.as_str()),
            Error::NoConfigFile => String::from_str("No configuration file found"),
        }
    }
}

} // verus!
