use dipse::error::Error;
use dipse::script::Step;

fn s(text: &str) -> String {
    text.to_string()
}

#[test]
fn message_of_no_file() {
    assert_eq!(
        Error::NoFile(s("/p/.d.toml"), s("denied")).message(),
        "Could not read file: /p/.d.toml\ndenied"
    );
}

#[test]
fn message_of_unable_to_parse() {
    assert_eq!(Error::UnableToParse(s("expected a table")).message(), "expected a table");
}

#[test]
fn message_of_unable_to_serialize() {
    assert_eq!(Error::UnableToSerialize(s("unsupported")).message(), "unsupported");
}

#[test]
fn message_of_no_cmd_string_found() {
    assert_eq!(
        Error::NoCmdStringFound(s("/p"), s("run")).message(),
        "No command run found for path: /p"
    );
}

#[test]
fn message_of_cmd_string_exists() {
    assert_eq!(
        Error::CmdStringExists(s("/p"), s("cargo run")).message(),
        "Command cargo run already exists for path: /p"
    );
}

#[test]
fn message_of_no_config_for_path() {
    assert_eq!(Error::NoConfigForPath(s("/p")).message(), "No entries found for path: /p");
}

#[test]
fn message_of_command() {
    assert_eq!(Error::Command(s("no such file")).message(), "no such file");
}

#[test]
fn message_of_current_dir() {
    assert_eq!(Error::CurrentDir.message(), "Unable to access the current working directory.");
}

#[test]
fn message_of_config_dir() {
    assert_eq!(Error::ConfigDir.message(), "Could not access config directory");
}

#[test]
fn message_of_config_path() {
    assert_eq!(Error::ConfigPath(s("gone")).message(), "gone");
}

#[test]
fn message_of_config_file_creation() {
    assert_eq!(
        Error::ConfigFileCreation(s("/p/.d.toml"), s("denied")).message(),
        "Could not create configuration file: /p/.d.toml\ndenied"
    );
}

#[test]
fn message_of_config_file_write() {
    assert_eq!(
        Error::ConfigFileWrite(s("/p/.d.toml"), s("full")).message(),
        "Could not write to config file: /p/.d.toml\nfull"
    );
}

#[test]
fn message_of_config_dir_creation() {
    assert_eq!(
        Error::ConfigDirCreation(s("/c/dipse"), s("denied")).message(),
        "Could not create configuration directory: /c/dipse\ndenied"
    );
}

#[test]
fn message_of_new_config() {
    assert_eq!(
        Error::NewConfig(s("/c/dipse/d.toml")).message(),
        "Empty configuration file. Please edit /c/dipse/d.toml"
    );
}

#[test]
fn message_of_config_exist() {
    assert_eq!(
        Error::ConfigExist(s("/p/.d.toml")).message(),
        "A configuration file was named already: /p/.d.toml"
    );
}

#[test]
fn message_of_no_config_file() {
    assert_eq!(Error::NoConfigFile.message(), "No configuration file found");
}

#[test]
fn the_failure_of_each_step() {
    assert_eq!(Step::Print(s("line")).failure(s("closed")), None);
    assert_eq!(
        Step::MakeDir(s("/c/dipse")).failure(s("denied")),
        Some(Error::ConfigDirCreation(s("/c/dipse"), s("denied")))
    );
    assert_eq!(
        Step::Create(s("/p/.d.toml")).failure(s("denied")),
        Some(Error::ConfigFileCreation(s("/p/.d.toml"), s("denied")))
    );
    assert_eq!(
        Step::Write(s("/p/.d.toml"), s("text")).failure(s("full")),
        Some(Error::ConfigFileWrite(s("/p/.d.toml"), s("full")))
    );
    assert_eq!(Step::Spawn(s("make")).failure(s("no shell")), Some(Error::Command(s("no shell"))));
}
