use dipse::alias::{apply, crud, get_cmd_str, list_entries};
use dipse::args::Crud;
use dipse::error::Error;
use dipse::parser::{Entries, Entry};

fn entry(pairs: &[(&str, &str)]) -> Entry {
    let mut entry = Entry::new();
    for (name, command) in pairs {
        entry.insert(name.to_string(), command.to_string());
    }
    entry
}

fn project() -> Entries {
    let mut entries = Entries::new();
    entries.insert("/other".to_string(), entry(&[("run", "npm start")]));
    entries.insert(
        "/project".to_string(),
        entry(&[("run", "cargo run"), ("build", "cargo build")]),
    );
    entries
}

fn add(name: &str, cmd: &str) -> Crud {
    Crud::Add { name: name.to_string(), cmd: cmd.to_string() }
}

fn update(name: &str, cmd: &str) -> Crud {
    Crud::Update { name: name.to_string(), cmd: cmd.to_string() }
}

fn delete(name: &str) -> Crud {
    Crud::Delete { name: name.to_string() }
}

#[test]
fn the_command_of_an_alias() {
    let entry = entry(&[("run", "cargo run")]);
    assert_eq!(get_cmd_str(&entry, "run", "/project"), Ok("cargo run".to_string()));
}

#[test]
fn an_unknown_alias_has_no_command() {
    let entry = entry(&[("run", "cargo run")]);
    assert_eq!(
        get_cmd_str(&entry, "test", "/project"),
        Err(Error::NoCmdStringFound("/project".to_string(), "test".to_string()))
    );
}

#[test]
fn listing_one_alias() {
    let entry = entry(&[("run", "cargo run")]);
    assert_eq!(
        list_entries(&entry, Some("run".to_string()), "/project"),
        Ok("run: cargo run".to_string())
    );
}

#[test]
fn listing_an_unknown_alias_fails() {
    let entry = entry(&[("run", "cargo run")]);
    assert_eq!(
        list_entries(&entry, Some("test".to_string()), "/project"),
        Err(Error::NoCmdStringFound("/project".to_string(), "test".to_string()))
    );
}

#[test]
fn listing_the_whole_table() {
    let entry = entry(&[("run", "cargo run"), ("say", "echo \"hi\"")]);
    assert_eq!(
        list_entries(&entry, None, "/project"),
        Ok("{\n    \"run\": \"cargo run\",\n    \"say\": \"echo \\\"hi\\\"\",\n}".to_string())
    );
}

#[test]
fn listing_an_empty_table() {
    assert_eq!(list_entries(&Entry::new(), None, "/project"), Ok("{}".to_string()));
}

#[test]
fn add_puts_a_new_alias_at_the_place_of_its_name() {
    let mut entries = project();
    assert_eq!(crud(&mut entries, "/project/src", add("test", "cargo test")), Ok(None));
    assert_eq!(
        entries.get("/project").unwrap().to_pairs(),
        vec![
            ("build".to_string(), "cargo build".to_string()),
            ("run".to_string(), "cargo run".to_string()),
            ("test".to_string(), "cargo test".to_string()),
        ]
    );
    assert_eq!(entries.get("/other").unwrap().len(), 1);
}

#[test]
fn add_then_delete_restores_the_table() {
    let mut entries = project();
    assert_eq!(crud(&mut entries, "/project", add("check", "cargo check")), Ok(None));
    assert_ne!(entries, project());
    assert_eq!(crud(&mut entries, "/project", delete("check")), Ok(None));
    assert_eq!(entries, project());
}

#[test]
fn add_of_a_name_that_is_there_fails_and_changes_nothing() {
    let mut entries = project();
    assert_eq!(
        crud(&mut entries, "/project", add("run", "make run")),
        Err(Error::CmdStringExists("/project".to_string(), "cargo run".to_string()))
    );
    assert_eq!(entries.to_tables(), project().to_tables());
}

#[test]
fn add_twice_fails_the_second_time_and_keeps_the_first_command() {
    let mut entries = project();
    assert_eq!(crud(&mut entries, "/project", add("test", "cargo test")), Ok(None));
    assert_eq!(
        crud(&mut entries, "/project", add("test", "make test")),
        Err(Error::CmdStringExists("/project".to_string(), "cargo test".to_string()))
    );
    assert_eq!(entries.get("/project").unwrap().get("test"), Some(&"cargo test".to_string()));
}

#[test]
fn update_gives_an_alias_another_command_in_place() {
    let mut entries = project();
    assert_eq!(crud(&mut entries, "/project", update("run", "make run")), Ok(None));
    assert_eq!(
        entries.get("/project").unwrap().to_pairs(),
        vec![
            ("build".to_string(), "cargo build".to_string()),
            ("run".to_string(), "make run".to_string()),
        ]
    );
}

#[test]
fn update_of_an_unknown_alias_fails_and_changes_nothing() {
    let mut entries = project();
    assert_eq!(
        crud(&mut entries, "/project", update("test", "cargo test")),
        Err(Error::NoCmdStringFound("/project".to_string(), "test".to_string()))
    );
    assert_eq!(entries.to_tables(), project().to_tables());
}

#[test]
fn delete_takes_an_alias_away() {
    let mut entries = project();
    assert_eq!(crud(&mut entries, "/project", delete("run")), Ok(None));
    assert_eq!(
        entries.get("/project").unwrap().to_pairs(),
        vec![("build".to_string(), "cargo build".to_string())]
    );
}

#[test]
fn delete_of_an_unknown_alias_fails_and_changes_nothing() {
    let mut entries = project();
    assert_eq!(
        crud(&mut entries, "/project", delete("test")),
        Err(Error::NoCmdStringFound("/project".to_string(), "test".to_string()))
    );
    assert_eq!(entries.to_tables(), project().to_tables());
}

#[test]
fn list_shows_and_changes_nothing() {
    let mut entries = project();
    assert_eq!(
        crud(&mut entries, "/project", Crud::List { name: Some("build".to_string()) }),
        Ok(Some("build: cargo build".to_string()))
    );
    assert_eq!(
        crud(&mut entries, "/other", Crud::List { name: None }),
        Ok(Some("{\n    \"run\": \"npm start\",\n}".to_string()))
    );
    assert_eq!(entries.to_tables(), project().to_tables());
}

#[test]
fn a_change_where_no_directory_applies_fails() {
    let mut entries = project();
    assert_eq!(
        crud(&mut entries, "/elsewhere", add("run", "make")),
        Err(Error::NoConfigForPath("/elsewhere".to_string()))
    );
    assert_eq!(entries.to_tables(), project().to_tables());
}

#[test]
fn apply_changes_the_table_at_the_position() {
    let mut entries = project();
    assert_eq!(apply(&mut entries, 0, add("build", "npm run build"), "/other"), Ok(None));
    assert_eq!(entries.entry_at(0).len(), 2);
    assert_eq!(entries.entry_at(1).len(), 2);
}
