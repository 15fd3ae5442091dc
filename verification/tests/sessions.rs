use dipse::args::{Crud, Opt, SubOpt};
use dipse::error::Error;
use dipse::run;
use dipse::script::Step;
use dipse::session::{can_run, Goal, Reply, Session};

fn s(text: &str) -> String {
    text.to_string()
}

fn opt(sub_cmd: Option<SubOpt>) -> Opt {
    Opt { sub_cmd, config_path: None, debug: false, no_op: false }
}

fn aliases(tokens: &[&str]) -> SubOpt {
    SubOpt::Other(tokens.iter().map(|token| token.to_string()).collect())
}

const CONFIG: &str = "[\"/project\"]\nbuild = \"make build\"\nrun = \"make run\"\n";

fn ok() -> Reply {
    Reply::Done(Ok(()))
}

#[test]
fn without_a_subcommand_there_is_nothing_to_do() {
    assert_eq!(run(opt(None)), Session::Finished(Ok(())));
}

#[test]
fn init_creates_the_marker_file_and_writes_a_table_head() {
    let session = run(opt(Some(SubOpt::Init)));
    assert_eq!(session, Session::InitDir);
    let session = session.resume(Reply::Dir(Some(s("/project"))));
    assert_eq!(session.step(), Some(&Step::Create(s("/project/.d.toml"))));
    let session = session.resume(ok());
    assert_eq!(
        session.step(),
        Some(&Step::Write(s("/project/.d.toml"), s("[\"/project/.d.toml\"]\n")))
    );
    let session = session.resume(ok());
    assert_eq!(session, Session::Finished(Ok(())));
    assert_eq!(session.step(), None);
}

#[test]
fn init_with_a_named_configuration_fails() {
    let mut options = opt(Some(SubOpt::Init));
    options.config_path = Some(s("/project/.d.toml"));
    assert_eq!(run(options), Session::Finished(Err(Error::ConfigExist(s("/project/.d.toml")))));
}

#[test]
fn init_without_a_working_directory_fails() {
    let session = run(opt(Some(SubOpt::Init))).resume(Reply::Dir(None));
    assert_eq!(session, Session::Finished(Err(Error::CurrentDir)));
}

#[test]
fn init_fails_where_the_file_cannot_be_created() {
    let session = run(opt(Some(SubOpt::Init)))
        .resume(Reply::Dir(Some(s("/project"))))
        .resume(Reply::Done(Err(s("denied"))));
    assert_eq!(
        session,
        Session::Finished(Err(Error::ConfigFileCreation(s("/project/.d.toml"), s("denied"))))
    );
}

#[test]
fn init_fails_where_the_file_cannot_be_written() {
    let session = run(opt(Some(SubOpt::Init)))
        .resume(Reply::Dir(Some(s("/project"))))
        .resume(ok())
        .resume(Reply::Done(Err(s("full"))));
    assert_eq!(
        session,
        Session::Finished(Err(Error::ConfigFileWrite(s("/project/.d.toml"), s("full"))))
    );
}

#[test]
fn a_named_configuration_is_read_without_a_search() {
    let mut options = opt(Some(SubOpt::Edit));
    options.config_path = Some(s("/etc/d.toml"));
    assert_eq!(run(options), Session::Reading(Goal::Edit, s("/etc/d.toml")));
}

#[test]
fn edit_starts_the_editor_on_the_configuration_that_was_found() {
    let session = run(opt(Some(SubOpt::Edit)));
    assert_eq!(session, Session::Locating(Goal::Edit));
    let session = session.resume(Reply::Located(Ok(Some(s("/project/.d.toml")))));
    assert_eq!(session, Session::Reading(Goal::Edit, s("/project/.d.toml")));
    let session = session.resume(Reply::Text(Ok(s(CONFIG))));
    assert_eq!(session.step(), Some(&Step::Spawn(s("$EDITOR /project/.d.toml"))));
    assert_eq!(session.resume(ok()), Session::Finished(Ok(())));
}

#[test]
fn no_configuration_is_found() {
    let session = run(opt(Some(SubOpt::Edit))).resume(Reply::Located(Ok(None)));
    assert_eq!(session, Session::Finished(Err(Error::NoConfigFile)));
}

#[test]
fn the_search_fails() {
    let session =
        run(opt(Some(SubOpt::Edit))).resume(Reply::Located(Err(Error::ConfigPath(s("gone")))));
    assert_eq!(session, Session::Finished(Err(Error::ConfigPath(s("gone")))));
}

#[test]
fn the_configuration_cannot_be_read() {
    let session = run(opt(Some(aliases(&["run"]))))
        .resume(Reply::Located(Ok(Some(s("/project/.d.toml")))))
        .resume(Reply::Text(Err(s("denied"))));
    assert_eq!(session, Session::Finished(Err(Error::NoFile(s("/project/.d.toml"), s("denied")))));
}

#[test]
fn aliases_are_run_in_their_order() {
    let session = run(opt(Some(aliases(&["build", "run", "--", "--release"]))))
        .resume(Reply::Located(Ok(Some(s("/project/.d.toml")))))
        .resume(Reply::Text(Ok(s(CONFIG))))
        .resume(Reply::Dir(Some(s("/project/src"))));
    assert_eq!(session.step(), Some(&Step::Spawn(s("make build"))));
    let session = session.resume(ok());
    assert_eq!(session.step(), Some(&Step::Spawn(s("make run --release"))));
    assert_eq!(session.resume(ok()), Session::Finished(Ok(())));
}

#[test]
fn a_command_that_cannot_be_started_ends_the_invocation() {
    let session = run(opt(Some(aliases(&["build", "run"]))))
        .resume(Reply::Located(Ok(Some(s("/project/.d.toml")))))
        .resume(Reply::Text(Ok(s(CONFIG))))
        .resume(Reply::Dir(Some(s("/project"))))
        .resume(Reply::Done(Err(s("no shell"))));
    assert_eq!(session, Session::Finished(Err(Error::Command(s("no shell")))));
}

#[test]
fn a_dry_run_ends_well_at_once() {
    let mut options = opt(Some(aliases(&["run"])));
    options.no_op = true;
    options.config_path = Some(s("/project/.d.toml"));
    let session = run(options)
        .resume(Reply::Text(Ok(s("[\"/project\"]\ngreet = \"echo hi\"\nrun = \"true\"\n"))))
        .resume(Reply::Dir(Some(s("/project"))));
    assert_eq!(session, Session::Finished(Ok(())));
}

#[test]
fn an_unknown_alias_fails_after_the_known_ones_before_it() {
    let session = run(opt(Some(aliases(&["build", "deploy"]))))
        .resume(Reply::Located(Ok(Some(s("/project/.d.toml")))))
        .resume(Reply::Text(Ok(s(CONFIG))))
        .resume(Reply::Dir(Some(s("/project"))));
    assert_eq!(session.step(), Some(&Step::Spawn(s("make build"))));
    assert_eq!(
        session.resume(ok()),
        Session::Finished(Err(Error::NoCmdStringFound(s("/project"), s("deploy"))))
    );
}

#[test]
fn aliases_outside_every_configured_directory_fail() {
    let session = run(opt(Some(aliases(&["run"]))))
        .resume(Reply::Located(Ok(Some(s("/project/.d.toml")))))
        .resume(Reply::Text(Ok(s(CONFIG))))
        .resume(Reply::Dir(Some(s("/elsewhere"))));
    assert_eq!(session, Session::Finished(Err(Error::NoConfigForPath(s("/elsewhere")))));
}

#[test]
fn aliases_without_a_working_directory_fail() {
    let session = run(opt(Some(aliases(&["run"]))))
        .resume(Reply::Located(Ok(Some(s("/project/.d.toml")))))
        .resume(Reply::Text(Ok(s(CONFIG))))
        .resume(Reply::Dir(None));
    assert_eq!(session, Session::Finished(Err(Error::CurrentDir)));
}

#[test]
fn a_configuration_that_is_no_toml_fails() {
    let session = run(opt(Some(aliases(&["run"]))))
        .resume(Reply::Located(Ok(Some(s("/project/.d.toml")))))
        .resume(Reply::Text(Ok(s("run = "))))
        .resume(Reply::Dir(Some(s("/project"))));
    assert!(matches!(session, Session::Finished(Err(Error::UnableToParse(_)))));
}

#[test]
fn add_writes_the_whole_configuration_back() {
    let add = Crud::Add { name: s("test"), cmd: s("make test") };
    let session = run(opt(Some(SubOpt::Crud(add))))
        .resume(Reply::Located(Ok(Some(s("/project/.d.toml")))))
        .resume(Reply::Text(Ok(s(CONFIG))))
        .resume(Reply::Dir(Some(s("/project"))));
    assert_eq!(
        session.step(),
        Some(&Step::Write(
            s("/project/.d.toml"),
            s("[\"/project\"]\nbuild = 'make build'\nrun = 'make run'\ntest = 'make test'\n")
        ))
    );
    assert_eq!(session.resume(ok()), Session::Finished(Ok(())));
}

#[test]
fn a_change_that_the_table_refuses_writes_nothing() {
    let update = Crud::Update { name: s("test"), cmd: s("make test") };
    let session = run(opt(Some(SubOpt::Crud(update))))
        .resume(Reply::Located(Ok(Some(s("/project/.d.toml")))))
        .resume(Reply::Text(Ok(s(CONFIG))))
        .resume(Reply::Dir(Some(s("/project"))));
    assert_eq!(session, Session::Finished(Err(Error::NoCmdStringFound(s("/project"), s("test")))));
    let delete = Crud::Delete { name: s("test") };
    let session = run(opt(Some(SubOpt::Crud(delete))))
        .resume(Reply::Located(Ok(Some(s("/project/.d.toml")))))
        .resume(Reply::Text(Ok(s(CONFIG))))
        .resume(Reply::Dir(Some(s("/project"))));
    assert_eq!(session, Session::Finished(Err(Error::NoCmdStringFound(s("/project"), s("test")))));
}

#[test]
fn list_prints_and_writes_nothing() {
    let list = Crud::List { name: Some(s("run")) };
    let session = run(opt(Some(SubOpt::Crud(list))))
        .resume(Reply::Located(Ok(Some(s("/project/.d.toml")))))
        .resume(Reply::Text(Ok(s(CONFIG))))
        .resume(Reply::Dir(Some(s("/project"))));
    assert_eq!(session.step(), Some(&Step::Print(s("run: make run"))));
    assert_eq!(session.resume(ok()), Session::Finished(Ok(())));
}

#[test]
fn list_of_the_whole_table() {
    let list = Crud::List { name: None };
    let session = run(opt(Some(SubOpt::Crud(list))))
        .resume(Reply::Located(Ok(Some(s("/project/.d.toml")))))
        .resume(Reply::Text(Ok(s(CONFIG))))
        .resume(Reply::Dir(Some(s("/project/src"))));
    assert_eq!(
        session.step(),
        Some(&Step::Print(s("{\n    \"build\": \"make build\",\n    \"run\": \"make run\",\n}")))
    );
    assert_eq!(session.resume(ok()), Session::Finished(Ok(())));
}

#[test]
fn list_of_an_unknown_alias_fails() {
    let list = Crud::List { name: Some(s("test")) };
    let session = run(opt(Some(SubOpt::Crud(list))))
        .resume(Reply::Located(Ok(Some(s("/project/.d.toml")))))
        .resume(Reply::Text(Ok(s(CONFIG))))
        .resume(Reply::Dir(Some(s("/project"))));
    assert_eq!(session, Session::Finished(Err(Error::NoCmdStringFound(s("/project"), s("test")))));
}

#[test]
fn a_configuration_that_cannot_be_written_back_fails() {
    let delete = Crud::Delete { name: s("run") };
    let session = run(opt(Some(SubOpt::Crud(delete))))
        .resume(Reply::Located(Ok(Some(s("/project/.d.toml")))))
        .resume(Reply::Text(Ok(s(CONFIG))))
        .resume(Reply::Dir(Some(s("/project"))))
        .resume(Reply::Done(Err(s("read-only"))));
    assert_eq!(
        session,
        Session::Finished(Err(Error::ConfigFileWrite(s("/project/.d.toml"), s("read-only"))))
    );
}

#[test]
fn a_line_that_could_not_be_printed_does_not_end_the_invocation() {
    let mut options = opt(Some(aliases(&["build"])));
    options.debug = true;
    let session = run(options)
        .resume(Reply::Located(Ok(Some(s("/project/.d.toml")))))
        .resume(Reply::Text(Ok(s(CONFIG))))
        .resume(Reply::Dir(Some(s("/project"))));
    assert_eq!(session.step(), Some(&Step::Print(s("`make build`"))));
    let session = session.resume(Reply::Done(Err(s("closed"))));
    assert_eq!(session.step(), Some(&Step::Spawn(s("make build"))));
}

#[test]
fn a_reply_that_was_not_asked_for_changes_nothing() {
    let session = run(opt(Some(SubOpt::Init))).resume(ok());
    assert_eq!(session, Session::InitDir);
    let session = run(opt(Some(SubOpt::Edit))).resume(Reply::Dir(Some(s("/project"))));
    assert_eq!(session, Session::Locating(Goal::Edit));
    let session = Session::Finished(Ok(())).resume(Reply::Dir(None));
    assert_eq!(session, Session::Finished(Ok(())));
}

#[test]
fn options_whose_tokens_begin_with_the_separator_cannot_be_run() {
    assert!(!can_run(&opt(Some(aliases(&["--", "x"])))));
    assert!(can_run(&opt(Some(aliases(&["x", "--"])))));
    assert!(can_run(&opt(Some(SubOpt::Init))));
    assert!(can_run(&opt(None)));
}
