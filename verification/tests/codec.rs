use dipse::error::Error;
use dipse::parser::{parse_toml, to_toml, Entries, Entry};

fn entry(pairs: &[(&str, &str)]) -> Entry {
    let mut entry = Entry::new();
    for (name, command) in pairs {
        entry.insert(name.to_string(), command.to_string());
    }
    entry
}

fn pair(name: &str, command: &str) -> (String, String) {
    (name.to_string(), command.to_string())
}

#[test]
fn a_configuration_is_read_from_its_text() {
    let text = "[\"/home/user/project\"]\nrun = \"cargo run\"\nbuild = \"cargo build\"\n";
    let entries = parse_toml(text).unwrap();
    assert_eq!(
        entries.to_tables(),
        vec![(
            "/home/user/project".to_string(),
            vec![pair("build", "cargo build"), pair("run", "cargo run")]
        )]
    );
}

#[test]
fn directories_and_aliases_are_read_in_the_order_of_their_texts() {
    let text = "[\"/b\"]\nz = \"1\"\na = \"2\"\n\n[\"/a\"]\nrun = \"3\"\n";
    let entries = parse_toml(text).unwrap();
    assert_eq!(
        entries.to_tables(),
        vec![
            ("/a".to_string(), vec![pair("run", "3")]),
            ("/b".to_string(), vec![pair("a", "2"), pair("z", "1")]),
        ]
    );
}

#[test]
fn an_empty_text_is_an_empty_configuration() {
    assert_eq!(parse_toml("").unwrap().len(), 0);
}

#[test]
fn a_table_head_alone_is_a_directory_without_aliases() {
    let entries = parse_toml("[\"/project/.d.toml\"]\n").unwrap();
    assert_eq!(entries.to_tables(), vec![("/project/.d.toml".to_string(), vec![])]);
}

#[test]
fn a_text_that_is_not_toml_is_refused() {
    assert!(matches!(parse_toml("[\"/a\"\nrun = "), Err(Error::UnableToParse(_))));
}

#[test]
fn a_value_at_the_top_that_is_no_table_is_refused() {
    assert!(matches!(parse_toml("run = \"cargo run\"\n"), Err(Error::UnableToParse(_))));
}

#[test]
fn a_command_that_is_no_text_is_refused() {
    assert!(matches!(parse_toml("[\"/a\"]\nrun = 1\n"), Err(Error::UnableToParse(_))));
    assert!(matches!(parse_toml("[\"/a\"]\nrun = [\"x\"]\n"), Err(Error::UnableToParse(_))));
}

#[test]
fn a_table_inside_a_table_is_refused() {
    assert!(matches!(parse_toml("[\"/a\".nested]\nrun = \"x\"\n"), Err(Error::UnableToParse(_))));
}

#[test]
fn the_message_of_the_codec_is_kept() {
    match parse_toml("run = ") {
        Err(Error::UnableToParse(message)) => assert!(!message.is_empty()),
        other => panic!("{:?}", other.map(|entries| entries.to_tables())),
    }
}

#[test]
fn a_configuration_is_written_as_text() {
    let mut entries = Entries::new();
    entries.insert(
        "/home/user/project".to_string(),
        entry(&[("run", "cargo run"), ("build", "cargo build")]),
    );
    assert_eq!(
        to_toml(&entries),
        Ok("[\"/home/user/project\"]\nbuild = 'cargo build'\nrun = 'cargo run'\n".to_string())
    );
}

#[test]
fn what_is_written_is_read_back() {
    let mut entries = Entries::new();
    entries.insert("/srv/my site".to_string(), entry(&[("up", "docker compose up\t-d")]));
    entries.insert("/home/user/b".to_string(), entry(&[("run", "echo \"hi\" && echo 'there'")]));
    entries.insert("/home/user/a".to_string(), entry(&[("run", "./a --x='1'"), ("build", "make")]));
    entries.insert("/home/user/c".to_string(), Entry::new());
    let text = to_toml(&entries).unwrap();
    let read = parse_toml(&text).unwrap();
    assert_eq!(read, entries);
}

#[test]
fn what_is_read_is_written_and_read_back() {
    let text = "[\"/b\"]\nrun = \"x\"\n[\"/a\"]\nrun = \"y\"\ntest = \"z\"\n";
    let first = parse_toml(text).unwrap();
    let second = parse_toml(&to_toml(&first).unwrap()).unwrap();
    assert_eq!(second, first);
}

#[test]
fn names_beyond_ascii_are_kept_in_the_order_in_which_they_are_read_back() {
    let mut entries = Entries::new();
    entries.insert(
        "/home/zoë/projet".to_string(),
        entry(&[("z", "1"), ("é", "2"), ("a", "3"), ("日本", "4"), ("😀", "5"), ("ab", "6"), ("Z", "7")]),
    );
    entries.insert("/home/zoe".to_string(), entry(&[("run", "x")]));
    entries.insert("/home/zo".to_string(), entry(&[("run", "y")]));
    let names: Vec<String> =
        entries.get("/home/zoë/projet").unwrap().to_pairs().into_iter().map(|(n, _)| n).collect();
    assert_eq!(names, vec!["Z", "a", "ab", "z", "é", "日本", "😀"]);
    let read = parse_toml(&to_toml(&entries).unwrap()).unwrap();
    assert_eq!(read, entries);
    assert_eq!(read.path_at(0), "/home/zo");
    assert_eq!(read.path_at(1), "/home/zoe");
    assert_eq!(read.path_at(2), "/home/zoë/projet");
}
