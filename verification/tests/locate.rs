use dipse::config::{
    create_config_file, get_config_path, global_config, traverse_upwards_for_config,
};
use dipse::error::Error;
use dipse::script::{Script, Step};
use std::cell::RefCell;

#[test]
fn the_marker_of_the_start_directory_is_found_first() {
    let found = get_config_path(Ok("/home/user/project".to_string()), |_: &str| true);
    assert_eq!(found, Ok(Some("/home/user/project/.d.toml".to_string())));
}

#[test]
fn the_nearest_marker_above_is_found() {
    let found = get_config_path(Ok("/home/user/project/src".to_string()), |path: &str| {
        path == "/home/user/.d.toml" || path == "/.d.toml"
    });
    assert_eq!(found, Ok(Some("/home/user/.d.toml".to_string())));
}

#[test]
fn every_directory_up_to_the_root_is_asked_once() {
    let asked = RefCell::new(Vec::new());
    let found = get_config_path(Ok("/home/user/project".to_string()), |path: &str| {
        asked.borrow_mut().push(path.to_string());
        false
    });
    assert_eq!(found, Ok(None));
    assert_eq!(
        asked.into_inner(),
        vec!["/home/user/project/.d.toml", "/home/user/.d.toml", "/home/.d.toml", "/.d.toml"]
    );
}

#[test]
fn the_search_stops_at_the_marker() {
    let asked = RefCell::new(Vec::new());
    let found = get_config_path(Ok("/a/b/c".to_string()), |path: &str| {
        asked.borrow_mut().push(path.to_string());
        path == "/a/b/.d.toml"
    });
    assert_eq!(found, Ok(Some("/a/b/.d.toml".to_string())));
    assert_eq!(asked.into_inner(), vec!["/a/b/c/.d.toml", "/a/b/.d.toml"]);
}

#[test]
fn a_start_that_cannot_be_told_is_an_error() {
    let found = get_config_path(Err("No such file or directory".to_string()), |_: &str| true);
    assert_eq!(found, Err(Error::ConfigPath("No such file or directory".to_string())));
}

#[test]
fn the_path_is_left_where_the_marker_is() {
    let mut path = "/a/b/c".to_string();
    let found = traverse_upwards_for_config(&mut path, &|p: &str| p == "/a/.d.toml");
    assert_eq!(found, Some("/a/.d.toml".to_string()));
    assert_eq!(path, "/a");
}

#[test]
fn the_path_is_left_at_the_top_where_no_marker_is() {
    let mut path = "/a/b/c".to_string();
    assert_eq!(traverse_upwards_for_config(&mut path, &|_: &str| false), None);
    assert_eq!(path, "/");
}

#[test]
fn the_configuration_of_the_user_that_is_there() {
    let found = global_config(Some("/home/user/.config".to_string()), &|path: &str| {
        path == "/home/user/.config/dipse/d.toml"
    });
    assert_eq!(found, Ok("/home/user/.config/dipse/d.toml".to_string()));
}

#[test]
fn the_configuration_of_the_user_is_set_up_where_it_is_not_there() {
    let found = global_config(Some("/home/user/.config".to_string()), &|_: &str| false);
    assert_eq!(
        found,
        Err(Script {
            steps: vec![
                Step::MakeDir("/home/user/.config/dipse".to_string()),
                Step::Create("/home/user/.config/dipse/d.toml".to_string()),
            ],
            outcome: Err(Error::NewConfig("/home/user/.config/dipse/d.toml".to_string())),
        })
    );
}

#[test]
fn without_a_configuration_directory_nothing_is_set_up() {
    let found = global_config(None, &|_: &str| true);
    assert_eq!(found, Err(Script { steps: vec![], outcome: Err(Error::ConfigDir) }));
}

#[test]
fn the_configuration_of_the_user_lies_in_the_directory_that_the_system_names() {
    match create_config_file(&|_: &str| true) {
        Ok(file) => assert!(file.ends_with("dipse/d.toml")),
        Err(script) => {
            assert_eq!(script, Script { steps: vec![], outcome: Err(Error::ConfigDir) })
        }
    }
}
