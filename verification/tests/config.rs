//! Tests for the configuration directory and the main configuration data.
use std::cmp::Ordering;
use fancy_tree::config::ConfigDir;
use fancy_tree::config::ConfigFile;
use fancy_tree::config::Main;

#[test]
fn config_paths_join_filenames() {
    let dir = ConfigDir::at(String::from("/tmp/conf"));
    assert_eq!("/tmp/conf", dir.path());
    assert_eq!("/tmp/conf/config.lua", dir.main_path());
    assert_eq!("/tmp/conf/icons.lua", dir.icons_path());
    assert_eq!("/tmp/conf/colors.lua", dir.colors_path());
}

#[test]
fn test_isize_to_ordering() {
    assert_eq!(Ordering::Less, Main::isize_to_ordering(-1));
    assert_eq!(Ordering::Equal, Main::isize_to_ordering(0));
    assert_eq!(Ordering::Greater, Main::isize_to_ordering(1));
}

#[test]
fn main_defaults() {
    let main = Main::default();
    assert!(main.color_choice().is_none());
    assert_eq!(Ordering::Less, main.cmp("a", false, "b", false));
}

#[test]
fn main_config_filename() {
    assert_eq!("config.lua", <Main as ConfigFile>::filename());
}

#[test]
fn config_dir_discovery_does_not_crash() {
    // Whether a home directory exists here or not, discovery reports its
    // one documented error message or a directory.
    match ConfigDir::new() {
        Ok(dir) => assert!(!dir.path().is_empty()),
        Err(message) => assert_eq!("Missing home directory", message),
    }
}
