use termapps::files::{get_entry_name, get_last_dir};
use termapps::launcher::{launch_request, LaunchRequest};
use termapps::text::{strip_line_breaks, trim_line};

#[test]
fn last_dir_drops_two_pieces() {
    assert_eq!(get_last_dir("/home/user/file"), "/home");
    assert_eq!(get_last_dir("/home/user/"), "/home");
    assert_eq!(get_last_dir("/"), "");
    assert_eq!(get_last_dir("a/b"), "");
    assert_eq!(get_last_dir("a/b/c/d"), "a/b");
    assert_eq!(get_last_dir("//x//"), "//x");
}

#[test]
fn entry_names() {
    assert_eq!(get_entry_name("src", true), "src/");
    assert_eq!(get_entry_name("main.rs", false), "main.rs");
    assert_eq!(get_entry_name("", true), "/");
}

#[test]
fn launcher_lines() {
    assert_eq!(launch_request("editor notes.txt"), LaunchRequest::Editor("notes.txt".to_string()));
    assert_eq!(launch_request("  editor \t a.txt  b"), LaunchRequest::Editor("a.txt".to_string()));
    assert_eq!(launch_request("editor"), LaunchRequest::MissingFile);
    assert_eq!(launch_request("files"), LaunchRequest::Files(None));
    assert_eq!(launch_request("files /tmp"), LaunchRequest::Files(Some("/tmp".to_string())));
    assert_eq!(launch_request("calc 1"), LaunchRequest::Unrecognized);
    assert_eq!(launch_request("Editor x"), LaunchRequest::Unrecognized);
    // vertical tab is not ASCII whitespace for the launcher
    assert_eq!(launch_request("files\x0b/tmp"), LaunchRequest::Unrecognized);
}

#[test]
fn line_breaks_are_dropped() {
    assert_eq!(strip_line_breaks("abc\r\n"), "abc");
    assert_eq!(strip_line_breaks("a\nb\rc"), "abc");
    assert_eq!(strip_line_breaks(""), "");
}

#[test]
fn answers_are_trimmed() {
    assert_eq!(trim_line("  x y \n"), "x y");
    assert_eq!(trim_line("\u{3000}z\u{a0}"), "z");
    assert_eq!(trim_line("   "), "");
}
