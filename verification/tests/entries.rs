use poki_launcher::entry::{strip_entry_args, EntryParseError};
use poki_launcher::run::parse_command_string;
use poki_launcher::App;

#[test]
fn no_args() {
    let exec = "/usr/bin/cat --flag".to_owned();
    assert_eq!(strip_entry_args(&exec), exec);
}

#[test]
fn has_args() {
    let exec = "/usr/bin/cat %f --flag";
    let exec_no_args = "/usr/bin/cat --flag".to_owned();
    assert_eq!(strip_entry_args(&exec), exec_no_args);
}

#[test]
fn parser() {
    let input = r#"
[Desktop Entry]
Name=CrossCode
Icon=steam_icon_368340
Exec=steam steam://rungameid/368340
"#;
    let parsed = App::parse_desktop_file(input.as_bytes(), "crosscode.desktop");
    let app = parsed.unwrap().unwrap();
    assert_eq!(app.name, "CrossCode");
    assert_eq!(app.icon, "steam_icon_368340");
    assert_eq!(app.exec_cmd, "steam steam://rungameid/368340");
    assert!(!app.terminal);
}

#[test]
fn entry_with_leading_blanks() {
    let content = b"[Desktop Entry]\n Name=Test\n Icon=testicon\n Exec=/usr/bin/test --with-flag %f";
    let app = App::parse_desktop_file(content, "./test.desktop")
        .unwrap()
        .unwrap();
    let other_app = App::new(
        "Test".to_owned(),
        "testicon".to_owned(),
        "/usr/bin/test --with-flag".to_owned(),
        false,
    );
    assert_eq!(app, other_app);
}

#[test]
fn entry_missing_section() {
    let content = b"Name=Test\nExec=/bin/test\n";
    let r = App::parse_desktop_file(content, "f.desktop");
    assert!(matches!(r, Err(EntryParseError::MissingSection { .. })));
}

#[test]
fn entry_missing_name() {
    let content = b"[Desktop Entry]\nExec=/bin/test\n";
    let r = App::parse_desktop_file(content, "f.desktop");
    assert!(matches!(r, Err(EntryParseError::MissingName { .. })));
}

#[test]
fn entry_missing_exec() {
    let content = b"[Desktop Entry]\nName=Test\n";
    let r = App::parse_desktop_file(content, "f.desktop");
    assert!(matches!(r, Err(EntryParseError::MissingExec { .. })));
}

#[test]
fn entry_hidden_is_not_listed() {
    let content = b"[Desktop Entry]\nName=Test\nExec=/bin/test\nHidden=true\n";
    let r = App::parse_desktop_file(content, "f.desktop").unwrap();
    assert!(r.is_none());
    let content2 = b"[Desktop Entry]\nName=Test\nExec=/bin/test\nNoDisplay=true\n";
    let r2 = App::parse_desktop_file(content2, "f.desktop").unwrap();
    assert!(r2.is_none());
}

#[test]
fn entry_bad_bool_value() {
    let content = b"[Desktop Entry]\nName=Test\nExec=/bin/test\nHidden=maybe\n";
    let r = App::parse_desktop_file(content, "f.desktop");
    match r {
        Err(EntryParseError::InvalidPropVal { name, value, .. }) => {
            assert_eq!(name, "Hidden");
            assert_eq!(value, "maybe");
        }
        other => panic!("expected a bad property value, got {:?}", other),
    }
}

#[test]
fn entry_bad_encoding() {
    let content = b"[Desktop Entry]\nName=\xff\xfe\nExec=/bin/test\n";
    let r = App::parse_desktop_file(content, "f.desktop");
    assert!(matches!(r, Err(EntryParseError::InvalidEncoding { .. })));
}

#[test]
fn entry_other_sections_are_ignored() {
    let content = b"[Other]\nName=Wrong\n[Desktop Entry]\nName=Right\nExec=/bin/x\n[More]\nName=Also wrong\n";
    let app = App::parse_desktop_file(content, "f.desktop").unwrap().unwrap();
    assert_eq!(app.name, "Right");
}

#[test]
fn entry_comments_and_terminal() {
    let content = b"[Desktop Entry]\n# a comment\nName=Term\nExec=/bin/sh\nTerminal=true\n";
    let app = App::parse_desktop_file(content, "f.desktop").unwrap().unwrap();
    assert!(app.terminal);
}

#[test]
fn parse_command_string_splits_args() {
    let (cmd, args) = parse_command_string("/usr/bin/cat --flag -n");
    assert_eq!(cmd, "/usr/bin/cat");
    assert_eq!(args, vec!["--flag", "-n"]);
    let (cmd2, args2) = parse_command_string("solo");
    assert_eq!(cmd2, "solo");
    assert!(args2.is_empty());
}

#[test]
fn log_errs_accepts_messages() {
    poki_launcher::log_errs(&["one bad file".to_owned()]);
}

#[test]
fn entry_with_crlf_line_endings() {
    let content = b"[Desktop Entry]\r\nName=Test\r\nExec=/bin/test\r\n";
    let app = App::parse_desktop_file(content, "f.desktop").unwrap().unwrap();
    assert_eq!(app.name, "Test");
    assert_eq!(app.exec_cmd, "/bin/test");
}
