use dataseal::naming::decimal_string;
use dataseal::search::name_matches;
use dataseal::shell::{help_document, pop_path, push_path, unknown_command_message, HELP_TEXT};

#[test]
fn prompt_path_push_and_pop() {
    let mut p = "root".to_string();
    push_path(&mut p, "kid");
    assert_eq!(p, "root/kid");
    push_path(&mut p, "other");
    assert_eq!(p, "root/other");
    pop_path(&mut p);
    assert_eq!(p, "root");
    pop_path(&mut p);
    assert_eq!(p, "root");
}

#[test]
fn unknown_command_text() {
    assert_eq!(
        unknown_command_message("frob"),
        "Unknown command: frob\n\tTry 'help' for a list of available commands."
    );
}

#[test]
fn decimal_writing() {
    assert_eq!(decimal_string(0), "0");
    assert_eq!(decimal_string(7), "7");
    assert_eq!(decimal_string(10), "10");
    assert_eq!(decimal_string(1234567890), "1234567890");
}

#[test]
fn substring_matching() {
    assert!(name_matches("my email", "mail"));
    assert!(name_matches("abc", ""));
    assert!(name_matches("abc", "abc"));
    assert!(!name_matches("abc", "abcd"));
    assert!(!name_matches("abc", "ac"));
}

#[test]
fn help_lists_commands() {
    let h = help_document();
    assert_eq!(h, HELP_TEXT);
    assert!(h.contains("change-root-password <old> <new>"));
    assert!(h.contains("empty-recycle-bin"));
}
