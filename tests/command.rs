use rslint_staged::command::split_command;

#[test]
fn split_on_runs_of_whitespace() {
    assert_eq!(split_command("  eslint\t--fix \n src  "), vec!["eslint", "--fix", "src"]);
}

#[test]
fn split_of_blank_is_empty() {
    assert!(split_command("").is_empty());
    assert!(split_command(" \t\r\n").is_empty());
}

#[test]
fn split_has_no_quoting() {
    assert_eq!(split_command("echo \"a b\""), vec!["echo", "\"a", "b\""]);
}

#[test]
fn split_keeps_non_ascii_words() {
    assert_eq!(split_command("prüfe ünïcode"), vec!["prüfe", "ünïcode"]);
}
