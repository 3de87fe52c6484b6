use kinda_shell::shell::{clean_input, split};

fn env() -> Vec<(String, String)> {
    vec![
        ("HOME".to_string(), "/home/u".to_string()),
        ("X".to_string(), "1".to_string()),
        ("LONG_NAME".to_string(), "v".to_string()),
    ]
}

fn words(v: &[&str]) -> Vec<String> {
    v.iter().map(|s| s.to_string()).collect()
}

#[test]
fn words_are_split_on_spaces() {
    let cmd = split("ls  -la   dir ", &env()).unwrap();
    assert_eq!(cmd.command, "ls");
    assert_eq!(cmd.args, words(&["-la", "dir"]));
}

#[test]
fn quotes_keep_spaces_and_single_quotes_stop_expansion() {
    let cmd = split("echo 'a b' \"c $X\" '$X'", &env()).unwrap();
    assert_eq!(cmd.command, "echo");
    assert_eq!(cmd.args, words(&["a b", "c 1", "$X"]));
}

#[test]
fn variables_braced_and_bare() {
    let cmd = split("echo ${X}y $LONG_NAME.z $unset", &env()).unwrap();
    assert_eq!(cmd.args, words(&["1y", "v.z"]));
}

#[test]
fn unterminated_brace_reads_to_the_end() {
    let cmd = split("echo a${X", &env()).unwrap();
    assert_eq!(cmd.args, words(&["a1"]));
}

#[test]
fn tilde_at_word_start_is_home() {
    let cmd = split("cd ~ a~", &env()).unwrap();
    assert_eq!(cmd.args, words(&["/home/u", "a~"]));
    let cmd = split("cd ~", &Vec::new()).unwrap();
    assert_eq!(cmd.args, words(&["~"]));
}

#[test]
fn open_quote_is_an_error() {
    assert_eq!(split("echo \"abc", &env()).unwrap_err(), 1);
    assert_eq!(split("echo 'abc", &env()).unwrap_err(), 1);
}

#[test]
fn blank_line_has_no_command() {
    let cmd = split("   ", &env()).unwrap();
    assert_eq!(cmd.command, "");
    assert!(cmd.args.is_empty());
}

#[test]
fn arrow_keys_are_removed() {
    assert_eq!(clean_input("\u{1b}[Als"), "ls");
    assert_eq!(clean_input("a\u{1b}[Bb\u{1b}[Dc\u{1b}[E"), "abc\u{1b}[E");
    assert_eq!(clean_input("plain"), "plain");
}
