use kinda_shell::remove::parse_rm_args;

fn args(a: &[&str]) -> Vec<String> {
    a.iter().map(|s| s.to_string()).collect()
}

#[test]
fn paths_and_recursive_flag() {
    assert_eq!(parse_rm_args(&args(&["a", "-r", "b"])), Ok((true, args(&["a", "b"]))));
    assert_eq!(parse_rm_args(&args(&["a"])), Ok((false, args(&["a"]))));
    assert_eq!(parse_rm_args(&args(&[])), Ok((false, args(&[]))));
}

#[test]
fn first_invalid_option_is_reported() {
    assert_eq!(parse_rm_args(&args(&["a", "-f", "-x"])), Err('f'));
    assert_eq!(parse_rm_args(&args(&["-rf"])), Err('r'));
    assert_eq!(parse_rm_args(&args(&["-"])), Err(' '));
}
