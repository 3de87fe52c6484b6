use kinda_shell::echo::echo_bytes;

#[test]
fn words_are_joined_by_single_spaces() {
    assert_eq!(echo_bytes("echo  hello   world"), b"hello world\n".to_vec());
}

#[test]
fn quotes_keep_spaces() {
    assert_eq!(echo_bytes("echo 'a  b' \"c 'd'\""), b"a  b c 'd'\n".to_vec());
}

#[test]
fn escapes_are_read() {
    assert_eq!(echo_bytes("echo 'a\\tb\\nc\\\\d'"), b"a\tb\nc\\d\n".to_vec());
    assert_eq!(echo_bytes("echo 'x\\ry'"), b"x\ry\n".to_vec());
}

#[test]
fn hex_escapes() {
    assert_eq!(echo_bytes("echo '\\x41\\x7a'"), b"Az\n".to_vec());
    assert_eq!(echo_bytes("echo '\\x+9'"), vec![9u8, b'\n']);
    assert_eq!(echo_bytes("echo '\\xg1'"), b"g1\n".to_vec());
    assert_eq!(echo_bytes("echo '\\x4'"), b"4\n".to_vec());
}

#[test]
fn backslash_c_stops_output() {
    assert_eq!(echo_bytes("echo 'abc\\cdef'"), b"abc".to_vec());
}

#[test]
fn unknown_escape_keeps_the_backslash() {
    assert_eq!(echo_bytes("echo 'a\\qb'"), b"a\\qqb\n".to_vec());
    assert_eq!(echo_bytes("echo 'end\\'"), b"end\\\n".to_vec());
}

#[test]
fn backslash_outside_quotes_takes_the_next_character() {
    assert_eq!(echo_bytes("echo a\\ b\\n"), b"a bn\n".to_vec());
}

#[test]
fn characters_are_written_as_their_low_byte() {
    assert_eq!(echo_bytes("echo \u{e9}"), vec![0xe9u8, b'\n']);
}

#[test]
fn echo_alone_prints_an_empty_line() {
    assert_eq!(echo_bytes("echo"), b"\n".to_vec());
    assert_eq!(echo_bytes(""), b"\n".to_vec());
}
