use kinda_shell::entry::EntryStat;
use kinda_shell::mode::FileKind;
use kinda_shell::order::{key_less, sort_entries, sort_key_of};

fn stat(name: &str) -> EntryStat {
    EntryStat {
        name: name.to_string(),
        kind: FileKind::Regular,
        mode: 0o644,
        links: 1,
        uid: 0,
        owner: None,
        gid: 0,
        group: None,
        size: 0,
        rdev: 0,
        modified: 0,
        blocks: None,
        has_acl: false,
        link: None,
    }
}

fn sorted(names: &[&str]) -> Vec<String> {
    let v: Vec<EntryStat> = names.iter().map(|n| stat(n)).collect();
    sort_entries(v).into_iter().map(|e| e.name).collect()
}

#[test]
fn sort_ignores_case_and_punctuation() {
    // keys "btxt", "atxt", "a2txt": the digit sorts before the letter
    assert_eq!(sorted(&["b.txt", "A.txt", "a2.txt"]), vec!["a2.txt", "A.txt", "b.txt"]);
}

#[test]
fn sort_breaks_ties_on_the_lowercased_name() {
    // all three share the key "ab"; '-' sorts before '_', and both before 'b'
    assert_eq!(sorted(&["a_b", "ab", "a-b"]), vec!["a-b", "a_b", "ab"]);
}

#[test]
fn sort_puts_dot_and_dotdot_first() {
    assert_eq!(sorted(&["a", "..", "_", "."]), vec![".", "..", "_", "a"]);
}

#[test]
fn sort_keeps_names_with_equal_keys_in_order() {
    assert_eq!(sorted(&["B", "b"]), vec!["B", "b"]);
    assert_eq!(sorted(&["b", "B"]), vec!["b", "B"]);
}

#[test]
fn sort_of_nothing() {
    assert_eq!(sorted(&[]), Vec::<String>::new());
}

#[test]
fn sort_key_lowercases_letters_and_digits_only() {
    let k = sort_key_of(&"Read-Me.TXT".to_string());
    assert_eq!(k.rank, 2);
    assert_eq!(k.key, "readmetxt".chars().collect::<Vec<char>>());
    assert_eq!(k.tie, "read-me.txt".chars().collect::<Vec<char>>());
    let dot = sort_key_of(&".".to_string());
    assert_eq!(dot.rank, 0);
    assert!(key_less(&dot, &k));
    assert!(!key_less(&k, &dot));
    assert_eq!(sort_key_of(&"..".to_string()).rank, 1);
    assert_eq!(sort_key_of(&"\u{c9}t\u{c9}".to_string()).key, "\u{e9}t\u{e9}".chars().collect::<Vec<char>>());
}
