use kinda_shell::entry::{EntryStat, LinkTarget};
use kinda_shell::listing::{
    directory_section, format_total, invalid_flag_report, plan_listing, render_listing,
    visible_entries, ListRequest, TargetScan,
};
use kinda_shell::mode::FileKind;

fn stat(name: &str, kind: FileKind, mode: u32) -> EntryStat {
    EntryStat {
        name: name.to_string(),
        kind,
        mode,
        links: 1,
        uid: 1000,
        owner: Some("alice".to_string()),
        gid: 1000,
        group: Some("staff".to_string()),
        size: 10,
        rdev: 0,
        modified: 0,
        blocks: Some(8),
        has_acl: false,
        link: None,
    }
}

fn args(a: &[&str]) -> Vec<String> {
    a.iter().map(|s| s.to_string()).collect()
}

fn dir_d(with_sub: bool) -> TargetScan {
    let mut children = vec![
        stat("b", FileKind::Regular, 0o644),
        stat(".a", FileKind::Regular, 0o644),
        stat("c", FileKind::Regular, 0o755),
    ];
    if with_sub {
        children.push(stat("sub", FileKind::Directory, 0o755));
    }
    TargetScan::Directory {
        this: Some(stat(".", FileKind::Directory, 0o755)),
        parent: Some(stat("..", FileKind::Directory, 0o755)),
        children,
    }
}

fn list(a: &[&str], scans: Vec<TargetScan>) -> String {
    let req = plan_listing(args(a)).expect("flags are known");
    render_listing(&req, scans, 80, "UTC", 0)
}

#[test]
fn plain_listing_hides_hidden_entries() {
    assert_eq!(list(&["d"], vec![dir_d(false)]), "b  c\n");
}

#[test]
fn show_hidden_puts_dot_entries_first() {
    assert_eq!(list(&["-a", "d"], vec![dir_d(false)]), ".  ..  .a  b  c\n");
}

#[test]
fn classify_marks_executables_and_directories() {
    assert_eq!(list(&["-F", "d"], vec![dir_d(true)]), "b  c*  sub/\n");
}

#[test]
fn classify_and_hidden_combined() {
    assert_eq!(list(&["-aF", "d"], vec![dir_d(false)]), "./  ../  .a  b  c*\n");
}

#[test]
fn unknown_flag_is_rejected_whatever_the_paths() {
    assert!(plan_listing(args(&["-z"])).is_none());
    assert!(plan_listing(args(&["d", "-lz", "e"])).is_none());
    assert!(plan_listing(args(&["-a", "-Fx"])).is_none());
    assert_eq!(invalid_flag_report(), "ls: invalid flag\n");
}

#[test]
fn plan_defaults_to_current_directory() {
    let req = plan_listing(args(&["-l"])).unwrap();
    assert_eq!(req.targets, vec![".".to_string()]);
    assert!(req.long_format);
    assert!(!req.show_hidden);
    assert!(!req.classify);
    let req = plan_listing(args(&["x", "-la", "y"])).unwrap();
    assert_eq!(req.targets, args(&["x", "y"]));
    assert!(req.long_format && req.show_hidden && !req.classify);
}

#[test]
fn total_line_halves_the_block_count() {
    assert_eq!(format_total(24), "total 12");
    assert_eq!(format_total(0), "total 0");
    assert_eq!(format_total(7), "total 3");
}

#[test]
fn long_listing_of_two_files() {
    let mut a = stat("a", FileKind::Regular, 0o644);
    a.blocks = Some(8);
    let mut b = stat("b", FileKind::Regular, 0o644);
    b.blocks = Some(16);
    b.links = 2;
    b.size = 200;
    let scan = TargetScan::Directory { this: None, parent: None, children: vec![b, a] };
    assert_eq!(
        list(&["-l", "d"], vec![scan]),
        "total 12\n-rw-r--r--  1 alice staff  10 Jan  1 00:00 a\n-rw-r--r--  2 alice staff 200 Jan  1 00:00 b\n"
    );
}

#[test]
fn long_listing_of_a_device_and_a_link() {
    let mut tty = stat("tty", FileKind::CharDevice, 0o620);
    tty.rdev = 0x0801;
    tty.owner = None;
    tty.uid = 0;
    tty.group = Some("tty".to_string());
    let mut link = stat("ln", FileKind::Symlink, 0o777);
    link.link = Some(LinkTarget {
        text: "bin".to_string(),
        target: Some((FileKind::Directory, 0o755)),
    });
    link.size = 3;
    let scan = TargetScan::Directory { this: None, parent: None, children: vec![tty, link] };
    assert_eq!(
        list(&["-lF", "d"], vec![scan]),
        "total 8\nlrwxrwxrwx  1 alice staff    3 Jan  1 00:00 ln -> bin/\ncrw--w----  1 0     tty   8, 1 Jan  1 00:00 tty\n"
    );
}

#[test]
fn several_targets_get_headers_and_errors_come_first() {
    let scans = vec![
        dir_d(false),
        TargetScan::Failed("entity not found".to_string()),
        TargetScan::NotDirectory(Some(stat("f.txt", FileKind::Regular, 0o644))),
        dir_d(false),
    ];
    assert_eq!(
        list(&["d", "missing", "f.txt", "e"], scans),
        "ls: cannot access 'missing': entity not found\nf.txt\n\nd:\nb  c\n\ne:\nb  c\n"
    );
}

#[test]
fn files_that_are_not_directories_are_sorted() {
    let scans = vec![
        TargetScan::NotDirectory(Some(stat("b.txt", FileKind::Regular, 0o644))),
        TargetScan::NotDirectory(Some(stat("A.txt", FileKind::Regular, 0o644))),
        TargetScan::NotDirectory(None),
    ];
    assert_eq!(list(&["b.txt", "A.txt", "gone"], scans), "A.txt b.txt\n");
}

#[test]
fn empty_directory_prints_nothing() {
    let scan = TargetScan::Directory { this: None, parent: None, children: vec![] };
    assert_eq!(list(&["d"], vec![scan]), "");
    let scan = TargetScan::Directory { this: None, parent: None, children: vec![] };
    assert_eq!(list(&["-l", "d"], vec![scan]), "total 0\n");
}

#[test]
fn visible_entries_orders_dots_first() {
    let children = vec![
        stat("zeta", FileKind::Regular, 0o644),
        stat(".hidden", FileKind::Regular, 0o644),
        stat("Alpha", FileKind::Regular, 0o644),
    ];
    let shown = visible_entries(
        Some(stat(".", FileKind::Directory, 0o755)),
        Some(stat("..", FileKind::Directory, 0o755)),
        children,
        true,
    );
    let names: Vec<String> = shown.iter().map(|e| e.name.clone()).collect();
    assert_eq!(names, args(&[".", "..", "Alpha", ".hidden", "zeta"]));
    let children = vec![stat(".hidden", FileKind::Regular, 0o644), stat("x", FileKind::Regular, 0o644)];
    let shown = visible_entries(Some(stat(".", FileKind::Directory, 0o755)), None, children, false);
    let names: Vec<String> = shown.iter().map(|e| e.name.clone()).collect();
    assert_eq!(names, args(&["x"]));
}

#[test]
fn directory_section_short_format() {
    let req = ListRequest {
        targets: args(&["d"]),
        show_hidden: false,
        long_format: false,
        classify: false,
    };
    let parts = directory_section(
        None,
        None,
        vec![stat("one", FileKind::Regular, 0o644), stat("two", FileKind::Regular, 0o644)],
        &req,
        80,
        "UTC",
        0,
    );
    assert_eq!(parts, args(&["one  two"]));
}

#[test]
fn names_with_spaces_are_quoted() {
    let scan = TargetScan::Directory {
        this: None,
        parent: None,
        children: vec![stat("my file", FileKind::Regular, 0o644), stat("", FileKind::Regular, 0o644)],
    };
    assert_eq!(list(&["d"], vec![scan]), "''  'my file'\n");
}
