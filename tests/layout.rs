use kinda_shell::layout::{column_count, format_columns};
use kinda_shell::long::{format_long_columns, FileInfo, SizeOrDevice};

fn items(a: &[&str]) -> Vec<String> {
    a.iter().map(|s| s.to_string()).collect()
}

#[test]
fn all_names_on_one_row_when_they_fit() {
    let v = items(&["alpha", "b", "cc"]);
    assert_eq!(column_count(&v, 80), 3);
    assert_eq!(format_columns(v, 80), "alpha  b  cc");
}

#[test]
fn column_count_is_largest_that_fits() {
    let v = items(&["aaaa", "bb", "cccc", "d", "eeee"]);
    // five columns need 4+2+4+1+4 + 8 = 23
    assert_eq!(column_count(&v, 23), 5);
    // four columns: rows of two, widths 4, 4, 4 and an empty column, total 18
    assert_eq!(column_count(&v, 22), 4);
    assert_eq!(column_count(&v, 18), 4);
    assert_eq!(column_count(&v, 17), 3);
    // three columns: rows of two, widths 4, 4, 4, total 16
    assert_eq!(column_count(&v, 16), 3);
    // two columns: rows of three, widths 4 and 4, total 10
    assert_eq!(column_count(&v, 15), 2);
    assert_eq!(column_count(&v, 10), 2);
    assert_eq!(column_count(&v, 9), 1);
}

#[test]
fn grid_is_filled_column_by_column() {
    let v = items(&["aaaa", "bb", "cccc", "d", "eeee"]);
    assert_eq!(format_columns(v.clone(), 16), "aaaa  cccc  eeee\nbb    d");
    assert_eq!(format_columns(v, 10), "aaaa  d\nbb    eeee\ncccc");
}

#[test]
fn one_name_per_line_when_nothing_fits() {
    let v = items(&["longname", "other"]);
    assert_eq!(column_count(&v, 3), 1);
    assert_eq!(format_columns(v, 3), "longname\nother");
}

#[test]
fn empty_list_gives_empty_text() {
    assert_eq!(format_columns(Vec::new(), 80), "");
}

#[test]
fn inner_rows_keep_their_padding() {
    // seven names in three columns: rows of three; the last column holds one name
    let v = items(&["a", "b", "c", "d", "e", "f", "g"]);
    assert_eq!(column_count(&v, 9), 3);
    assert_eq!(format_columns(v, 9), "a  d  g\nb  e  \nc  f");
}

#[test]
fn widths_count_bytes() {
    let v = items(&["\u{e9}", "x"]);
    // the first name takes two bytes
    assert_eq!(column_count(&v, 5), 2);
    assert_eq!(column_count(&v, 4), 1);
    assert_eq!(format_columns(v, 5), "\u{e9}  x");
}

fn info(name: &str, links: u64, user: &str, sd: SizeOrDevice) -> FileInfo {
    FileInfo {
        permissions: "-rw-r--r-- ".to_string(),
        links,
        user: user.to_string(),
        group: "g".to_string(),
        size_or_device: sd,
        modified_time: "Mar  3 12:00".to_string(),
        name: name.to_string(),
    }
}

#[test]
fn long_columns_are_aligned() {
    let infos = vec![
        info("x", 1, "root", SizeOrDevice::Size(5)),
        info("y", 12, "bob", SizeOrDevice::Size(12345)),
    ];
    assert_eq!(
        format_long_columns(infos),
        "-rw-r--r--   1 root g     5 Mar  3 12:00 x\n-rw-r--r--  12 bob  g 12345 Mar  3 12:00 y"
    );
}

#[test]
fn long_device_column_is_wider_than_sizes() {
    let infos = vec![
        info("d", 1, "u", SizeOrDevice::Device { major: 259, minor: 12 }),
        info("f", 1, "u", SizeOrDevice::Size(7)),
        info("e", 1, "u", SizeOrDevice::Device { major: 8, minor: 1 }),
    ];
    assert_eq!(
        format_long_columns(infos),
        "-rw-r--r--  1 u g 259, 12 Mar  3 12:00 d\n-rw-r--r--  1 u g       7 Mar  3 12:00 f\n-rw-r--r--  1 u g   8,  1 Mar  3 12:00 e"
    );
}

#[test]
fn long_columns_of_nothing() {
    assert_eq!(format_long_columns(Vec::new()), "");
}
