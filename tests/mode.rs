use kinda_shell::mode::{classify_suffix, major, minor, mode_string, FileKind};

#[test]
fn regular_file_0644() {
    assert_eq!(mode_string(FileKind::Regular, 0o644, false), "-rw-r--r-- ");
}

#[test]
fn directory_with_setgid() {
    let s = mode_string(FileKind::Directory, 0o2755, false);
    assert_eq!(s, "drwxr-sr-x ");
    assert_eq!(s.chars().next(), Some('d'));
    assert_eq!(s.chars().nth(6), Some('s'));
}

#[test]
fn special_bits_without_execute_are_uppercase() {
    assert_eq!(mode_string(FileKind::Regular, 0o7644, false), "-rwSr-Sr-T ");
    assert_eq!(mode_string(FileKind::Directory, 0o1777, false), "drwxrwxrwt ");
    assert_eq!(mode_string(FileKind::Regular, 0o4755, true), "-rwsr-xr-x+");
}

#[test]
fn every_kind_has_its_letter() {
    assert_eq!(mode_string(FileKind::Symlink, 0o777, false), "lrwxrwxrwx ");
    assert_eq!(mode_string(FileKind::Fifo, 0o600, false), "prw------- ");
    assert_eq!(mode_string(FileKind::Socket, 0o755, false), "srwxr-xr-x ");
    assert_eq!(mode_string(FileKind::BlockDevice, 0o660, false), "brw-rw---- ");
    assert_eq!(mode_string(FileKind::CharDevice, 0o666, false), "crw-rw-rw- ");
    assert_eq!(mode_string(FileKind::Regular, 0, false), "---------- ");
}

#[test]
fn file_type_bits_in_the_mode_are_ignored() {
    assert_eq!(mode_string(FileKind::Regular, 0o100644, false), "-rw-r--r-- ");
}

#[test]
fn device_numbers() {
    assert_eq!(major(0x0801), 8);
    assert_eq!(minor(0x0801), 1);
    assert_eq!(major(0x123456), 0x234);
    assert_eq!(minor(0x123456), 0x156);
    assert_eq!(major(0), 0);
    assert_eq!(minor(0xfff_fff_fff), 0xfffff);
}

#[test]
fn classification_marks() {
    assert_eq!(classify_suffix(FileKind::Symlink, 0o777), "@");
    assert_eq!(classify_suffix(FileKind::Directory, 0o755), "/");
    assert_eq!(classify_suffix(FileKind::Fifo, 0o644), "|");
    assert_eq!(classify_suffix(FileKind::Socket, 0o755), "=");
    assert_eq!(classify_suffix(FileKind::Regular, 0o755), "*");
    assert_eq!(classify_suffix(FileKind::Regular, 0o001), "*");
    assert_eq!(classify_suffix(FileKind::Regular, 0o644), "");
    assert_eq!(classify_suffix(FileKind::CharDevice, 0o755), "");
}
