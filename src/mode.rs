//! File kinds, permission strings, classification marks and device numbers.

use vstd::prelude::*;

verus! {

/// The kind of a file system entry, as its metadata reports it.
#[derive(Clone, Copy, Debug, PartialEq, Eq, Structural)]
pub enum FileKind {
    Regular,
    Directory,
    Symlink,
    Fifo,
    Socket,
    BlockDevice,
    CharDevice,
}

/// The letter that opens a permission string.
pub open spec fn kind_letter(k: FileKind) -> char {
    match k {
        FileKind::Directory => 'd',
        FileKind::Symlink => 'l',
        FileKind::Fifo => 'p',
        FileKind::Socket => 's',
        FileKind::BlockDevice => 'b',
        FileKind::CharDevice => 'c',
        FileKind::Regular => '-',
    }
}

/// Whether any bit of `mask` is set in `mode`.
pub open spec fn has_bit(mode: u32, mask: u32) -> bool {
    mode & mask != 0
}

/// `c` where the bit is set, `-` otherwise.
pub open spec fn flag_char(set: bool, c: char) -> char {
    if set {
        c
    } else {
        '-'
    }
}

/// An execute position with a special bit laid over it: `lower` when both are set,
/// `upper` when only the special bit is, `x` or `-` otherwise.
pub open spec fn exec_char(exec: bool, special: bool, lower: char, upper: char) -> char {
    if special {
        if exec {
            lower
        } else {
            upper
        }
    } else {
        flag_char(exec, 'x')
    }
}

/// The eleven characters of a permission string: the kind letter, three `rwx`
/// groups with setuid, setgid and sticky laid over the execute positions, and
/// `+` where an access control list is present (a space otherwise).
pub open spec fn permission_text(k: FileKind, mode: u32, acl: bool) -> Seq<char> {
    seq![
        kind_letter(k),
        flag_char(has_bit(mode, 0o400), 'r'),
        flag_char(has_bit(mode, 0o200), 'w'),
        exec_char(has_bit(mode, 0o100), has_bit(mode, 0o4000), 's', 'S'),
        flag_char(has_bit(mode, 0o040), 'r'),
        flag_char(has_bit(mode, 0o020), 'w'),
        exec_char(has_bit(mode, 0o010), has_bit(mode, 0o2000), 's', 'S'),
        flag_char(has_bit(mode, 0o004), 'r'),
        flag_char(has_bit(mode, 0o002), 'w'),
        exec_char(has_bit(mode, 0o001), has_bit(mode, 0o1000), 't', 'T'),
        if acl {
            '+'
        } else {
            ' '
        }
    ]
}

/// Whether the character at an execute position shows the execute bit.
pub open spec fn shows_exec(c: char) -> bool {
    c == 'x' || c == 's' || c == 't'
}

/// Whether the character at an execute position shows the special bit laid over it.
pub open spec fn shows_special(c: char) -> bool {
    c == 's' || c == 'S' || c == 't' || c == 'T'
}

/// `mask` where `shown` holds, zero otherwise.
pub open spec fn bit_if(shown: bool, mask: u32) -> u32 {
    if shown {
        mask
    } else {
        0
    }
}

/// The twelve permission bits that a permission string shows, read back from it.
pub open spec fn shown_mode(t: Seq<char>) -> u32 {
    bit_if(shows_special(t[3]), 0o4000) | bit_if(shows_special(t[6]), 0o2000)
        | bit_if(shows_special(t[9]), 0o1000) | bit_if(t[1] == 'r', 0o400)
        | bit_if(t[2] == 'w', 0o200) | bit_if(shows_exec(t[3]), 0o100)
        | bit_if(t[4] == 'r', 0o040) | bit_if(t[5] == 'w', 0o020)
        | bit_if(shows_exec(t[6]), 0o010) | bit_if(t[7] == 'r', 0o004)
        | bit_if(t[8] == 'w', 0o002) | bit_if(shows_exec(t[9]), 0o001)
}

proof fn lemma_single_bit(mode: u32, mask: u32)
    requires
        mask == 1 || mask == 2 || mask == 4 || mask == 8 || mask == 16 || mask == 32 || mask
            == 64 || mask == 128 || mask == 256 || mask == 512 || mask == 1024 || mask == 2048,
    ensures
        bit_if(has_bit(mode, mask), mask) == mode & mask,
{
    assert(mode & mask != 0 ==> mode & mask == mask) by (bit_vector)
        requires
            mask == 1 || mask == 2 || mask == 4 || mask == 8 || mask == 16 || mask == 32 || mask
                == 64 || mask == 128 || mask == 256 || mask == 512 || mask == 1024 || mask == 2048,
    ;
}

/// A permission string keeps the whole bit layout: the kind, the twelve
/// permission bits and the access control mark can all be read back from it.
pub proof fn lemma_permission_text_round_trip(k: FileKind, mode: u32, acl: bool)
    ensures
        permission_text(k, mode, acl).len() == 11,
        forall|k2: FileKind| kind_letter(k2) == permission_text(k, mode, acl)[0] ==> k2 == k,
        shown_mode(permission_text(k, mode, acl)) == mode & 0o7777,
        (permission_text(k, mode, acl)[10] == '+') == acl,
{
    let t = permission_text(k, mode, acl);
    lemma_single_bit(mode, 0o4000);
    lemma_single_bit(mode, 0o2000);
    lemma_single_bit(mode, 0o1000);
    lemma_single_bit(mode, 0o400);
    lemma_single_bit(mode, 0o200);
    lemma_single_bit(mode, 0o100);
    lemma_single_bit(mode, 0o040);
    lemma_single_bit(mode, 0o020);
    lemma_single_bit(mode, 0o010);
    lemma_single_bit(mode, 0o004);
    lemma_single_bit(mode, 0o002);
    lemma_single_bit(mode, 0o001);
    assert(shown_mode(t) == (mode & 0o4000) | (mode & 0o2000) | (mode & 0o1000) | (mode & 0o400)
        | (mode & 0o200) | (mode & 0o100) | (mode & 0o040) | (mode & 0o020) | (mode & 0o010)
        | (mode & 0o004) | (mode & 0o002) | (mode & 0o001));
    assert((mode & 0o4000) | (mode & 0o2000) | (mode & 0o1000) | (mode & 0o400) | (mode & 0o200)
        | (mode & 0o100) | (mode & 0o040) | (mode & 0o020) | (mode & 0o010) | (mode & 0o004) | (
    mode & 0o002) | (mode & 0o001) == mode & 0o7777) by (bit_vector);
}

fn kind_letter_of(k: FileKind) -> (r: char)
    ensures
        r == kind_letter(k),
{
    match k {
        FileKind::Directory => 'd',
        FileKind::Symlink => 'l',
        FileKind::Fifo => 'p',
        FileKind::Socket => 's',
        FileKind::BlockDevice => 'b',
        FileKind::CharDevice => 'c',
        FileKind::Regular => '-',
    }
}

fn flag_char_of(set: bool, c: char) -> (r: char)
    ensures
        r == flag_char(set, c),
{
    if set {
        c
    } else {
        '-'
    }
}

fn exec_char_of(exec: bool, special: bool, lower: char, upper: char) -> (r: char)
    ensures
        r == exec_char(exec, special, lower, upper),
{
    if special {
        if exec {
            lower
        } else {
            upper
        }
    } else {
        flag_char_of(exec, 'x')
    }
}

/// The permission string of an entry of kind `k` with mode bits `mode`.
pub fn mode_string(k: FileKind, mode: u32, acl: bool) -> (r: String)
    ensures
        r@ == permission_text(k, mode, acl),
{
    let chars: [char; 11] = [
        kind_letter_of(k),
        flag_char_of(mode & 0o400 != 0, 'r'),
        flag_char_of(mode & 0o200 != 0, 'w'),
        exec_char_of(mode & 0o100 != 0, mode & 0o4000 != 0, 's', 'S'),
        flag_char_of(mode & 0o040 != 0, 'r'),
        flag_char_of(mode & 0o020 != 0, 'w'),
        exec_char_of(mode & 0o010 != 0, mode & 0o2000 != 0, 's', 'S'),
        flag_char_of(mode & 0o004 != 0, 'r'),
        flag_char_of(mode & 0o002 != 0, 'w'),
        exec_char_of(mode & 0o001 != 0, mode & 0o1000 != 0, 't', 'T'),
        if acl {
            '+'
        } else {
            ' '
        },
    ];
    assert(chars@ =~= permission_text(k, mode, acl));
    let mut r = String::new();
    let mut i: usize = 0;
    while i < 11
        invariant
            i <= 11,
            r@ == chars@.subrange(0, i as int),
        decreases 11 - i,
    {
        crate::text::push_char(&mut r, chars[i]);
        i = i + 1;
        assert(r@ =~= chars@.subrange(0, i as int));
    }
    assert(r@ =~= chars@);
    r
}

/// The mark that classification appends to the name of an entry: `@` for a
/// symbolic link, `/` for a directory, `|` for a fifo, `=` for a socket, `*`
/// for a regular file with any execute bit, nothing otherwise.
pub open spec fn class_mark(k: FileKind, mode: u32) -> Seq<char> {
    match k {
        FileKind::Symlink => seq!['@'],
        FileKind::Directory => seq!['/'],
        FileKind::Fifo => seq!['|'],
        FileKind::Socket => seq!['='],
        FileKind::Regular => if has_bit(mode, 0o111) {
            seq!['*']
        } else {
            seq![]
        },
        _ => seq![],
    }
}

/// The classification mark of an entry of kind `k` with mode bits `mode`.
pub fn classify_suffix(k: FileKind, mode: u32) -> (r: String)
    ensures
        r@ == class_mark(k, mode),
{
    let mut r = String::new();
    match k {
        FileKind::Symlink => crate::text::push_char(&mut r, '@'),
        FileKind::Directory => crate::text::push_char(&mut r, '/'),
        FileKind::Fifo => crate::text::push_char(&mut r, '|'),
        FileKind::Socket => crate::text::push_char(&mut r, '='),
        FileKind::Regular => {
            if mode & 0o111 != 0 {
                crate::text::push_char(&mut r, '*');
            }
        },
        _ => {},
    }
    assert(r@ =~= class_mark(k, mode));
    r
}

/// The major number of a raw device identifier.
pub fn major(dev: u64) -> (r: u64)
    ensures
        r == (dev >> 8u64) & 0xfffu64,
{
    (dev >> 8) & 0xfff
}

/// The minor number of a raw device identifier.
pub fn minor(dev: u64) -> (r: u64)
    ensures
        r == (dev & 0xffu64) | ((dev >> 12u64) & 0xfff00u64),
{
    (dev & 0xff) | ((dev >> 12) & 0xfff00)
}

} // verus!
