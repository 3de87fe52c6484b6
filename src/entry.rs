//! What the listing knows of each entry, as plain values, and the record it
//! renders from them.

use vstd::prelude::*;
use crate::long::{FileInfo, FileInfoView, SizeOrDevice};
use crate::mode::{class_mark, permission_text, FileKind};
use crate::mtime::time_text;
use crate::text::{control, decimal, push_char, whitespace};

verus! {

/// The target of a symbolic link: the link's text and, where the target could be
/// examined, its kind and mode bits.
pub struct LinkTarget {
    pub text: String,
    pub target: Option<(FileKind, u32)>,
}

/// The metadata of one entry, captured when it was enumerated.
pub struct EntryStat {
    /// The file name; `.` and `..` for the directory itself and its parent.
    pub name: String,
    pub kind: FileKind,
    /// The mode bits, file type bits included or not.
    pub mode: u32,
    pub links: u64,
    pub uid: u32,
    /// The account name of `uid`, where it could be resolved.
    pub owner: Option<String>,
    pub gid: u32,
    /// The group name of `gid`, where it could be resolved.
    pub group: Option<String>,
    pub size: u64,
    /// The raw device identifier, read for block and character devices.
    pub rdev: u64,
    /// The modification time, in seconds since the Unix epoch.
    pub modified: i64,
    /// The allocated 512-byte blocks, where a second look at the entry gave them.
    pub blocks: Option<u64>,
    /// Whether an access control list is attached.
    pub has_acl: bool,
    /// For a symbolic link, its target where it could be read.
    pub link: Option<LinkTarget>,
}

/// The characters that a shell reads specially.
pub open spec fn shell_special(c: char) -> bool {
    c == '*' || c == '?' || c == '[' || c == ']' || c == '{' || c == '}' || c == '(' || c == ')'
        || c == '\'' || c == '"' || c == ';' || c == '&' || c == '|' || c == '<' || c == '>' || c
        == '$' || c == '\\' || c == '`' || c == '~' || c == '!'
}

/// Whether a character keeps a name from standing bare: whitespace, a control
/// character or a shell metacharacter.
pub open spec fn unsafe_char(c: char) -> bool {
    whitespace(c) || control(c) || shell_special(c)
}

/// Whether a name is shown in single quotes: it is empty or holds an unsafe character.
pub open spec fn needs_quotes(s: Seq<char>) -> bool {
    s.len() == 0 || exists|i: int| 0 <= i < s.len() && unsafe_char(#[trigger] s[i])
}

/// A name as shown: in single quotes where it needs them.
pub open spec fn quoted_name(s: Seq<char>) -> Seq<char> {
    if needs_quotes(s) {
        seq!['\''] + s + seq!['\'']
    } else {
        s
    }
}

/// The name column of an entry. The name, quoted where needed; with classify,
/// its classification mark, except for a symbolic link in the long format;
/// in the long format a symbolic link whose target was read is followed by
/// ` -> ` and the target, which with classify carries the mark of the file it
/// leads to where that could be examined.
pub open spec fn display_name(st: EntryStat, classify: bool, long_format: bool) -> Seq<char> {
    let base = quoted_name(st.name@);
    let link_in_long = long_format && st.kind == FileKind::Symlink;
    let marked = if classify && !link_in_long {
        base + class_mark(st.kind, st.mode)
    } else {
        base
    };
    match st.link {
        Some(t) if link_in_long => marked + seq![' ', '-', '>', ' '] + t.text@ + match t.target {
            Some(target) if classify => class_mark(target.0, target.1),
            _ => seq![],
        },
        _ => marked,
    }
}

/// An account or group name, or the numeric id where it could not be resolved.
pub open spec fn id_label(name: Option<String>, id: u32) -> Seq<char> {
    match name {
        Some(n) => n@,
        None => decimal(id as nat),
    }
}

/// What the size column of an entry shows: major and minor numbers for block
/// and character devices, the size in bytes otherwise.
pub open spec fn size_or_device_of(st: EntryStat) -> SizeOrDevice {
    if st.kind == FileKind::BlockDevice || st.kind == FileKind::CharDevice {
        SizeOrDevice::Device {
            major: (st.rdev >> 8u64) & 0xfffu64,
            minor: (st.rdev & 0xffu64) | ((st.rdev >> 12u64) & 0xfff00u64),
        }
    } else {
        SizeOrDevice::Size(st.size)
    }
}

/// The long-format record of an entry: its permission string, link count,
/// owner and group, size or device numbers, modification time and name
/// column; `None` when its modification time cannot be represented.
pub open spec fn info_of(
    st: EntryStat,
    classify: bool,
    long_format: bool,
    zone: Seq<char>,
    now: int,
) -> Option<FileInfoView> {
    match time_text(zone, st.modified as int, now) {
        Some(t) => Some(
            FileInfoView {
                permissions: permission_text(st.kind, st.mode, st.has_acl),
                links: st.links,
                user: id_label(st.owner, st.uid),
                group: id_label(st.group, st.gid),
                size_or_device: size_or_device_of(st),
                modified_time: t,
                name: display_name(st, classify, long_format),
            },
        ),
        None => None,
    }
}

/// The view of an optional record.
pub open spec fn opt_info_view(o: Option<FileInfo>) -> Option<FileInfoView> {
    match o {
        Some(f) => Some(f@),
        None => None,
    }
}

/// Whether a name is shown in single quotes.
pub fn should_be_in_quotes(s: &str) -> (r: bool)
    ensures
        r == needs_quotes(s@),
{
    let cs = crate::text::chars_of(s);
    if cs.len() == 0 {
        return true;
    }
    let mut i: usize = 0;
    while i < cs.len()
        invariant
            i <= cs.len(),
            cs@ == s@,
            forall|k: int| 0 <= k < i ==> !unsafe_char(#[trigger] cs@[k]),
        decreases cs.len() - i,
    {
        let c = cs[i];
        if crate::text::is_whitespace_char(c) || crate::text::is_control_char(c) {
            return true;
        }
        if c == '*' || c == '?' || c == '[' || c == ']' || c == '{' || c == '}' || c == '(' || c
            == ')' || c == '\'' || c == '"' || c == ';' || c == '&' || c == '|' || c == '<' || c
            == '>' || c == '$' || c == '\\' || c == '`' || c == '~' || c == '!' {
            return true;
        }
        i = i + 1;
    }
    false
}

/// The name column of an entry.
pub fn name_field(st: &EntryStat, classify: bool, long_format: bool) -> (r: String)
    ensures
        r@ == display_name(*st, classify, long_format),
{
    let mut name = String::new();
    if should_be_in_quotes(st.name.as_str()) {
        push_char(&mut name, '\'');
        name.append(st.name.as_str());
        push_char(&mut name, '\'');
    } else {
        name.append(st.name.as_str());
    }
    assert(name@ =~= quoted_name(st.name@));
    let link_in_long = long_format && st.kind == FileKind::Symlink;
    if classify && !link_in_long {
        let mark = crate::mode::classify_suffix(st.kind, st.mode);
        name.append(mark.as_str());
    }
    if link_in_long {
        match &st.link {
            Some(t) => {
                let ghost before = name@;
                name.append(" -> ");
                proof {
                    reveal_strlit(" -> ");
                }
                name.append(t.text.as_str());
                if classify {
                    match t.target {
                        Some(target) => {
                            let mark = crate::mode::classify_suffix(target.0, target.1);
                            name.append(mark.as_str());
                        },
                        None => {},
                    }
                }
                assert(name@ =~= display_name(*st, classify, long_format));
            },
            None => {},
        }
    }
    name
}

/// An account or group name, or the numeric id where it could not be resolved.
pub fn id_field(name: &Option<String>, id: u32) -> (r: String)
    ensures
        r@ == id_label(*name, id),
{
    match name {
        Some(n) => n.clone(),
        None => crate::text::decimal_text(id as u128),
    }
}

/// The long-format record of an entry.
pub fn file_info(st: &EntryStat, classify: bool, long_format: bool, zone: &str, now: i64) -> (r:
    Option<FileInfo>)
    ensures
        opt_info_view(r) == info_of(*st, classify, long_format, zone@, now as int),
{
    let modified_time = match crate::mtime::format_time(zone, st.modified, now) {
        Some(t) => t,
        None => {
            return None;
        },
    };
    let size_or_device = match st.kind {
        FileKind::BlockDevice | FileKind::CharDevice => SizeOrDevice::Device {
            major: crate::mode::major(st.rdev),
            minor: crate::mode::minor(st.rdev),
        },
        _ => SizeOrDevice::Size(st.size),
    };
    Some(
        FileInfo {
            permissions: crate::mode::mode_string(st.kind, st.mode, st.has_acl),
            links: st.links,
            user: id_field(&st.owner, st.uid),
            group: id_field(&st.group, st.gid),
            size_or_device,
            modified_time,
            name: name_field(st, classify, long_format),
        },
    )
}

} // verus!
