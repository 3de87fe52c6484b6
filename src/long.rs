//! The long listing format: one aligned row of fields per entry.

use vstd::prelude::*;
use crate::layout::text_len;
use crate::text::{decimal, pad_left, pad_right, trimmed_end};

verus! {

/// What the size column shows: a byte count, or a device's major and minor numbers.
#[derive(Clone, Copy, Debug, PartialEq, Eq, Structural)]
pub enum SizeOrDevice {
    Size(u64),
    Device { major: u64, minor: u64 },
}

/// The rendered fields of one entry of the long format.
pub struct FileInfo {
    pub permissions: String,
    pub links: u64,
    pub user: String,
    pub group: String,
    pub size_or_device: SizeOrDevice,
    pub modified_time: String,
    pub name: String,
}

/// The fields of a long-format record, as values.
pub struct FileInfoView {
    pub permissions: Seq<char>,
    pub links: u64,
    pub user: Seq<char>,
    pub group: Seq<char>,
    pub size_or_device: SizeOrDevice,
    pub modified_time: Seq<char>,
    pub name: Seq<char>,
}

impl View for FileInfo {
    type V = FileInfoView;

    open spec fn view(&self) -> FileInfoView {
        FileInfoView {
            permissions: self.permissions@,
            links: self.links,
            user: self.user@,
            group: self.group@,
            size_or_device: self.size_or_device,
            modified_time: self.modified_time@,
            name: self.name@,
        }
    }
}

/// The views of a sequence of records.
pub open spec fn info_views(s: Seq<FileInfo>) -> Seq<FileInfoView> {
    s.map_values(|f: FileInfo| f@)
}

/// The larger of two integers.
pub open spec fn max(a: int, b: int) -> int {
    if a < b {
        b
    } else {
        a
    }
}

/// The widest field of each column over the entries: link counts, owners,
/// groups, sizes, major numbers and minor numbers (zero where none).
pub open spec fn field_widths(infos: Seq<FileInfoView>) -> (int, int, int, int, int, int)
    decreases infos.len(),
{
    if infos.len() == 0 {
        (0, 0, 0, 0, 0, 0)
    } else {
        let w = field_widths(infos.drop_last());
        let f = infos.last();
        let links = max(w.0, decimal(f.links as nat).len() as int);
        let user = max(w.1, text_len(f.user) as int);
        let group = max(w.2, text_len(f.group) as int);
        match f.size_or_device {
            SizeOrDevice::Size(size) => (
                links,
                user,
                group,
                max(w.3, decimal(size as nat).len() as int),
                w.4,
                w.5,
            ),
            SizeOrDevice::Device { major, minor } => (
                links,
                user,
                group,
                w.3,
                max(w.4, decimal(major as nat).len() as int),
                max(w.5, decimal(minor as nat).len() as int),
            ),
        }
    }
}

/// The width of the size column: the widest size, or the widest `major, minor`
/// pair (major width, a comma and a space, minor width), whichever is larger.
pub open spec fn size_column_width(w: (int, int, int, int, int, int)) -> int {
    max(w.3, w.4 + 2 + w.5)
}

/// The size column of one entry: a size right-aligned to the column, or
/// `major,` right-aligned to the major width plus one, a space, and the minor
/// number right-aligned to the minor width, all right-aligned to the column.
pub open spec fn size_field(sd: SizeOrDevice, w: (int, int, int, int, int, int)) -> Seq<char> {
    match sd {
        SizeOrDevice::Size(size) => pad_left(decimal(size as nat), size_column_width(w)),
        SizeOrDevice::Device { major, minor } => pad_left(
            pad_left(decimal(major as nat).push(','), w.4 + 1) + seq![' '] + pad_left(
                decimal(minor as nat),
                w.5,
            ),
            size_column_width(w),
        ),
    }
}

/// One row of the long format: permissions, link count right-aligned, owner and
/// group left-aligned, the size column, the time and the name, separated by
/// single spaces and ended by a newline.
pub open spec fn long_row(f: FileInfoView, w: (int, int, int, int, int, int)) -> Seq<char> {
    f.permissions + seq![' '] + pad_left(decimal(f.links as nat), w.0) + seq![' '] + pad_right(
        f.user,
        w.1,
    ) + seq![' '] + pad_right(f.group, w.2) + seq![' '] + size_field(f.size_or_device, w)
        + seq![' '] + f.modified_time + seq![' '] + f.name + seq!['\n']
}

/// The first `k` rows of the long format, aligned on the widths `w`.
pub open spec fn long_rows(infos: Seq<FileInfoView>, w: (int, int, int, int, int, int), k: int) -> Seq<
    char,
>
    decreases k,
{
    if k <= 0 {
        seq![]
    } else {
        long_rows(infos, w, k - 1) + long_row(infos[k - 1], w)
    }
}

/// The long format of the entries, without trailing whitespace at the end.
pub open spec fn long_text(infos: Seq<FileInfoView>) -> Seq<char> {
    trimmed_end(long_rows(infos, field_widths(infos), infos.len() as int))
}

/// The widest field of each column over the entries.
fn measure_fields(infos: &Vec<FileInfo>) -> (r: (u128, u128, u128, u128, u128, u128))
    ensures
        r.0 as int == field_widths(info_views(infos@)).0,
        r.0 <= usize::MAX,
        r.1 as int == field_widths(info_views(infos@)).1,
        r.1 <= usize::MAX,
        r.2 as int == field_widths(info_views(infos@)).2,
        r.2 <= usize::MAX,
        r.3 as int == field_widths(info_views(infos@)).3,
        r.3 <= usize::MAX,
        r.4 as int == field_widths(info_views(infos@)).4,
        r.4 <= usize::MAX,
        r.5 as int == field_widths(info_views(infos@)).5,
        r.5 <= usize::MAX,
{
    let mut w: (u128, u128, u128, u128, u128, u128) = (0, 0, 0, 0, 0, 0);
    let mut i: usize = 0;
    while i < infos.len()
        invariant
            i <= infos.len(),
            w.0 as int == field_widths(info_views(infos@).subrange(0, i as int)).0,
            w.0 <= usize::MAX,
            w.1 as int == field_widths(info_views(infos@).subrange(0, i as int)).1,
            w.1 <= usize::MAX,
            w.2 as int == field_widths(info_views(infos@).subrange(0, i as int)).2,
            w.2 <= usize::MAX,
            w.3 as int == field_widths(info_views(infos@).subrange(0, i as int)).3,
            w.3 <= usize::MAX,
            w.4 as int == field_widths(info_views(infos@).subrange(0, i as int)).4,
            w.4 <= usize::MAX,
            w.5 as int == field_widths(info_views(infos@).subrange(0, i as int)).5,
            w.5 <= usize::MAX,
        decreases infos.len() - i,
    {
        assert(info_views(infos@).subrange(0, i + 1).drop_last() =~= info_views(infos@).subrange(0, i as int));
        let f = &infos[i];
        let links = crate::text::decimal_text(f.links as u128).as_str().unicode_len() as u128;
        if links > w.0 {
            w.0 = links;
        }
        let user = f.user.as_str().len() as u128;
        if user > w.1 {
            w.1 = user;
        }
        let group = f.group.as_str().len() as u128;
        if group > w.2 {
            w.2 = group;
        }
        match f.size_or_device {
            SizeOrDevice::Size(size) => {
                let n = crate::text::decimal_text(size as u128).as_str().unicode_len() as u128;
                if n > w.3 {
                    w.3 = n;
                }
            },
            SizeOrDevice::Device { major, minor } => {
                let a = crate::text::decimal_text(major as u128).as_str().unicode_len() as u128;
                if a > w.4 {
                    w.4 = a;
                }
                let b = crate::text::decimal_text(minor as u128).as_str().unicode_len() as u128;
                if b > w.5 {
                    w.5 = b;
                }
            },
        }
        i = i + 1;
    }
    assert(info_views(infos@).subrange(0, infos.len() as int) =~= info_views(infos@));
    w
}

/// The widths as integers.
pub open spec fn as_ints(w: (u128, u128, u128, u128, u128, u128)) -> (int, int, int, int, int, int) {
    (w.0 as int, w.1 as int, w.2 as int, w.3 as int, w.4 as int, w.5 as int)
}

fn push_size_field(out: &mut String, sd: SizeOrDevice, w: (u128, u128, u128, u128, u128, u128), size_width: u128)
    requires
        w.4 <= usize::MAX,
        size_width as int == size_column_width(as_ints(w)),
    ensures
        final(out)@ == old(out)@ + size_field(sd, as_ints(w)),
{
    match sd {
        SizeOrDevice::Size(size) => {
            crate::text::push_padded_left(out, crate::text::decimal_text(size as u128).as_str(), size_width);
        },
        SizeOrDevice::Device { major, minor } => {
            let mut major_text = crate::text::decimal_text(major as u128);
            crate::text::push_char(&mut major_text, ',');
            let mut dev = String::new();
            crate::text::push_padded_left(&mut dev, major_text.as_str(), w.4 + 1);
            crate::text::push_char(&mut dev, ' ');
            crate::text::push_padded_left(&mut dev, crate::text::decimal_text(minor as u128).as_str(), w.5);
            assert(dev@ =~= pad_left(decimal(major as nat).push(','), w.4 + 1) + seq![' '] + pad_left(
                decimal(minor as nat),
                w.5 as int,
            ));
            crate::text::push_padded_left(out, dev.as_str(), size_width);
        },
    }
}

fn push_long_row(out: &mut String, f: &FileInfo, w: (u128, u128, u128, u128, u128, u128), size_width: u128)
    requires
        w.4 <= usize::MAX,
        size_width as int == size_column_width(as_ints(w)),
    ensures
        final(out)@ == old(out)@ + long_row(f@, as_ints(w)),
{
    out.append(f.permissions.as_str());
    crate::text::push_char(out, ' ');
    crate::text::push_padded_left(out, crate::text::decimal_text(f.links as u128).as_str(), w.0);
    crate::text::push_char(out, ' ');
    crate::text::push_padded_right(out, f.user.as_str(), w.1);
    crate::text::push_char(out, ' ');
    crate::text::push_padded_right(out, f.group.as_str(), w.2);
    crate::text::push_char(out, ' ');
    push_size_field(out, f.size_or_device, w, size_width);
    crate::text::push_char(out, ' ');
    out.append(f.modified_time.as_str());
    crate::text::push_char(out, ' ');
    out.append(f.name.as_str());
    crate::text::push_char(out, '\n');
    assert(final(out)@ =~= old(out)@ + long_row(f@, as_ints(w)));
}

/// Renders the entries in the long format, each column aligned over all of them.
pub fn format_long_columns(infos: Vec<FileInfo>) -> (r: String)
    ensures
        r@ == long_text(info_views(infos@)),
{
    let w = measure_fields(&infos);
    assert(as_ints(w) == field_widths(info_views(infos@)));
    let dev_width: u128 = w.4 + 2 + w.5;
    let size_width: u128 = if w.3 > dev_width {
        w.3
    } else {
        dev_width
    };
    let mut out = String::new();
    let mut i: usize = 0;
    while i < infos.len()
        invariant
            i <= infos.len(),
            as_ints(w) == field_widths(info_views(infos@)),
            w.4 <= usize::MAX,
            size_width as int == size_column_width(as_ints(w)),
            out@ == long_rows(info_views(infos@), as_ints(w), i as int),
        decreases infos.len() - i,
    {
        push_long_row(&mut out, &infos[i], w, size_width);
        i = i + 1;
    }
    crate::text::trim_end(&out)
}

} // verus!
