//! The listing command: from its arguments and what was found at each target
//! to the text it prints.
//!
//! The caller examines the file system between `plan_listing` and
//! `render_listing`: for each target it reports a directory (with its entries),
//! a file that is not a directory, or the reason the target could not be opened.

use vstd::prelude::*;
use crate::entry::{info_of, file_info, EntryStat};
use crate::flags::{filter_flags, has_flag, has_unknown_flag, path_args};
use crate::layout::{columns_text, format_columns};
use crate::long::{format_long_columns, long_text, FileInfo, FileInfoView, info_views};
use crate::order::{listing_order, name_rank, sort_entries};
use crate::text::{decimal, push_char, views};

verus! {

/// What the listing command was asked for: the targets in the order given
/// (`.` where none was), and its three flags.
pub struct ListRequest {
    pub targets: Vec<String>,
    pub show_hidden: bool,
    pub long_format: bool,
    pub classify: bool,
}

/// What was found at one target.
pub enum TargetScan {
    /// A directory: the entries of the directory itself (named `.`) and of its
    /// parent (named `..`) where they could be examined, and those of its
    /// children that could.
    Directory { this: Option<EntryStat>, parent: Option<EntryStat>, children: Vec<EntryStat> },
    /// A file that is not a directory, with its entry where it could be examined.
    NotDirectory(Option<EntryStat>),
    /// A target that could not be opened, with the reason the system gave.
    Failed(String),
}

/// The targets of a listing: the paths among the arguments, or `.` where there is none.
pub open spec fn targets_of(args: Seq<String>) -> Seq<Seq<char>> {
    if path_args(args).len() == 0 {
        seq![seq!['.']]
    } else {
        path_args(args)
    }
}

/// Reads the arguments of the listing command; `None` when a flag argument
/// carries an unknown letter, whatever else the arguments hold.
pub fn plan_listing(args: Vec<String>) -> (r: Option<ListRequest>)
    ensures
        r is None <==> has_unknown_flag(args@),
        r matches Some(req) ==> {
            &&& views(req.targets@) == targets_of(args@)
            &&& req.show_hidden == has_flag(args@, 'a')
            &&& req.long_format == has_flag(args@, 'l')
            &&& req.classify == has_flag(args@, 'F')
        },
{
    let ghost all = args@;
    match filter_flags(args) {
        None => None,
        Some((dirs, show_hidden, long_format, classify)) => {
            let mut targets = dirs;
            if targets.len() == 0 {
                let mut dot = String::new();
                push_char(&mut dot, '.');
                targets.push(dot);
                assert(views(targets@) =~= seq![seq!['.']]);
            }
            Some(ListRequest { targets, show_hidden, long_format, classify })
        },
    }
}

/// The text printed when a flag is not known.
pub open spec fn invalid_flag_text() -> Seq<char> {
    seq!['l', 's', ':', ' ', 'i', 'n', 'v', 'a', 'l', 'i', 'd', ' ', 'f', 'l', 'a', 'g', '\n']
}

/// The text printed when a flag is not known: `ls: invalid flag` and nothing else.
pub fn invalid_flag_report() -> (r: String)
    ensures
        r@ == invalid_flag_text(),
{
    let mut r = String::new();
    r.append("ls: invalid flag");
    push_char(&mut r, '\n');
    proof {
        reveal_strlit("ls: invalid flag");
    }
    assert(r@ =~= invalid_flag_text());
    r
}

/// Whether a name is hidden: it starts with `.`.
pub open spec fn is_hidden(name: Seq<char>) -> bool {
    name.len() > 0 && name[0] == '.'
}

/// The children that are shown: all of them with `show_hidden`, the ones that
/// are not hidden otherwise.
pub open spec fn visible_children(children: Seq<EntryStat>, show_hidden: bool) -> Seq<EntryStat>
    decreases children.len(),
{
    if children.len() == 0 {
        seq![]
    } else {
        let rest = visible_children(children.drop_last(), show_hidden);
        if show_hidden || !is_hidden(children.last().name@) {
            rest.push(children.last())
        } else {
            rest
        }
    }
}

/// The entries of an optional entry.
pub open spec fn opt_seq(e: Option<EntryStat>) -> Seq<EntryStat> {
    match e {
        Some(x) => seq![x],
        None => seq![],
    }
}

/// The entries a directory listing shows, before sorting: with `show_hidden`,
/// `.` and `..` and all children; otherwise the children that are not hidden.
pub open spec fn directory_candidates(
    this: Option<EntryStat>,
    parent: Option<EntryStat>,
    children: Seq<EntryStat>,
    show_hidden: bool,
) -> Seq<EntryStat> {
    (if show_hidden {
        opt_seq(this) + opt_seq(parent)
    } else {
        seq![]
    }) + visible_children(children, show_hidden)
}

proof fn lemma_visible_children(children: Seq<EntryStat>, show_hidden: bool)
    ensures
        forall|i: int|
            0 <= i < visible_children(children, show_hidden).len() ==> (show_hidden || !is_hidden(
                #[trigger] visible_children(children, show_hidden)[i].name@,
            )),
    decreases children.len(),
{
    if children.len() > 0 {
        lemma_visible_children(children.drop_last(), show_hidden);
    }
}

/// The entries of a directory in listing order. Hidden entries are left out
/// unless `show_hidden` is set; with it, the entries of `.` and `..` are
/// there, and no entry stands before `.` or, but for `.`, before `..`.
pub fn visible_entries(
    this: Option<EntryStat>,
    parent: Option<EntryStat>,
    children: Vec<EntryStat>,
    show_hidden: bool,
) -> (r: Vec<EntryStat>)
    ensures
        r@ == listing_order(directory_candidates(this, parent, children@, show_hidden)),
        r@.to_multiset() == directory_candidates(this, parent, children@, show_hidden).to_multiset(),
        show_hidden ==> (this matches Some(e) ==> r@.contains(e)),
        show_hidden ==> (parent matches Some(e) ==> r@.contains(e)),
        !show_hidden ==> forall|i: int| 0 <= i < r.len() ==> !is_hidden(#[trigger] r[i].name@),
        forall|i: int, j: int|
            0 <= i < j < r.len() ==> name_rank(r[i].name@) <= name_rank(r[j].name@),
{
    broadcast use vstd::seq_lib::group_to_multiset_ensures;

    let ghost this_g = this;
    let ghost parent_g = parent;
    let ghost dots = if show_hidden {
        opt_seq(this) + opt_seq(parent)
    } else {
        seq![]
    };
    let mut candidates: Vec<EntryStat> = Vec::new();
    if show_hidden {
        match this {
            Some(e) => candidates.push(e),
            None => {},
        }
        match parent {
            Some(e) => candidates.push(e),
            None => {},
        }
    }
    assert(candidates@ =~= dots);
    let mut rest = children;
    let ghost all = rest@;
    let n = rest.len();
    let mut i: usize = 0;
    while i < n
        invariant
            n == all.len(),
            i <= n,
            rest@ == all.subrange(i as int, n as int),
            candidates@ == dots + visible_children(all.subrange(0, i as int), show_hidden),
        decreases n - i,
    {
        let ghost before = rest@;
        let c = rest.remove(0);
        assert(rest@ =~= all.subrange(i + 1, n as int));
        assert(all.subrange(0, i + 1).drop_last() =~= all.subrange(0, i as int));
        assert(c == all[i as int]);
        let hidden = c.name.as_str().unicode_len() > 0 && c.name.as_str().get_char(0) == '.';
        if show_hidden || !hidden {
            candidates.push(c);
            assert(candidates@ =~= dots + visible_children(all.subrange(0, i + 1), show_hidden));
        }
        i = i + 1;
    }
    assert(all.subrange(0, n as int) =~= all);
    let ghost cand = candidates@;
    let r = sort_entries(candidates);
    proof {
        if show_hidden {
            if let Some(e) = this_g {
                assert(cand[0] == e);
                assert(cand.to_multiset().count(e) > 0);
                assert(r@.to_multiset().count(e) > 0);
            }
            if let Some(e) = parent_g {
                let k = if this_g is Some { 1int } else { 0int };
                assert(cand[k] == e);
                assert(cand.to_multiset().count(e) > 0);
                assert(r@.to_multiset().count(e) > 0);
            }
        } else {
            lemma_visible_children(all, show_hidden);
            assert forall|i: int| 0 <= i < r.len() implies !is_hidden(#[trigger] r[i].name@) by {
                assert(r@.to_multiset().count(r[i]) > 0);
                assert(cand.to_multiset().count(r[i]) > 0);
                assert(cand.contains(r[i]));
            }
        }
        assert forall|i: int, j: int| 0 <= i < j < r.len() implies name_rank(r[i].name@)
            <= name_rank(r[j].name@) by {
            assert(!crate::order::name_lt(r[j].name@, r[i].name@));
        }
    }
    r
}

/// The records of the entries whose modification time could be rendered, in order.
pub open spec fn rendered(
    es: Seq<EntryStat>,
    classify: bool,
    long_format: bool,
    zone: Seq<char>,
    now: int,
) -> Seq<FileInfoView>
    decreases es.len(),
{
    if es.len() == 0 {
        seq![]
    } else {
        let rest = rendered(es.drop_last(), classify, long_format, zone, now);
        match info_of(es.last(), classify, long_format, zone, now) {
            Some(f) => rest.push(f),
            None => rest,
        }
    }
}

/// The allocated blocks of the rendered entries, summed over those whose count is known.
pub open spec fn block_sum(
    es: Seq<EntryStat>,
    classify: bool,
    long_format: bool,
    zone: Seq<char>,
    now: int,
) -> nat
    decreases es.len(),
{
    if es.len() == 0 {
        0
    } else {
        let rest = block_sum(es.drop_last(), classify, long_format, zone, now);
        match (info_of(es.last(), classify, long_format, zone, now), es.last().blocks) {
            (Some(_), Some(b)) => rest + b as nat,
            _ => rest,
        }
    }
}

/// The name columns of the records.
pub open spec fn info_names(infos: Seq<FileInfoView>) -> Seq<Seq<char>> {
    infos.map_values(|f: FileInfoView| f.name)
}

/// The first line of a long listing of a directory: `total` and half the sum of
/// its 512-byte blocks, that is the number of 1024-byte blocks.
pub open spec fn total_line(blocks: nat) -> Seq<char> {
    "total "@ + decimal(blocks / 2)
}

/// What a directory contributes to the listing: in the long format the total
/// line and the rows of its entries, otherwise the grid of their names.
pub open spec fn directory_parts(
    this: Option<EntryStat>,
    parent: Option<EntryStat>,
    children: Seq<EntryStat>,
    req: ListRequest,
    width: int,
    zone: Seq<char>,
    now: int,
) -> Seq<Seq<char>> {
    let es = listing_order(directory_candidates(this, parent, children, req.show_hidden));
    let infos = rendered(es, req.classify, req.long_format, zone, now);
    if req.long_format {
        seq![total_line(block_sum(es, req.classify, req.long_format, zone, now)), long_text(infos)]
    } else {
        seq![columns_text(info_names(infos), width)]
    }
}

/// Renders the entries whose modification time can be rendered, and sums their blocks.
fn render_entries(es: &Vec<EntryStat>, classify: bool, long_format: bool, zone: &str, now: i64) -> (r:
    (Vec<FileInfo>, u128))
    ensures
        info_views(r.0@) == rendered(es@, classify, long_format, zone@, now as int),
        r.1 as nat == block_sum(es@, classify, long_format, zone@, now as int),
{
    let mut infos: Vec<FileInfo> = Vec::new();
    let mut blocks: u128 = 0;
    let mut i: usize = 0;
    while i < es.len()
        invariant
            i <= es.len(),
            info_views(infos@) == rendered(es@.subrange(0, i as int), classify, long_format, zone@, now as int),
            blocks as nat == block_sum(es@.subrange(0, i as int), classify, long_format, zone@, now as int),
            blocks <= i * 0xffff_ffff_ffff_ffffu64,
        decreases es.len() - i,
    {
        assert(es@.subrange(0, i + 1).drop_last() =~= es@.subrange(0, i as int));
        match file_info(&es[i], classify, long_format, zone, now) {
            Some(f) => {
                infos.push(f);
                assert(info_views(infos@) =~= info_views(infos@.drop_last()).push(infos@.last()@));
                match es[i].blocks {
                    Some(b) => {
                        assert(blocks + b <= (i + 1) * 0xffff_ffff_ffff_ffffu64) by (nonlinear_arith)
                            requires
                                blocks <= i * 0xffff_ffff_ffff_ffffu64,
                                b <= 0xffff_ffff_ffff_ffffu64,
                        ;
                        assert((i + 1) * 0xffff_ffff_ffff_ffffu64 <= 0xffff_ffff_ffff_ffff_ffff_ffff_ffff_ffffu128) by (nonlinear_arith)
                            requires
                                i < 0xffff_ffff_ffff_ffffu64,
                        ;
                        blocks = blocks + b as u128;
                    },
                    None => {
                        assert(blocks <= (i + 1) * 0xffff_ffff_ffff_ffffu64) by (nonlinear_arith)
                            requires
                                blocks <= i * 0xffff_ffff_ffff_ffffu64,
                        ;
                    },
                }
            },
            None => {
                assert(blocks <= (i + 1) * 0xffff_ffff_ffff_ffffu64) by (nonlinear_arith)
                    requires
                        blocks <= i * 0xffff_ffff_ffff_ffffu64,
                ;
            },
        }
        i = i + 1;
    }
    assert(es@.subrange(0, es.len() as int) =~= es@);
    (infos, blocks)
}

/// The name columns of the records.
fn names_of(infos: &Vec<FileInfo>) -> (r: Vec<String>)
    ensures
        views(r@) == info_names(info_views(infos@)),
{
    let mut r: Vec<String> = Vec::new();
    let mut i: usize = 0;
    while i < infos.len()
        invariant
            i <= infos.len(),
            views(r@) == info_names(info_views(infos@)).subrange(0, i as int),
        decreases infos.len() - i,
    {
        let ghost before = r@;
        let name = infos[i].name.clone();
        assert(name@ == info_names(info_views(infos@))[i as int]);
        r.push(name);
        assert(views(r@) =~= views(before).push(name@));
        i = i + 1;
        assert(views(r@) =~= info_names(info_views(infos@)).subrange(0, i as int));
    }
    assert(info_names(info_views(infos@)).subrange(0, i as int) =~= info_names(info_views(infos@)));
    r
}

/// The total line for a count of 512-byte blocks.
pub fn format_total(blocks: u128) -> (r: String)
    ensures
        r@ == total_line(blocks as nat),
{
    let mut r = String::new();
    r.append("total ");
    let n = crate::text::decimal_text(blocks / 2);
    r.append(n.as_str());
    r
}

/// What a directory contributes to the listing.
pub fn directory_section(
    this: Option<EntryStat>,
    parent: Option<EntryStat>,
    children: Vec<EntryStat>,
    req: &ListRequest,
    width: usize,
    zone: &str,
    now: i64,
) -> (r: Vec<String>)
    ensures
        views(r@) == directory_parts(this, parent, children@, *req, width as int, zone@, now as int),
{
    let es = visible_entries(this, parent, children, req.show_hidden);
    let (infos, blocks) = render_entries(&es, req.classify, req.long_format, zone, now);
    let mut r: Vec<String> = Vec::new();
    if req.long_format {
        r.push(format_total(blocks));
        r.push(format_long_columns(infos));
        assert(views(r@) =~= directory_parts(this, parent, children@, *req, width as int, zone@, now as int));
    } else {
        let names = names_of(&infos);
        r.push(format_columns(names, width));
        assert(views(r@) =~= directory_parts(this, parent, children@, *req, width as int, zone@, now as int));
    }
    r
}

/// The line reported for a target that could not be opened.
pub open spec fn error_line(target: Seq<char>, reason: Seq<char>) -> Seq<char> {
    "ls: cannot access '"@ + target + "': "@ + reason
}

/// The header of a directory's section when several targets were given: the
/// path and a colon, after a blank line unless it is the first header.
pub open spec fn header_line(target: Seq<char>, first: bool) -> Seq<char> {
    if first {
        target + seq![':']
    } else {
        seq!['\n'] + target + seq![':']
    }
}

/// What one target adds to the state: an error line, a file, or the parts of
/// a directory's section, after a header where several targets were given.
pub open spec fn scan_step(
    st: (Seq<Seq<char>>, Seq<EntryStat>, Seq<Seq<char>>, bool),
    target: Seq<char>,
    scan: TargetScan,
    several: bool,
    req: ListRequest,
    width: int,
    zone: Seq<char>,
    now: int,
) -> (Seq<Seq<char>>, Seq<EntryStat>, Seq<Seq<char>>, bool) {
    match scan {
        TargetScan::Failed(reason) => (st.0.push(error_line(target, reason@)), st.1, st.2, st.3),
        TargetScan::NotDirectory(Some(e)) => (st.0, st.1.push(e), st.2, st.3),
        TargetScan::NotDirectory(None) => st,
        TargetScan::Directory { this, parent, children } => {
            let parts = if several {
                st.2.push(header_line(target, !st.3))
            } else {
                st.2
            };
            (
                st.0,
                st.1,
                parts + directory_parts(this, parent, children@, req, width, zone, now),
                st.3 || several,
            )
        },
    }
}

/// What the first `k` targets gave: the error lines, the entries of the files
/// that are not directories, the parts of the directory sections, and whether
/// a header was written.
pub open spec fn scan_state(
    req: ListRequest,
    scans: Seq<TargetScan>,
    k: int,
    width: int,
    zone: Seq<char>,
    now: int,
) -> (Seq<Seq<char>>, Seq<EntryStat>, Seq<Seq<char>>, bool)
    decreases k,
{
    if k <= 0 {
        (seq![], seq![], seq![], false)
    } else {
        scan_step(
            scan_state(req, scans, k - 1, width, zone, now),
            req.targets@[k - 1]@,
            scans[k - 1],
            req.targets.len() != 1,
            req,
            width,
            zone,
            now,
        )
    }
}

/// What each file that is not a directory shows, in listing order: its row
/// of the long format, aligned on itself alone, or its name.
pub open spec fn file_parts(
    files: Seq<EntryStat>,
    req: ListRequest,
    width: int,
    zone: Seq<char>,
    now: int,
) -> Seq<Seq<char>> {
    rendered(listing_order(files), req.classify, req.long_format, zone, now).map_values(
        |f: FileInfoView|
            if req.long_format {
                long_text(seq![f])
            } else {
                columns_text(seq![f.name], width)
            },
    )
}

/// The parts joined by `sep`.
pub open spec fn joined(parts: Seq<Seq<char>>, sep: Seq<char>) -> Seq<char>
    decreases parts.len(),
{
    if parts.len() == 0 {
        seq![]
    } else if parts.len() == 1 {
        parts[0]
    } else {
        joined(parts.drop_last(), sep) + sep + parts.last()
    }
}

/// The parts that are not empty, each on lines of its own.
pub open spec fn printed(parts: Seq<Seq<char>>) -> Seq<char>
    decreases parts.len(),
{
    if parts.len() == 0 {
        seq![]
    } else if parts.last().len() > 0 {
        printed(parts.drop_last()) + parts.last() + seq!['\n']
    } else {
        printed(parts.drop_last())
    }
}

/// The text the listing prints: first all error lines; then the files that are
/// not directories, side by side (one per line in the long format); a blank
/// line where both files and directory sections follow; then the sections.
pub open spec fn listing_report(
    req: ListRequest,
    scans: Seq<TargetScan>,
    width: int,
    zone: Seq<char>,
    now: int,
) -> Seq<char> {
    let st = scan_state(req, scans, scans.len() as int, width, zone, now);
    let files = file_parts(st.1, req, width, zone, now);
    let sections = printed(st.2);
    (if st.0.len() > 0 {
        joined(st.0, seq!['\n']) + seq!['\n']
    } else {
        seq![]
    }) + (if files.len() > 0 {
        joined(
            files,
            if req.long_format {
                seq!['\n']
            } else {
                seq![' ']
            },
        ) + seq!['\n']
    } else {
        seq![]
    }) + (if sections.len() > 0 && files.len() > 0 {
        seq!['\n']
    } else {
        seq![]
    }) + sections
}

/// The parts joined by `sep`.
fn join_parts(parts: &Vec<String>, sep: char) -> (r: String)
    ensures
        r@ == joined(views(parts@), seq![sep]),
{
    let mut r = String::new();
    let mut i: usize = 0;
    while i < parts.len()
        invariant
            i <= parts.len(),
            r@ == joined(views(parts@).subrange(0, i as int), seq![sep]),
        decreases parts.len() - i,
    {
        assert(views(parts@).subrange(0, i + 1).drop_last() =~= views(parts@).subrange(0, i as int));
        if i > 0 {
            push_char(&mut r, sep);
        }
        r.append(parts[i].as_str());
        i = i + 1;
        assert(r@ =~= joined(views(parts@).subrange(0, i as int), seq![sep]));
    }
    assert(views(parts@).subrange(0, i as int) =~= views(parts@));
    r
}

/// Appends the parts that are not empty, each followed by a newline.
fn push_printed(out: &mut String, parts: &Vec<String>)
    ensures
        final(out)@ == old(out)@ + printed(views(parts@)),
{
    let mut i: usize = 0;
    while i < parts.len()
        invariant
            i <= parts.len(),
            out@ == old(out)@ + printed(views(parts@).subrange(0, i as int)),
        decreases parts.len() - i,
    {
        assert(views(parts@).subrange(0, i + 1).drop_last() =~= views(parts@).subrange(0, i as int));
        if parts[i].as_str().unicode_len() > 0 {
            out.append(parts[i].as_str());
            push_char(out, '\n');
        }
        i = i + 1;
        assert(out@ =~= old(out)@ + printed(views(parts@).subrange(0, i as int)));
    }
    assert(views(parts@).subrange(0, i as int) =~= views(parts@));
}

/// The text of each file that is not a directory.
fn render_files(files: Vec<EntryStat>, req: &ListRequest, width: usize, zone: &str, now: i64) -> (r:
    Vec<String>)
    ensures
        views(r@) == file_parts(files@, *req, width as int, zone@, now as int),
{
    let sorted = sort_entries(files);
    let (infos, _) = render_entries(&sorted, req.classify, req.long_format, zone, now);
    let ghost iv = info_views(infos@);
    let mut rest = infos;
    let mut r: Vec<String> = Vec::new();
    let n = rest.len();
    let mut i: usize = 0;
    while i < n
        invariant
            i <= n == iv.len(),
            rest.len() == n - i,
            info_views(rest@) == iv.subrange(i as int, n as int),
            views(r@) == file_parts(files@, *req, width as int, zone@, now as int).subrange(0, i as int),
            iv == rendered(listing_order(files@), req.classify, req.long_format, zone@, now as int),
        decreases n - i,
    {
        assert(info_views(rest@)[0] == rest@[0]@);
        let ghost r0 = rest@;
        let f = rest.remove(0);
        assert(f@ == iv[i as int]);
        assert forall|j: int| 0 <= j < rest.len() implies info_views(rest@)[j] == iv[i + 1 + j] by {
            assert(rest@[j] == r0[j + 1]);
            assert(info_views(r0)[j + 1] == iv[i + 1 + j]);
        }
        assert(info_views(rest@) =~= iv.subrange(i + 1, n as int));
        let text = if req.long_format {
            let mut one: Vec<FileInfo> = Vec::new();
            one.push(f);
            assert(info_views(one@) =~= seq![iv[i as int]]);
            format_long_columns(one)
        } else {
            let mut one: Vec<String> = Vec::new();
            one.push(f.name);
            assert(views(one@) =~= seq![iv[i as int].name]);
            format_columns(one, width)
        };
        let ghost before = r@;
        r.push(text);
        assert(views(r@) =~= views(before).push(text@));
        i = i + 1;
        assert(views(r@) =~= file_parts(files@, *req, width as int, zone@, now as int).subrange(0, i as int));
    }
    assert(file_parts(files@, *req, width as int, zone@, now as int).subrange(0, n as int) =~= file_parts(files@, *req, width as int, zone@, now as int));
    r
}

/// Adds what one target gave to the listing's state.
fn take_scan(
    errors: &mut Vec<String>,
    files: &mut Vec<EntryStat>,
    parts: &mut Vec<String>,
    headed: &mut bool,
    scan: TargetScan,
    target: &String,
    several: bool,
    req: &ListRequest,
    width: usize,
    zone: &str,
    now: i64,
)
    ensures
        (views(final(errors)@), final(files)@, views(final(parts)@), *final(headed)) == scan_step(
            (views(old(errors)@), old(files)@, views(old(parts)@), *old(headed)),
            target@,
            scan,
            several,
            *req,
            width as int,
            zone@,
            now as int,
        ),
{
    match scan {
        TargetScan::Failed(reason) => {
            let mut line = String::new();
            line.append("ls: cannot access '");
            line.append(target.as_str());
            line.append("': ");
            line.append(reason.as_str());
            assert(line@ =~= error_line(target@, reason@));
            let ghost before = errors@;
            errors.push(line);
            assert(views(errors@) =~= views(before).push(line@));
        },
        TargetScan::NotDirectory(found) => {
            match found {
                Some(e) => files.push(e),
                None => {},
            }
        },
        TargetScan::Directory { this, parent, children } => {
            if several {
                let mut header = String::new();
                if *headed {
                    push_char(&mut header, '\n');
                }
                header.append(target.as_str());
                push_char(&mut header, ':');
                assert(header@ =~= header_line(target@, !*old(headed)));
                let ghost before = parts@;
                parts.push(header);
                assert(views(parts@) =~= views(before).push(header@));
                *headed = true;
            }
            let mut section = directory_section(this, parent, children, req, width, zone, now);
            let ghost before = parts@;
            let ghost sv = section@;
            parts.append(&mut section);
            assert(views(parts@) =~= views(before) + views(sv));
        },
    }
}

/// The text of the listing, from what was found at each target (`scans[i]` at
/// `req.targets[i]`), for a terminal of `width` columns, times in the zone
/// named `zone`, and `now` in seconds since the Unix epoch.
pub fn render_listing(req: &ListRequest, scans: Vec<TargetScan>, width: usize, zone: &str, now: i64) -> (r:
    String)
    requires
        scans.len() == req.targets.len(),
    ensures
        r@ == listing_report(*req, scans@, width as int, zone@, now as int),
{
    let ghost all = scans@;
    let n = scans.len();
    let mut rest = scans;
    let mut errors: Vec<String> = Vec::new();
    let mut files: Vec<EntryStat> = Vec::new();
    let mut parts: Vec<String> = Vec::new();
    let mut headed = false;
    let several = req.targets.len() != 1;
    let mut i: usize = 0;
    while i < n
        invariant
            n == all.len() == req.targets.len(),
            several == (req.targets.len() != 1),
            i <= n,
            rest@ == all.subrange(i as int, n as int),
            views(errors@) == scan_state(*req, all, i as int, width as int, zone@, now as int).0,
            files@ == scan_state(*req, all, i as int, width as int, zone@, now as int).1,
            views(parts@) == scan_state(*req, all, i as int, width as int, zone@, now as int).2,
            headed == scan_state(*req, all, i as int, width as int, zone@, now as int).3,
        decreases n - i,
    {
        let scan = rest.remove(0);
        assert(rest@ =~= all.subrange(i + 1, n as int));
        assert(scan == all[i as int]);
        take_scan(&mut errors, &mut files, &mut parts, &mut headed, scan, &req.targets[i], several, req, width, zone, now);
        i = i + 1;
    }
    assert(all.subrange(0, n as int) =~= all);
    let file_texts = render_files(files, req, width, zone, now);
    let mut out = String::new();
    if errors.len() > 0 {
        out = join_parts(&errors, '\n');
        push_char(&mut out, '\n');
    }
    let ghost after_errors = out@;
    if file_texts.len() > 0 {
        let joined_files = join_parts(&file_texts, if req.long_format { '\n' } else { ' ' });
        out.append(joined_files.as_str());
        push_char(&mut out, '\n');
    }
    let ghost after_files = out@;
    let mut sections = String::new();
    push_printed(&mut sections, &parts);
    if sections.as_str().unicode_len() > 0 && file_texts.len() > 0 {
        push_char(&mut out, '\n');
    }
    out.append(sections.as_str());
    assert(out@ =~= listing_report(*req, all, width as int, zone@, now as int));
    out
}

} // verus!
