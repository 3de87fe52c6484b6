//! The multi-column grid of the short listing format.
//!
//! Entries fill the grid column by column; a candidate column count `c` gives
//! `rows = ceil(n / c)` rows, entry `i` standing in column `i / rows` and row
//! `i % rows`. The widest grid that fits the terminal is chosen.

use vstd::prelude::*;
use crate::text::{push_spaces, repeat, trim_end, trimmed_end, views};

verus! {

/// The length of a text in bytes, as `str::len` reports it.
pub open spec fn text_len(s: Seq<char>) -> nat {
    (vstd::utf8::encode_utf8(s).len() as usize) as nat
}

/// The byte lengths of the items.
pub open spec fn widths(items: Seq<Seq<char>>) -> Seq<int> {
    items.map_values(|s: Seq<char>| text_len(s) as int)
}

/// The number of rows of a grid of `n` entries in `c` columns: `ceil(n / c)`.
pub open spec fn rows_for(n: int, c: int) -> int {
    if n % c == 0 {
        n / c
    } else {
        n / c + 1
    }
}

/// The widest of the first `k` widths that stand in column `col` of a grid of `rows` rows
/// (zero for none).
pub open spec fn col_max(ws: Seq<int>, rows: int, col: int, k: int) -> int
    decreases k,
{
    if k <= 0 {
        0
    } else {
        let m = col_max(ws, rows, col, k - 1);
        if (k - 1) / rows == col && ws[k - 1] > m {
            ws[k - 1]
        } else {
            m
        }
    }
}

/// The width of column `col` when the widths `ws` are laid out in `c` columns.
pub open spec fn column_width(ws: Seq<int>, c: int, col: int) -> int {
    col_max(ws, rows_for(ws.len() as int, c), col, ws.len() as int)
}

/// The width of the first `k` columns of a `c`-column grid, with a two-space
/// gutter between neighbouring columns.
pub open spec fn span_width(ws: Seq<int>, c: int, k: int) -> int
    decreases k,
{
    if k <= 0 {
        0
    } else {
        span_width(ws, c, k - 1) + column_width(ws, c, k - 1) + if k > 1 {
            2int
        } else {
            0int
        }
    }
}

/// The total width of a `c`-column grid: its column widths plus `2 * (c - 1)`.
pub open spec fn grid_width(ws: Seq<int>, c: int) -> int {
    span_width(ws, c, c)
}

/// Whether a `c`-column grid fits in `width`.
pub open spec fn fits(ws: Seq<int>, c: int, width: int) -> bool {
    grid_width(ws, c) <= width
}

/// The largest column count not above `c` whose grid fits, or 1.
pub open spec fn best_from(ws: Seq<int>, width: int, c: int) -> int
    decreases c,
{
    if c <= 1 {
        1
    } else if fits(ws, c, width) {
        c
    } else {
        best_from(ws, width, c - 1)
    }
}

/// The column count chosen for the widths `ws` in a terminal of `width` columns.
pub open spec fn column_count_of(ws: Seq<int>, width: int) -> int {
    best_from(ws, width, ws.len() as int)
}

proof fn lemma_col_max_nonneg(ws: Seq<int>, rows: int, col: int, k: int)
    requires
        forall|i: int| 0 <= i < ws.len() ==> ws[i] >= 0,
        k <= ws.len(),
    ensures
        col_max(ws, rows, col, k) >= 0,
    decreases k,
{
    if k > 0 {
        lemma_col_max_nonneg(ws, rows, col, k - 1);
    }
}

proof fn lemma_col_max_bound(ws: Seq<int>, rows: int, i: int, k: int)
    requires
        0 <= i < k <= ws.len(),
    ensures
        col_max(ws, rows, i / rows, k) >= ws[i],
    decreases k,
{
    if i < k - 1 {
        lemma_col_max_bound(ws, rows, i, k - 1);
    }
}

proof fn lemma_span_monotone(ws: Seq<int>, c: int, k: int, k2: int)
    requires
        forall|i: int| 0 <= i < ws.len() ==> ws[i] >= 0,
        0 <= k <= k2,
    ensures
        span_width(ws, c, k) <= span_width(ws, c, k2),
    decreases k2 - k,
{
    if k < k2 {
        lemma_span_monotone(ws, c, k, k2 - 1);
        lemma_col_max_nonneg(ws, rows_for(ws.len() as int, c), k2 - 1, ws.len() as int);
    }
}

proof fn lemma_rows_bounds(n: int, c: int)
    requires
        1 <= c <= n,
    ensures
        1 <= rows_for(n, c) <= n,
        n <= c * rows_for(n, c),
        forall|i: int| 0 <= i < n ==> 0 <= #[trigger] (i / rows_for(n, c)) < c,
{
    let rows = rows_for(n, c);
    assert(n == c * (n / c) + n % c) by (nonlinear_arith)
        requires
            c >= 1,
    ;
    assert(n / c <= n) by (nonlinear_arith)
        requires
            1 <= c <= n,
    ;
    assert(n / c >= 1) by (nonlinear_arith)
        requires
            1 <= c <= n,
    ;
    assert(0 <= n % c < c);
    if n % c != 0 {
        assert(n / c < n) by (nonlinear_arith)
            requires
                1 <= c <= n,
                n % c != 0,
                n == c * (n / c) + n % c,
        ;
    }
    assert(n <= c * rows) by (nonlinear_arith)
        requires
            n == c * (n / c) + n % c,
            0 <= n % c < c,
            rows == if n % c == 0 {
                n / c
            } else {
                n / c + 1
            },
    ;
    assert forall|i: int| 0 <= i < n implies 0 <= #[trigger] (i / rows) < c by {
        assert(0 <= i / rows < c) by (nonlinear_arith)
            requires
                0 <= i < n,
                n <= c * rows,
                rows >= 1,
        ;
    }
}

/// The byte length of each item.
fn item_widths(items: &Vec<String>) -> (r: Vec<usize>)
    ensures
        r.len() == items.len(),
        forall|i: int| 0 <= i < r.len() ==> r[i] as int == widths(views(items@))[i],
{
    let mut r: Vec<usize> = Vec::new();
    let mut i: usize = 0;
    while i < items.len()
        invariant
            i <= items.len(),
            r.len() == i,
            forall|k: int| 0 <= k < i ==> r[k] as int == widths(views(items@))[k],
        decreases items.len() - i,
    {
        let w = items[i].as_str().len();
        r.push(w);
        i = i + 1;
    }
    r
}

/// The width of each column when the widths `ws` are laid out in `c` columns.
fn column_widths(ws: &Vec<usize>, c: usize) -> (r: Vec<usize>)
    requires
        1 <= c <= ws.len(),
    ensures
        r.len() == c,
        forall|col: int|
            0 <= col < c ==> r[col] as int == column_width(
                ws@.map_values(|w: usize| w as int),
                c as int,
                col,
            ),
{
    let ghost wi = ws@.map_values(|w: usize| w as int);
    let n = ws.len();
    proof {
        lemma_rows_bounds(n as int, c as int);
    }
    let rows: usize = if n % c == 0 {
        n / c
    } else {
        n / c + 1
    };
    let mut r: Vec<usize> = Vec::new();
    let mut k: usize = 0;
    while k < c
        invariant
            k <= c,
            r.len() == k,
            forall|j: int| 0 <= j < k ==> r[j] == 0,
        decreases c - k,
    {
        r.push(0);
        k = k + 1;
    }
    let mut i: usize = 0;
    while i < n
        invariant
            n == ws.len(),
            1 <= c <= n,
            rows == rows_for(n as int, c as int),
            rows >= 1,
            forall|j: int| 0 <= j < n ==> 0 <= #[trigger] (j / rows as int) < c,
            i <= n,
            r.len() == c,
            wi == ws@.map_values(|w: usize| w as int),
            forall|col: int| 0 <= col < c ==> r[col] as int == col_max(wi, rows as int, col, i as int),
        decreases n - i,
    {
        let col = i / rows;
        assert(col as int == (i as int) / (rows as int));
        assert(col < c);
        if ws[i] > r[col] {
            r.set(col, ws[i]);
        }
        i = i + 1;
        assert forall|cc: int| 0 <= cc < c implies r[cc] as int == col_max(
            wi,
            rows as int,
            cc,
            i as int,
        ) by {
            assert(wi[i - 1] == ws[i - 1] as int);
        }
    }
    r
}

/// Whether the grid of the widths `ws` in `c` columns fits in `width`.
fn grid_fits(ws: &Vec<usize>, c: usize, width: usize) -> (r: bool)
    requires
        1 <= c <= ws.len(),
    ensures
        r == fits(ws@.map_values(|w: usize| w as int), c as int, width as int),
{
    let ghost wi = ws@.map_values(|w: usize| w as int);
    let cw = column_widths(ws, c);
    let mut total: u128 = 0;
    let mut k: usize = 0;
    while k < c
        invariant
            1 <= c <= ws.len(),
            k <= c,
            cw.len() == c,
            wi == ws@.map_values(|w: usize| w as int),
            forall|col: int| 0 <= col < c ==> cw[col] as int == column_width(wi, c as int, col),
            total as int == span_width(wi, c as int, k as int),
            total <= width,
        decreases c - k,
    {
        total = total + cw[k] as u128;
        if k > 0 {
            total = total + 2;
        }
        k = k + 1;
        if total > width as u128 {
            proof {
                lemma_span_monotone(wi, c as int, k as int, c as int);
            }
            return false;
        }
    }
    true
}

/// The number of columns for the items in a terminal of `width` columns: the
/// largest `c` in `1..=n` whose grid width, the column widths plus
/// `2 * (c - 1)`, does not exceed `width`; 1 when none does.
pub fn column_count(items: &Vec<String>, width: usize) -> (r: usize)
    requires
        items.len() >= 1,
    ensures
        r as int == column_count_of(widths(views(items@)), width as int),
        1 <= r <= items.len(),
        r > 1 ==> fits(widths(views(items@)), r as int, width as int),
        forall|c: int| r < c <= items.len() ==> !fits(widths(views(items@)), c, width as int),
{
    let ws = item_widths(items);
    assert(ws@.map_values(|w: usize| w as int) =~= widths(views(items@)));
    let mut c: usize = items.len();
    loop
        invariant
            1 <= c <= items.len(),
            ws.len() == items.len(),
            ws@.map_values(|w: usize| w as int) == widths(views(items@)),
            column_count_of(widths(views(items@)), width as int) == best_from(
                widths(views(items@)),
                width as int,
                c as int,
            ),
            forall|c2: int| c < c2 <= items.len() ==> !fits(widths(views(items@)), c2, width as int),
        decreases c,
    {
        if c <= 1 {
            return 1;
        }
        if grid_fits(&ws, c, width) {
            return c;
        }
        c = c - 1;
    }
}

/// The cell of entry `i` in a `c`-column grid: the entry, followed, unless it
/// stands in the last column, by padding to its column's width and a two-space gutter.
pub open spec fn cell_text(items: Seq<Seq<char>>, c: int, i: int) -> Seq<char> {
    let ws = widths(items);
    let col = i / rows_for(items.len() as int, c);
    if col < c - 1 {
        items[i] + repeat(' ', (column_width(ws, c, col) - ws[i] + 2) as nat)
    } else {
        items[i]
    }
}

/// The cells of entries `i`, `i + rows`, `i + 2 * rows`, ... : the rest of a grid row.
pub open spec fn row_text(items: Seq<Seq<char>>, c: int, i: int) -> Seq<char>
    decreases items.len() - i,
{
    let rows = rows_for(items.len() as int, c);
    if i < 0 || i >= items.len() || rows < 1 {
        seq![]
    } else if i + rows < items.len() {
        cell_text(items, c, i) + row_text(items, c, i + rows)
    } else {
        cell_text(items, c, i)
    }
}

/// The first `r` rows of a `c`-column grid, each ended by a newline.
pub open spec fn grid_lines(items: Seq<Seq<char>>, c: int, r: int) -> Seq<char>
    decreases r,
{
    if r <= 0 {
        seq![]
    } else {
        grid_lines(items, c, r - 1) + row_text(items, c, r - 1) + seq!['\n']
    }
}

/// The short listing of the items in a terminal of `width` columns: the rows of
/// the chosen grid, without trailing whitespace at the end; empty for no items.
pub open spec fn columns_text(items: Seq<Seq<char>>, width: int) -> Seq<char> {
    if items.len() == 0 {
        seq![]
    } else {
        let c = column_count_of(widths(items), width);
        trimmed_end(grid_lines(items, c, rows_for(items.len() as int, c)))
    }
}

/// Lays the items out in the widest grid that fits a terminal of `width`
/// columns, filling it column by column and writing it row by row.
pub fn format_columns(items: Vec<String>, width: usize) -> (r: String)
    ensures
        r@ == columns_text(views(items@), width as int),
{
    if items.len() == 0 {
        return String::new();
    }
    let c = column_count(&items, width);
    let ws = item_widths(&items);
    assert(ws@.map_values(|w: usize| w as int) =~= widths(views(items@)));
    let cw = column_widths(&ws, c);
    let n = items.len();
    proof {
        lemma_rows_bounds(n as int, c as int);
    }
    let rows: usize = if n % c == 0 {
        n / c
    } else {
        n / c + 1
    };
    let ghost wi = widths(views(items@));
    let mut out = String::new();
    let mut row: usize = 0;
    while row < rows
        invariant
            n == items.len(),
            ws.len() == n,
            1 <= c <= n,
            rows == rows_for(n as int, c as int),
            1 <= rows <= n,
            forall|j: int| 0 <= j < n ==> 0 <= #[trigger] (j / rows as int) < c,
            forall|j: int| 0 <= j < n ==> ws[j] as int == wi[j],
            wi == widths(views(items@)),
            cw.len() == c,
            forall|col: int| 0 <= col < c ==> cw[col] as int == column_width(wi, c as int, col),
            row <= rows,
            out@ == grid_lines(views(items@), c as int, row as int),
        decreases rows - row,
    {
        let ghost base = out@;
        let mut i: usize = row;
        loop
            invariant_except_break
                out@ + row_text(views(items@), c as int, i as int) == base + row_text(
                    views(items@),
                    c as int,
                    row as int,
                ),
            invariant
                n == items.len(),
                ws.len() == n,
                1 <= c <= n,
                rows == rows_for(n as int, c as int),
                1 <= rows <= n,
                forall|j: int| 0 <= j < n ==> 0 <= #[trigger] (j / rows as int) < c,
                forall|j: int| 0 <= j < n ==> ws[j] as int == wi[j],
                wi == widths(views(items@)),
                cw.len() == c,
                forall|col: int| 0 <= col < c ==> cw[col] as int == column_width(wi, c as int, col),
                row < rows,
                i < n,
            ensures
                out@ == base + row_text(views(items@), c as int, row as int),
            decreases n - i,
        {
            let ghost before = out@;
            out.append(items[i].as_str());
            let col = i / rows;
            assert(col as int == (i as int) / (rows as int));
            if col < c - 1 {
                proof {
                    lemma_col_max_bound(wi, rows as int, i as int, n as int);
                }
                push_spaces(&mut out, (cw[col] - ws[i]) as u128);
                push_spaces(&mut out, 2);
                assert(repeat(' ', (cw[col as int] - ws[i as int]) as nat) + repeat(' ', 2) =~= repeat(
                    ' ',
                    (column_width(wi, c as int, col as int) - wi[i as int] + 2) as nat,
                ));
            }
            assert(out@ =~= before + cell_text(views(items@), c as int, i as int));
            if n - i > rows {
                i = i + rows;
            } else {
                assert(out@ =~= base + row_text(views(items@), c as int, row as int));
                break;
            }
        }
        crate::text::push_char(&mut out, '\n');
        row = row + 1;
    }
    trim_end(&out)
}

} // verus!
