//! `attendance_daily_report`: the A4 daily attendance report, built on the
//! A4 kernel. The first page carries the summary card and the table header;
//! a row that would cross the table's bottom limit opens a new page that
//! repeats the title and the table header.

use vstd::prelude::*;

use crate::plan::{
    copy_text, metadata_copied, pages_drawn, pages_sized, DocumentPlan, Family, Metadata, OpView,
    Page,
};
use crate::protocol::{AttendanceDailyPayload, ColumnSpec, ErrorCode, TableCell};
use crate::render::a4::{
    background_ops,
    build_columns,
    cell_views,
    column_layout,
    column_views,
    columns_in_layout,
    draw_background,
    draw_empty_state,
    draw_summary,
    draw_table_header,
    draw_table_row,
    draw_title,
    empty_state_ops,
    header_ops,
    page_settings,
    row_height,
    row_height_spec,
    row_ops,
    summary_card_height,
    summary_ops,
    summary_top,
    title_ops,
    width_sum,
    CellView,
    Column,
    ColumnView,
    PreparedCell,
    CONTENT_W,
    CONTINUATION_TABLE_TOP_Y,
    PAGE_H,
    PAGE_W,
    TABLE_BOTTOM_Y,
    TABLE_FONT_SIZE,
    TABLE_HEADER_HEIGHT,
};
use crate::strings::{decimal, decimal_seq, digit_char, join3, push_char};
use crate::text::{strs, wrap, wrap_lines, FontPair, Fonts, MeasuredFont};

verus! {

/// Horizontal room a cell's text leaves inside its column.
pub const CELL_PADDING: i128 = 12000;

/// What an empty cell shows.
pub open spec fn fallback() -> Seq<char> {
    "—"@
}

/// The lines of a cell: its text wrapped to the column less its padding,
/// or the fallback when the text has no words.
pub open spec fn cell_lines_spec(font: Seq<u8>, text: Seq<char>, column_width: int) -> Seq<
    Seq<char>,
> {
    let lines = wrap_lines(font, TABLE_FONT_SIZE as nat, column_width - CELL_PADDING, text);
    if lines.len() == 0 {
        seq![fallback()]
    } else {
        lines
    }
}

/// Wraps a cell's text for its column; empty text gives the fallback line.
pub fn wrapped_cell(text: &str, font: &MeasuredFont, column_width: i128) -> (lines: Vec<String>)
    requires
        -0x100_0000_0000_0000_0000_0000_0000_0000 <= column_width <= 0x100_0000_0000_0000_0000_0000_0000_0000,
    ensures
        strs(lines@) == cell_lines_spec(font@, text@, column_width as int),
{
    let lines = wrap(text, font, TABLE_FONT_SIZE, column_width - CELL_PADDING);
    if lines.len() == 0 {
        let mut only: Vec<String> = Vec::new();
        only.push(String::from_str("—"));
        proof {
            assert(strs(only@) =~= seq![fallback()]);
        }
        only
    } else {
        lines
    }
}

// ---------- validation ----------

/// `n / m` rounded to the nearest whole number, ties to the even one.
pub open spec fn round_half_even(n: nat, m: nat) -> nat {
    let f = n / m;
    let r = n % m;
    if 2 * r < m {
        f
    } else if 2 * r > m {
        f + 1
    } else if f % 2 == 0 {
        f
    } else {
        f + 1
    }
}

/// 2^52 × 1000: a number of millipoints at or above it is at least 2^52 points.
pub open spec fn mantissa_low() -> nat {
    0x10_0000_0000_0000 * 1000
}

/// `num` and `scale` doubled together until `num` reaches `mantissa_low()`.
pub open spec fn scale_up(num: nat, scale: nat) -> (nat, nat)
    decreases (if num < mantissa_low() {
        mantissa_low() - num
    } else {
        0
    }),
{
    if 0 < num && num < mantissa_low() {
        scale_up(2 * num, 2 * scale)
    } else {
        (num, scale)
    }
}

/// `den` and `scale` doubled together while `t / den` is at least 2^53.
pub open spec fn scale_down(t: nat, den: nat, scale: nat) -> (nat, nat)
    decreases (if den <= t {
        t - den
    } else {
        0
    }),
{
    if 0 < den && t >= 0x20_0000_0000_0000 * den {
        scale_down(t, 2 * den, 2 * scale)
    } else {
        (den, scale)
    }
}

/// The hundredths of a point in the `f64` nearest to `t` millipoints, the
/// way `{:.2}` prints that `f64`: the value is first rounded to a 53-bit
/// mantissa (ties to even), and the binary value then to the nearest
/// hundredth (ties to even).
pub open spec fn f64_hundredths(t: nat) -> nat {
    if t < mantissa_low() {
        let (num, scale) = scale_up(t, 1);
        round_half_even(round_half_even(num, 1000) * 100, scale)
    } else {
        let (den, scale) = scale_down(t, 1000, 1);
        round_half_even(t, den) * 100 * scale
    }
}

/// `t` millipoints as `{:.2}` prints the `f64` nearest to them in points.
pub open spec fn points_2dp(t: nat) -> Seq<char> {
    let c = f64_hundredths(t);
    decimal_seq(c / 100) + seq!['.', digit_char((c % 100) / 10), digit_char(c % 10)]
}

/// Index of the first of the first `k` rows whose cell count differs from
/// `ncols`.
pub open spec fn first_ragged_row(rows: Seq<Vec<TableCell>>, ncols: int, k: int) -> Option<int>
    decreases k,
{
    if k <= 0 {
        None
    } else {
        match first_ragged_row(rows, ncols, k - 1) {
            Some(r) => Some(r),
            None => if rows[k - 1]@.len() != ncols {
                Some(k - 1)
            } else {
                None
            },
        }
    }
}

/// Why an attendance payload is refused, if it is.
pub open spec fn attendance_problem(p: AttendanceDailyPayload) -> Option<Seq<char>> {
    let ncols = p.columns@.len() as int;
    let total = width_sum(p.columns@, ncols);
    if ncols == 0 {
        Some("columns no puede estar vacío"@)
    } else if p.summary@.len() == 0 {
        Some("summary no puede estar vacío"@)
    } else if total >= CONTENT_W + 10 {
        Some(
            "la suma de anchos de columns ("@ + points_2dp(total as nat)
                + ") excede el ancho útil (499.28)"@,
        )
    } else if first_ragged_row(p.rows@, ncols, p.rows@.len() as int) is Some {
        let r = first_ragged_row(p.rows@, ncols, p.rows@.len() as int)->0;
        Some(
            "rows["@ + decimal_seq(r as nat) + "] tiene "@ + decimal_seq(p.rows@[r]@.len())
                + " celdas, columns declara "@ + decimal_seq(ncols as nat),
        )
    } else if p.rows@.len() == 0 && p.empty is None {
        Some("rows vacío requiere empty (estado vacío)"@)
    } else {
        None
    }
}

fn round_half_even_exec(n: u128, m: u128) -> (r: u128)
    requires
        m > 0,
        n < 0x8000_0000_0000_0000_0000_0000_0000_0000,
    ensures
        r == round_half_even(n as nat, m as nat),
        r <= n / m + 1,
{
    let f = n / m;
    let r = n % m;
    proof {
        assert(f <= n) by (nonlinear_arith)
            requires
                m > 0,
                f == n / m,
        ;
    }
    if r < m - r {
        f
    } else if r > m - r {
        f + 1
    } else if f % 2 == 0 {
        f
    } else {
        f + 1
    }
}

proof fn lemma_div_at_least(t: nat, den: nat, k: nat)
    requires
        den > 0,
    ensures
        (t / den >= k) == (t >= k * den),
{
    vstd::arithmetic::div_mod::lemma_fundamental_div_mod(t as int, den as int);
    let q = t / den;
    let r = t % den;
    assert(t == den * q + r);
    assert(0 <= r < den);
    if q >= k {
        assert(t >= k * den) by (nonlinear_arith)
            requires
                q >= k,
                t == den * q + r,
                r >= 0,
                den > 0,
        ;
    } else {
        assert(t < k * den) by (nonlinear_arith)
            requires
                q + 1 <= k,
                t == den * q + r,
                r < den,
                den > 0,
        ;
    }
}

/// Hundredths of a point in the `f64` nearest to `t` millipoints.
fn f64_hundredths_exec(t: u128) -> (c: u128)
    requires
        t <= 0x1_0000_0000_0000_0000_0000_0000,
    ensures
        c == f64_hundredths(t as nat),
{
    let low: u128 = 0x10_0000_0000_0000 * 1000;
    if t < low {
        let mut num: u128 = t;
        let mut scale: u128 = 1;
        while 0 < num && num < low
            invariant
                low == mantissa_low(),
                num < 2 * mantissa_low(),
                scale >= 1,
                scale <= num || (num == 0 && scale == 1),
                scale_up(num as nat, scale as nat) == scale_up(t as nat, 1),
            decreases 2 * mantissa_low() - num,
        {
            num = 2 * num;
            scale = 2 * scale;
        }
        let q = round_half_even_exec(num, 1000);
        round_half_even_exec(q * 100, scale)
    } else {
        let mut den: u128 = 1000;
        let mut scale: u128 = 1;
        proof {
            lemma_div_at_least(t as nat, den as nat, 0x20_0000_0000_0000);
        }
        while t / den >= 0x20_0000_0000_0000
            invariant
                t <= 0x1_0000_0000_0000_0000_0000_0000,
                den == 1000 * scale,
                1000 <= den <= t,
                (t / den >= 0x20_0000_0000_0000) == (t >= 0x20_0000_0000_0000 * den),
                scale_down(t as nat, den as nat, scale as nat) == scale_down(t as nat, 1000, 1),
            decreases t - den,
        {
            den = 2 * den;
            scale = 2 * scale;
            proof {
                lemma_div_at_least(t as nat, den as nat, 0x20_0000_0000_0000);
            }
        }
        let q = round_half_even_exec(t, den);
        proof {
            vstd::arithmetic::div_mod::lemma_fundamental_div_mod(t as int, den as int);
            let f = t / den;
            assert(f * den <= t) by (nonlinear_arith)
                requires
                    t == den * f + t % den,
                    t % den >= 0,
            ;
            assert(q * den <= t + den) by (nonlinear_arith)
                requires
                    q <= f + 1,
                    f * den <= t,
                    den > 0,
            ;
            assert(q * scale * 1000 == q * den) by (nonlinear_arith)
                requires
                    den == 1000 * scale,
            ;
            assert(q * 100 * scale <= 2 * t) by (nonlinear_arith)
                requires
                    q * scale * 1000 <= 2 * t,
            ;
        }
        q * 100 * scale
    }
}

fn points_text(t: u128) -> (s: String)
    requires
        t <= 0x1_0000_0000_0000_0000_0000_0000,
    ensures
        s@ == points_2dp(t as nat),
{
    let c = f64_hundredths_exec(t);
    let mut s = decimal(c / 100);
    push_char(&mut s, '.');
    let tens = (c % 100) / 10;
    let ones = c % 10;
    push_char(&mut s, decimal_digit(tens));
    push_char(&mut s, decimal_digit(ones));
    s
}

fn decimal_digit(d: u128) -> (c: char)
    requires
        d < 10,
    ensures
        c == digit_char(d as nat),
{
    let s = decimal(d);
    proof {
        assert(decimal_seq(d as nat) == seq![digit_char(d as nat)]);
    }
    s.as_str().get_char(0)
}

proof fn lemma_first_ragged_stable(rows: Seq<Vec<TableCell>>, ncols: int, k: int, k2: int)
    requires
        0 <= k <= k2,
        first_ragged_row(rows, ncols, k) is Some,
    ensures
        first_ragged_row(rows, ncols, k2) == first_ragged_row(rows, ncols, k),
    decreases k2,
{
    if k2 > k {
        lemma_first_ragged_stable(rows, ncols, k, k2 - 1);
    }
}

proof fn lemma_width_sum_range(specs: Seq<ColumnSpec>, k: int)
    requires
        0 <= k <= specs.len(),
    ensures
        -k * 0x8000_0000 <= width_sum(specs, k) <= k * 0x7fff_ffff,
    decreases k,
{
    if k > 0 {
        lemma_width_sum_range(specs, k - 1);
    }
}

/// Checks an attendance payload against the report's rules.
pub fn validate(payload: &AttendanceDailyPayload) -> (r: Result<(), String>)
    ensures
        r is Ok <==> attendance_problem(*payload) is None,
        r matches Err(m) ==> attendance_problem(*payload) == Some(m@),
{
    let ncols = payload.columns.len();
    if ncols == 0 {
        return Err(String::from_str("columns no puede estar vacío"));
    }
    if payload.summary.len() == 0 {
        return Err(String::from_str("summary no puede estar vacío"));
    }
    let mut total: i128 = 0;
    for i in 0..ncols
        invariant
            ncols == payload.columns@.len(),
            total == width_sum(payload.columns@, i as int),
    {
        proof {
            lemma_width_sum_range(payload.columns@, i as int);
            assert(i * 0x7fff_ffff <= 0x1_0000_0000_0000_0000 * 0x7fff_ffff) by (nonlinear_arith)
                requires
                    0 <= i <= 0x1_0000_0000_0000_0000,
            ;
            assert(i * 0x8000_0000 <= 0x1_0000_0000_0000_0000 * 0x8000_0000) by (nonlinear_arith)
                requires
                    0 <= i <= 0x1_0000_0000_0000_0000,
            ;
        }
        total = total + payload.columns[i].width as i128;
    }
    if total >= CONTENT_W + 10 {
        proof {
            lemma_width_sum_range(payload.columns@, ncols as int);
            assert(ncols * 0x7fff_ffff <= 0x1_0000_0000_0000_0000 * 0x7fff_ffff) by (
            nonlinear_arith)
                requires
                    0 <= ncols <= 0x1_0000_0000_0000_0000,
            ;
        }
        let amount = points_text(total as u128);
        return Err(
            join3(
                "la suma de anchos de columns (",
                amount.as_str(),
                ") excede el ancho útil (499.28)",
            ),
        );
    }
    let nrows = payload.rows.len();
    let mut index: usize = 0;
    while index < nrows
        invariant
            nrows == payload.rows@.len(),
            ncols == payload.columns@.len(),
            ncols > 0,
            payload.summary@.len() > 0,
            width_sum(payload.columns@, ncols as int) < CONTENT_W + 10,
            index <= nrows,
            first_ragged_row(payload.rows@, ncols as int, index as int) is None,
        decreases nrows - index,
    {
        let cells = payload.rows[index].len();
        if cells != ncols {
            proof {
                lemma_first_ragged_stable(payload.rows@, ncols as int, index + 1, nrows as int);
            }
            let a = decimal(index as u128);
            let b = decimal(cells as u128);
            let c = decimal(ncols as u128);
            let head = join3("rows[", a.as_str(), "] tiene ");
            let mid = join3(head.as_str(), b.as_str(), " celdas, columns declara ");
            let mut message = mid;
            message.append(c.as_str());
            return Err(message);
        }
        index = index + 1;
    }
    if nrows == 0 && payload.empty.is_none() {
        return Err(String::from_str("rows vacío requiere empty (estado vacío)"));
    }
    Ok(())
}

// ---------- layout ----------

/// The prepared cells of one table row: each cell wrapped for its column
/// (cells beyond the last column are dropped).
pub open spec fn table_cells(
    regular: Seq<u8>,
    bold: Seq<u8>,
    cols: Seq<ColumnView>,
    row: Seq<TableCell>,
) -> Seq<CellView> {
    Seq::new(
        if row.len() < cols.len() {
            row.len()
        } else {
            cols.len()
        },
        |i: int|
            CellView {
                lines: cell_lines_spec(
                    if row[i].bold {
                        bold
                    } else {
                        regular
                    },
                    row[i].text@,
                    cols[i].width,
                ),
                bold: row[i].bold,
                color: row[i].color,
            },
    )
}

/// Prepares the cells of one row for drawing.
pub fn prepare_row(cells: &Vec<TableCell>, columns: &Vec<Column>, fonts: &FontPair) -> (r: Vec<
    PreparedCell,
>)
    requires
        columns_in_layout(column_views(columns@)),
    ensures
        cell_views(r@) == table_cells(fonts.regular@, fonts.bold@, column_views(columns@), cells@),
{
    let ghost want = table_cells(fonts.regular@, fonts.bold@, column_views(columns@), cells@);
    let n = if cells.len() < columns.len() {
        cells.len()
    } else {
        columns.len()
    };
    let mut out: Vec<PreparedCell> = Vec::new();
    for i in 0..n
        invariant
            n <= cells@.len(),
            n <= columns@.len(),
            n == want.len(),
            columns_in_layout(column_views(columns@)),
            want == table_cells(fonts.regular@, fonts.bold@, column_views(columns@), cells@),
            cell_views(out@) == want.take(i as int),
    {
        let cell = &cells[i];
        proof {
            assert(crate::render::a4::column_in_layout(column_views(columns@)[i as int]));
        }
        let font = fonts.pick(cell.bold);
        let lines = wrapped_cell(cell.text.as_str(), font, columns[i].width);
        let prepared = PreparedCell { lines, bold: cell.bold, color: cell.color };
        proof {
            assert(cell_views(out@.push(prepared)) =~= cell_views(out@).push(prepared@));
            assert(want.take(i + 1) =~= want.take(i as int).push(want[i as int]));
        }
        out.push(prepared);
    }
    proof {
        assert(want.take(n as int) =~= want);
    }
    out
}

/// Where the first page's table header goes: 14 pt under the summary card.
pub open spec fn first_header_top(
    regular: Seq<u8>,
    bold: Seq<u8>,
    p: AttendanceDailyPayload,
) -> int {
    summary_top(regular, bold, p.title@, p.subtitle@) - summary_card_height(p.summary@.len() as int)
        - 14000
}

/// The first page before any row: background, summary and table header.
pub open spec fn first_head(
    family: Family,
    regular: Seq<u8>,
    bold: Seq<u8>,
    p: AttendanceDailyPayload,
    letterhead: bool,
) -> Seq<OpView> {
    background_ops(letterhead) + summary_ops(
        family,
        regular,
        bold,
        p.title@,
        p.subtitle@,
        p.summary@,
    ) + header_ops(family, bold, column_layout(p.columns@), first_header_top(regular, bold, p))
}

/// A continuation page before any row: background, the title at 14 pt
/// with its underline, and the table header repeated.
pub open spec fn continuation_head(
    family: Family,
    bold: Seq<u8>,
    p: AttendanceDailyPayload,
    letterhead: bool,
) -> Seq<OpView> {
    background_ops(letterhead) + title_ops(family, bold, p.title@, 14000, 78000) + header_ops(
        family,
        bold,
        column_layout(p.columns@),
        CONTINUATION_TABLE_TOP_Y as int,
    )
}

/// Layout state after a number of rows: the finished pages, the page
/// being filled, and the y where the next row's top edge goes.
pub struct Flow {
    pub done: Seq<Seq<OpView>>,
    pub page: Seq<OpView>,
    pub cursor: int,
}

/// Height of row `k` of the report.
pub open spec fn report_row_height(
    regular: Seq<u8>,
    bold: Seq<u8>,
    p: AttendanceDailyPayload,
    k: int,
) -> int {
    row_height_spec(table_cells(regular, bold, column_layout(p.columns@), p.rows@[k]@))
}

/// The layout after the first `k` rows. A row goes under the previous one
/// unless its bottom would fall below the table's bottom limit; then the
/// page is finished and the row opens a continuation page.
pub open spec fn flow(
    family: Family,
    regular: Seq<u8>,
    bold: Seq<u8>,
    p: AttendanceDailyPayload,
    letterhead: bool,
    k: int,
) -> Flow
    decreases k,
{
    if k <= 0 {
        Flow {
            done: seq![],
            page: first_head(family, regular, bold, p, letterhead),
            cursor: first_header_top(regular, bold, p) - TABLE_HEADER_HEIGHT,
        }
    } else {
        let f = flow(family, regular, bold, p, letterhead, k - 1);
        let cells = table_cells(regular, bold, column_layout(p.columns@), p.rows@[k - 1]@);
        let h = row_height_spec(cells);
        if f.cursor - h < TABLE_BOTTOM_Y {
            let top = CONTINUATION_TABLE_TOP_Y - TABLE_HEADER_HEIGHT;
            Flow {
                done: f.done.push(f.page),
                page: continuation_head(family, bold, p, letterhead) + row_ops(
                    family,
                    column_layout(p.columns@),
                    cells,
                    top,
                    k - 1,
                ),
                cursor: top - h,
            }
        } else {
            Flow {
                done: f.done,
                page: f.page + row_ops(family, column_layout(p.columns@), cells, f.cursor, k - 1),
                cursor: f.cursor - h,
            }
        }
    }
}

/// The pages of the report: with no rows, the first page closed by the
/// empty state; otherwise every page of the flow after the last row.
pub open spec fn report_pages(
    family: Family,
    regular: Seq<u8>,
    bold: Seq<u8>,
    p: AttendanceDailyPayload,
    letterhead: bool,
) -> Seq<Seq<OpView>> {
    if p.rows@.len() == 0 {
        seq![
            first_head(family, regular, bold, p, letterhead) + empty_state_ops(
                family,
                regular,
                bold,
                first_header_top(regular, bold, p) - TABLE_HEADER_HEIGHT,
                p.empty->0.title@,
                p.empty->0.subtitle@,
            ),
        ]
    } else {
        let f = flow(family, regular, bold, p, letterhead, p.rows@.len() as int);
        f.done.push(f.page)
    }
}

/// `page` begins with the operations `head`.
pub open spec fn starts_with(page: Seq<OpView>, head: Seq<OpView>) -> bool {
    page.len() >= head.len() && page.take(head.len() as int) == head
}

proof fn lemma_starts_append(a: Seq<OpView>, b: Seq<OpView>, head: Seq<OpView>)
    requires
        starts_with(a, head),
    ensures
        starts_with(a + b, head),
{
    assert((a + b).take(head.len() as int) =~= a.take(head.len() as int));
}

proof fn lemma_flow_headed(
    family: Family,
    regular: Seq<u8>,
    bold: Seq<u8>,
    p: AttendanceDailyPayload,
    letterhead: bool,
    k: int,
)
    requires
        0 <= k <= p.rows@.len(),
    ensures
        ({
            let f = flow(family, regular, bold, p, letterhead, k);
            let first = first_head(family, regular, bold, p, letterhead);
            let cont = continuation_head(family, bold, p, letterhead);
            &&& f.done.len() == 0 ==> starts_with(f.page, first)
            &&& f.done.len() > 0 ==> starts_with(f.done[0], first) && starts_with(f.page, cont)
            &&& forall|i: int| 1 <= i < f.done.len() ==> starts_with(#[trigger] f.done[i], cont)
        }),
    decreases k,
{
    let first = first_head(family, regular, bold, p, letterhead);
    let cont = continuation_head(family, bold, p, letterhead);
    if k == 0 {
        assert(first.take(first.len() as int) =~= first);
    } else {
        lemma_flow_headed(family, regular, bold, p, letterhead, k - 1);
        let f = flow(family, regular, bold, p, letterhead, k - 1);
        let cells = table_cells(regular, bold, column_layout(p.columns@), p.rows@[k - 1]@);
        let h = row_height_spec(cells);
        if f.cursor - h < TABLE_BOTTOM_Y {
            let rows = row_ops(
                family,
                column_layout(p.columns@),
                cells,
                CONTINUATION_TABLE_TOP_Y - TABLE_HEADER_HEIGHT,
                k - 1,
            );
            assert(cont.take(cont.len() as int) =~= cont);
            lemma_starts_append(cont, rows, cont);
            let g = flow(family, regular, bold, p, letterhead, k);
            assert forall|i: int| 1 <= i < g.done.len() implies starts_with(
                #[trigger] g.done[i],
                cont,
            ) by {
                if i < f.done.len() {
                    assert(g.done[i] == f.done[i]);
                } else {
                    assert(g.done[i] == f.page);
                }
            }
            if f.done.len() == 0 {
                assert(g.done[0] == f.page);
            } else {
                assert(g.done[0] == f.done[0]);
            }
        } else {
            let rows = row_ops(family, column_layout(p.columns@), cells, f.cursor, k - 1);
            if f.done.len() == 0 {
                lemma_starts_append(f.page, rows, first);
            } else {
                lemma_starts_append(f.page, rows, cont);
            }
        }
    }
}

/// Pages are headed: the report has at least one page; the first begins
/// with the background, the summary card and the table header; every
/// later page begins with the background, the title and the table header
/// again.
pub proof fn lemma_report_pages_headed(
    family: Family,
    regular: Seq<u8>,
    bold: Seq<u8>,
    p: AttendanceDailyPayload,
    letterhead: bool,
)
    ensures
        ({
            let pages = report_pages(family, regular, bold, p, letterhead);
            &&& pages.len() >= 1
            &&& starts_with(pages[0], first_head(family, regular, bold, p, letterhead))
            &&& forall|i: int|
                1 <= i < pages.len() ==> starts_with(
                    #[trigger] pages[i],
                    continuation_head(family, bold, p, letterhead),
                )
        }),
{
    let first = first_head(family, regular, bold, p, letterhead);
    let cont = continuation_head(family, bold, p, letterhead);
    let pages = report_pages(family, regular, bold, p, letterhead);
    if p.rows@.len() == 0 {
        assert(first.take(first.len() as int) =~= first);
        lemma_starts_append(
            first,
            empty_state_ops(
                family,
                regular,
                bold,
                first_header_top(regular, bold, p) - TABLE_HEADER_HEIGHT,
                p.empty->0.title@,
                p.empty->0.subtitle@,
            ),
            first,
        );
    } else {
        let n = p.rows@.len() as int;
        lemma_flow_headed(family, regular, bold, p, letterhead, n);
        let f = flow(family, regular, bold, p, letterhead, n);
        assert forall|i: int| 1 <= i < pages.len() implies starts_with(#[trigger] pages[i], cont) by {
            if i < f.done.len() {
                assert(pages[i] == f.done[i]);
            } else {
                assert(pages[i] == f.page);
            }
        }
        if f.done.len() == 0 {
            assert(pages[0] == f.page);
        } else {
            assert(pages[0] == f.done[0]);
        }
    }
}

/// Pagination repeats the table header: in a rendered report, the first
/// page begins with the page background, the summary card and the table
/// header 14 pt under the card, and every later page begins with the page
/// background, the title at 14 pt with its underline, and the table header
/// (shaded band, accent rule, column separators and the bold column labels
/// centred in their columns) with its top at 712 pt, before any row.
pub proof fn lemma_rendered_pages_headed(
    payload: AttendanceDailyPayload,
    fonts: Fonts,
    letterhead: bool,
    r: Result<DocumentPlan, (ErrorCode, String)>,
)
    requires
        attendance_rendered(payload, fonts, letterhead, r),
    ensures
        r matches Ok(plan) ==> {
            let family = fonts.sans.family;
            let regular = fonts.sans.regular@;
            let bold = fonts.sans.bold@;
            let pages = pages_drawn(plan.pages@);
            let columns = column_layout(payload.columns@);
            let first = background_ops(letterhead) + summary_ops(
                family,
                regular,
                bold,
                payload.title@,
                payload.subtitle@,
                payload.summary@,
            ) + header_ops(
                family,
                bold,
                columns,
                summary_top(regular, bold, payload.title@, payload.subtitle@) - summary_card_height(
                    payload.summary@.len() as int,
                ) - 14000,
            );
            let later = background_ops(letterhead) + title_ops(
                family,
                bold,
                payload.title@,
                14000,
                78000,
            ) + header_ops(family, bold, columns, 712000);
            &&& pages.len() >= 1
            &&& pages[0].len() >= first.len()
            &&& pages[0].take(first.len() as int) == first
            &&& forall|i: int|
                1 <= i < pages.len() ==> (#[trigger] pages[i]).len() >= later.len() && pages[i].take(
                    later.len() as int,
                ) == later
        },
{
    if let Ok(plan) = r {
        let family = fonts.sans.family;
        let regular = fonts.sans.regular@;
        let bold = fonts.sans.bold@;
        lemma_report_pages_headed(family, regular, bold, payload, letterhead);
    }
}

/// Room for rows on a continuation page, between the repeated header and
/// the table's bottom limit.
pub open spec fn continuation_room() -> int {
    CONTINUATION_TABLE_TOP_Y - TABLE_HEADER_HEIGHT - TABLE_BOTTOM_Y
}

/// Rows never cross the bottom limit: when no row is taller than a
/// continuation page's room, every row ends at or above the table's
/// bottom limit.
pub proof fn lemma_rows_above_bottom(
    family: Family,
    regular: Seq<u8>,
    bold: Seq<u8>,
    p: AttendanceDailyPayload,
    letterhead: bool,
    k: int,
)
    requires
        1 <= k <= p.rows@.len(),
        forall|j: int|
            0 <= j < p.rows@.len() ==> #[trigger] report_row_height(regular, bold, p, j)
                <= continuation_room(),
    ensures
        flow(family, regular, bold, p, letterhead, k).cursor >= TABLE_BOTTOM_Y,
{
    assert(report_row_height(regular, bold, p, k - 1) <= continuation_room());
}

/// What rendering the report gives: the validation error as an invalid
/// payload, or A4 pages drawing `report_pages` with the payload's metadata.
pub open spec fn attendance_rendered(
    payload: AttendanceDailyPayload,
    fonts: Fonts,
    letterhead: bool,
    r: Result<DocumentPlan, (ErrorCode, String)>,
) -> bool {
    &&& (r is Err <==> attendance_problem(payload) is Some)
    &&& (r matches Err(e) ==> e.0 == ErrorCode::PayloadInvalid && attendance_problem(payload)
        == Some(e.1@))
    &&& (r matches Ok(plan) ==> {
        &&& pages_sized(plan.pages@, PAGE_W as int, PAGE_H as int)
        &&& pages_drawn(plan.pages@) == report_pages(
            fonts.sans.family,
            fonts.sans.regular@,
            fonts.sans.bold@,
            payload,
            letterhead,
        )
        &&& metadata_copied(
            plan.metadata,
            payload.meta_title,
            payload.meta_author,
            payload.meta_subject,
        )
    })
}

/// Plans the daily attendance report; `letterhead` tells whether the
/// letterhead image is available for the page background.
pub fn render(payload: &AttendanceDailyPayload, fonts: &Fonts, letterhead: bool) -> (r: Result<
    DocumentPlan,
    (ErrorCode, String),
>)
    ensures
        attendance_rendered(*payload, *fonts, letterhead, r),
{
    match validate(payload) {
        Err(m) => {
            return Err((ErrorCode::PayloadInvalid, m));
        },
        Ok(()) => {},
    }
    let columns = build_columns(&payload.columns);
    let sans = &fonts.sans;
    let ghost family = sans.family;
    let ghost regular = sans.regular@;
    let ghost bold = sans.bold@;
    let metadata = Metadata {
        title: copy_text(&payload.meta_title),
        author: copy_text(&payload.meta_author),
        subject: copy_text(&payload.meta_subject),
    };
    let mut pages: Vec<Page> = Vec::new();
    let mut page = page_settings();
    draw_background(&mut page, letterhead);
    let summary_bottom = draw_summary(
        &mut page,
        payload.title.as_str(),
        payload.subtitle.as_str(),
        payload.summary.as_slice(),
        sans,
    );
    let mut cursor = draw_table_header(&mut page, columns.as_slice(), summary_bottom - 14000, sans);
    let n = payload.rows.len();
    if n == 0 {
        match &payload.empty {
            Some(empty) => {
                draw_empty_state(
                    &mut page,
                    cursor,
                    empty.title.as_str(),
                    empty.subtitle.as_str(),
                    sans,
                );
            },
            None => {},
        }
    } else {
        proof {
            assert(page.drawn() =~= flow(family, regular, bold, *payload, letterhead, 0).page);
            assert(pages_drawn(pages@) =~= Seq::<Seq<OpView>>::empty());
        }
        for row_index in 0..n
            invariant
                n == payload.rows@.len(),
                family == sans.family,
                regular == sans.regular@,
                bold == sans.bold@,
                sans == &fonts.sans,
                column_views(columns@) == column_layout(payload.columns@),
                columns_in_layout(column_views(columns@)),
                -0x4_0000_0000_0000_0000_0000_0000 <= cursor <= 0x4_0000_0000_0000_0000_0000_0000,
                page.width == PAGE_W,
                page.height == PAGE_H,
                pages_sized(pages@, PAGE_W as int, PAGE_H as int),
                pages_drawn(pages@) == flow(
                    family,
                    regular,
                    bold,
                    *payload,
                    letterhead,
                    row_index as int,
                ).done,
                page.drawn() == flow(family, regular, bold, *payload, letterhead, row_index as int).page,
                cursor == flow(family, regular, bold, *payload, letterhead, row_index as int).cursor,
        {
            let prepared = prepare_row(&payload.rows[row_index], &columns, sans);
            let height = row_height(prepared.as_slice());
            if cursor - height < TABLE_BOTTOM_Y {
                proof {
                    assert(pages_drawn(pages@.push(page)) =~= pages_drawn(pages@).push(page.drawn()));
                }
                pages.push(page);
                page = page_settings();
                draw_background(&mut page, letterhead);
                draw_title(&mut page, payload.title.as_str(), 14000, 78000, sans);
                cursor = draw_table_header(
                    &mut page,
                    columns.as_slice(),
                    CONTINUATION_TABLE_TOP_Y,
                    sans,
                );
                proof {
                    assert(page.drawn() =~= continuation_head(family, bold, *payload, letterhead));
                }
            }
            cursor = draw_table_row(
                &mut page,
                columns.as_slice(),
                prepared.as_slice(),
                cursor,
                row_index,
                sans,
            );
        }
    }
    proof {
        assert(pages_drawn(pages@.push(page)) =~= pages_drawn(pages@).push(page.drawn()));
        if n == 0 {
            assert(pages_drawn(pages@.push(page)) =~= report_pages(
                family,
                regular,
                bold,
                *payload,
                letterhead,
            ));
        }
    }
    pages.push(page);
    Ok(DocumentPlan { metadata, pages })
}

} // verus!
