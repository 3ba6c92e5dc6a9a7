//! `payment_ticket`: an 80 mm thermal ticket of declarative rows, as tall as
//! its content. Lengths are millipoints; layout is computed with y growing
//! upwards and converted to the plan's top-left convention when drawn.

use vstd::prelude::*;

use crate::plan::{
    copy_text, metadata_copied, pages_drawn, pages_sized, DocumentPlan, DrawOp, Family, Metadata, OpView, Page,
    Paint, Pen, Rgb,
};
use crate::protocol::{Align, ErrorCode, TicketPayload, TicketRow};
use crate::strings::{decimal, decimal_seq, digit_char, is_blank_seq, join2, join3, push_char};
use crate::text::{
    fits, lemma_no_words_blank, lemma_wrap_lines_empty, lemma_wrap_lines_fit, strs, text_width,
    words, wrap, wrap_lines, FontPair,
};

verus! {

pub const WIDTH: i128 = 226770;

pub const MARGIN: i128 = 14000;

pub const BODY_SIZE: i32 = 8000;

pub const LINE_HEIGHT: i128 = 12000;

pub const MIN_HEIGHT: i128 = 240000;

pub const TOP_PAD: i128 = 20000;

pub const BASE_HEIGHT: i128 = 34000;

/// Width available to text between the margins.
pub const TEXT_WIDTH: i128 = 198770;

/// Largest font size a row may ask for (exclusive).
pub const MAX_SIZE: i32 = 200000;

pub open spec fn text_color() -> Rgb {
    Rgb { r: 20, g: 20, b: 20 }
}

pub open spec fn rule_color() -> Rgb {
    Rgb { r: 89, g: 89, b: 89 }
}

/// The content of a ticket row.
pub struct RowView {
    pub text: Option<Seq<char>>,
    pub bold: bool,
    pub size: Option<i32>,
    pub align: Align,
    pub separator: bool,
    pub gap_after: i32,
}

impl View for TicketRow {
    type V = RowView;

    open spec fn view(&self) -> RowView {
        RowView {
            text: match self.text {
                Some(t) => Some(t@),
                None => None,
            },
            bold: self.bold,
            size: self.size,
            align: self.align,
            separator: self.separator,
            gap_after: self.gap_after,
        }
    }
}

pub open spec fn row_views(rows: Seq<TicketRow>) -> Seq<RowView> {
    rows.map_values(|r: TicketRow| r@)
}

// ---------- validation ----------

/// `v` millipoints written in points, without trailing zeros in the
/// fraction (`-1500` is `-1.5`, `8000` is `8`).
pub open spec fn points_seq(v: int) -> Seq<char> {
    let a = if v < 0 {
        -v
    } else {
        v
    };
    let sign = if v < 0 {
        seq!['-']
    } else {
        seq![]
    };
    let whole = decimal_seq((a / 1000) as nat);
    let f = a % 1000;
    let frac = if f == 0 {
        seq![]
    } else if f % 100 == 0 {
        seq!['.', digit_char((f / 100) as nat)]
    } else if f % 10 == 0 {
        seq!['.', digit_char((f / 100) as nat), digit_char(((f / 10) % 10) as nat)]
    } else {
        seq![
            '.',
            digit_char((f / 100) as nat),
            digit_char(((f / 10) % 10) as nat),
            digit_char((f % 10) as nat),
        ]
    };
    sign + whole + frac
}

/// A font size the ticket accepts: strictly between 0 and 200 pt.
pub open spec fn size_ok(size: i32) -> bool {
    0 < size < MAX_SIZE
}

/// Why row `i` is refused, if it is.
pub open spec fn row_problem(r: RowView, i: int) -> Option<Seq<char>> {
    if r.size is Some && !size_ok(r.size->0) {
        Some(
            "rows["@ + decimal_seq(i as nat) + "].size fuera de rango: "@ + points_seq(
                r.size->0 as int,
            ),
        )
    } else if r.gap_after < 0 {
        Some("rows["@ + decimal_seq(i as nat) + "].gap_after negativo"@)
    } else {
        None
    }
}

/// The problem of the first refused row among the first `k`.
pub open spec fn first_row_problem(rows: Seq<RowView>, k: int) -> Option<Seq<char>>
    decreases k,
{
    if k <= 0 {
        None
    } else {
        match first_row_problem(rows, k - 1) {
            Some(m) => Some(m),
            None => row_problem(rows[k - 1], k - 1),
        }
    }
}

proof fn lemma_first_row_problem_stable(rows: Seq<RowView>, k: int, k2: int)
    requires
        0 <= k <= k2,
        first_row_problem(rows, k) is Some,
    ensures
        first_row_problem(rows, k2) == first_row_problem(rows, k),
    decreases k2,
{
    if k2 > k {
        lemma_first_row_problem_stable(rows, k, k2 - 1);
    }
}

proof fn lemma_no_problem_prefix(rows: Seq<RowView>, k: int, j: int)
    requires
        0 <= j < k,
        first_row_problem(rows, k) is None,
    ensures
        row_problem(rows[j], j) is None,
    decreases k,
{
    if k - 1 > j {
        lemma_no_problem_prefix(rows, k - 1, j);
    }
}

fn digit_of(d: i128) -> (c: char)
    requires
        0 <= d < 10,
    ensures
        c == digit_char(d as nat),
{
    let s = decimal(d as u128);
    proof {
        assert(decimal_seq(d as nat) == seq![digit_char(d as nat)]);
    }
    s.as_str().get_char(0)
}

/// `v` millipoints written in points.
pub fn points_text(v: i32) -> (s: String)
    ensures
        s@ == points_seq(v as int),
{
    let a: i128 = if v < 0 {
        -(v as i128)
    } else {
        v as i128
    };
    let mut s = String::new();
    if v < 0 {
        push_char(&mut s, '-');
    }
    let whole = decimal((a / 1000) as u128);
    s.append(whole.as_str());
    let f = a % 1000;
    if f != 0 {
        push_char(&mut s, '.');
        push_char(&mut s, digit_of(f / 100));
        if f % 100 != 0 {
            push_char(&mut s, digit_of((f / 10) % 10));
            if f % 10 != 0 {
                push_char(&mut s, digit_of(f % 10));
            }
        }
    }
    proof {
        let sign: Seq<char> = if v < 0 {
            seq!['-']
        } else {
            seq![]
        };
        assert(s@ =~= points_seq(v as int));
    }
    s
}

/// Checks the ticket's rows: sizes strictly between 0 and 200 pt, gaps
/// not negative. Reports the first refused row.
pub fn validate_rows(rows: &Vec<TicketRow>) -> (r: Result<(), String>)
    ensures
        r is Ok <==> first_row_problem(row_views(rows@), rows@.len() as int) is None,
        r matches Err(m) ==> first_row_problem(row_views(rows@), rows@.len() as int) == Some(m@),
{
    let n = rows.len();
    let ghost views = row_views(rows@);
    for index in 0..n
        invariant
            n == rows@.len(),
            views == row_views(rows@),
            first_row_problem(views, index as int) is None,
    {
        let row = &rows[index];
        proof {
            assert(views[index as int] == row@);
        }
        match row.size {
            Some(size) => {
                if !(0 < size && size < MAX_SIZE) {
                    let head = join3("rows[", decimal(index as u128).as_str(), "].size fuera de rango: ");
                    let amount = points_text(size);
                    proof {
                        lemma_first_row_problem_stable(views, index + 1, n as int);
                    }
                    return Err(join2(head.as_str(), amount.as_str()));
                }
            },
            None => {},
        }
        if row.gap_after < 0 {
            proof {
                lemma_first_row_problem_stable(views, index + 1, n as int);
            }
            return Err(join3("rows[", decimal(index as u128).as_str(), "].gap_after negativo"));
        }
    }
    Ok(())
}

// ---------- wrapping ----------

/// The size a row is drawn at.
pub open spec fn row_size(r: RowView) -> i32 {
    match r.size {
        Some(s) => s,
        None => BODY_SIZE,
    }
}

/// Whether a row's text is wrapped: it is not a separator and has a
/// non-empty text.
pub open spec fn wraps(r: RowView) -> bool {
    !r.separator && r.text is Some && r.text->0.len() > 0
}

/// A row turned into one row per wrapped line; only the last keeps the gap.
/// Rows that are not wrapped, or whose text has no words, stay as they are.
pub open spec fn expand_row(regular: Seq<u8>, bold: Seq<u8>, r: RowView) -> Seq<RowView> {
    if wraps(r) {
        let font = if r.bold {
            bold
        } else {
            regular
        };
        let lines = wrap_lines(font, row_size(r) as nat, TEXT_WIDTH as int, r.text->0);
        if lines.len() == 0 {
            seq![r]
        } else {
            Seq::new(
                lines.len(),
                |i: int|
                    RowView {
                        text: Some(lines[i]),
                        gap_after: if i == lines.len() - 1 {
                            r.gap_after
                        } else {
                            0
                        },
                        ..r
                    },
            )
        }
    } else {
        seq![r]
    }
}

/// The first `k` rows, each expanded, in order.
pub open spec fn expand_rows(regular: Seq<u8>, bold: Seq<u8>, rows: Seq<RowView>, k: int) -> Seq<
    RowView,
>
    decreases k,
{
    if k <= 0 {
        seq![]
    } else {
        expand_rows(regular, bold, rows, k - 1) + expand_row(regular, bold, rows[k - 1])
    }
}

/// All rows are accepted by validation.
pub open spec fn rows_ok(rows: Seq<RowView>) -> bool {
    forall|i: int| 0 <= i < rows.len() ==> row_problem(#[trigger] rows[i], i) is None
}

fn copy_row(row: &TicketRow, text: Option<String>, gap_after: i32) -> (r: TicketRow)
    ensures
        r@ == (RowView {
            text: match text {
                Some(t) => Some(t@),
                None => None,
            },
            gap_after,
            ..row@
        }),
{
    TicketRow {
        text,
        bold: row.bold,
        size: row.size,
        align: row.align,
        separator: row.separator,
        gap_after,
    }
}

fn copy_text_row(row: &TicketRow) -> (r: TicketRow)
    ensures
        r@ == row@,
{
    let text = match &row.text {
        Some(t) => Some(t.clone()),
        None => None,
    };
    copy_row(row, text, row.gap_after)
}

/// Expands every wrapped row into one row per line.
pub fn wrapped_rows(rows: &Vec<TicketRow>, fonts: &FontPair) -> (out: Vec<TicketRow>)
    requires
        rows_ok(row_views(rows@)),
    ensures
        row_views(out@) == expand_rows(
            fonts.regular@,
            fonts.bold@,
            row_views(rows@),
            rows@.len() as int,
        ),
{
    let n = rows.len();
    let ghost views = row_views(rows@);
    let mut out: Vec<TicketRow> = Vec::new();
    for k in 0..n
        invariant
            n == rows@.len(),
            views == row_views(rows@),
            rows_ok(views),
            row_views(out@) == expand_rows(fonts.regular@, fonts.bold@, views, k as int),
    {
        let row = &rows[k];
        let ghost start = row_views(out@);
        proof {
            assert(views[k as int] == row@);
            assert(row_problem(views[k as int], k as int) is None);
        }
        let ghost expanded = expand_row(fonts.regular@, fonts.bold@, row@);
        let wrap_it = match &row.text {
            Some(t) => !row.separator && !t.as_str().is_empty(),
            None => false,
        };
        if !wrap_it {
            let copy = copy_text_row(row);
            proof {
                assert(row_views(out@.push(copy)) =~= row_views(out@).push(copy@));
                assert(expanded =~= seq![row@]);
            }
            out.push(copy);
        } else {
            let text = match &row.text {
                Some(t) => t.as_str(),
                None => "",
            };
            let font = fonts.pick(row.bold);
            let size: i32 = match row.size {
                Some(s) => s,
                None => BODY_SIZE,
            };
            let lines = wrap(text, font, size as u32, TEXT_WIDTH);
            let m = lines.len();
            if m == 0 {
                let copy = copy_text_row(row);
                proof {
                    assert(row_views(out@.push(copy)) =~= row_views(out@).push(copy@));
                    assert(expanded =~= seq![row@]);
                }
                out.push(copy);
            } else {
                for i in 0..m
                    invariant
                        m == lines@.len(),
                        m > 0,
                        wraps(row@),
                        strs(lines@) == wrap_lines(
                            if row.bold {
                                fonts.bold@
                            } else {
                                fonts.regular@
                            },
                            row_size(row@) as nat,
                            TEXT_WIDTH as int,
                            row@.text->0,
                        ),
                        expanded == expand_row(fonts.regular@, fonts.bold@, row@),
                        row_views(out@) == start + expanded.take(i as int),
                {
                    let gap = if i == m - 1 {
                        row.gap_after
                    } else {
                        0
                    };
                    let line = lines[i].clone();
                    let copy = copy_row(row, Some(line), gap);
                    proof {
                        assert(strs(lines@)[i as int] == lines@[i as int]@);
                        assert(row_views(out@.push(copy)) =~= row_views(out@).push(copy@));
                        assert(expanded.take(i + 1) =~= expanded.take(i as int).push(
                            expanded[i as int],
                        ));
                    }
                    out.push(copy);
                }
                proof {
                    assert(expanded.take(m as int) =~= expanded);
                }
            }
        }
    }
    out
}

/// Every expanded row whose text is drawn and not blank fits between the
/// margins at its size.
pub proof fn lemma_expanded_text_fits(regular: Seq<u8>, bold: Seq<u8>, rows: Seq<RowView>, k: int)
    requires
        0 <= k <= rows.len(),
    ensures
        forall|i: int|
            0 <= i < expand_rows(regular, bold, rows, k).len() ==> {
                let r = #[trigger] expand_rows(regular, bold, rows, k)[i];
                (!r.separator && r.text is Some && !is_blank_seq(r.text->0)) ==> fits(
                    if r.bold {
                        bold
                    } else {
                        regular
                    },
                    row_size(r) as nat,
                    TEXT_WIDTH as int,
                    r.text->0,
                )
            },
    decreases k,
{
    if k > 0 {
        lemma_expanded_text_fits(regular, bold, rows, k - 1);
        let prev = expand_rows(regular, bold, rows, k - 1);
        let r0 = rows[k - 1];
        let here = expand_row(regular, bold, r0);
        let all = expand_rows(regular, bold, rows, k);
        let font = if r0.bold {
            bold
        } else {
            regular
        };
        if wraps(r0) {
            lemma_wrap_lines_fit(font, row_size(r0) as nat, TEXT_WIDTH as int, r0.text->0);
            lemma_wrap_lines_empty(font, row_size(r0) as nat, TEXT_WIDTH as int, r0.text->0);
            if wrap_lines(font, row_size(r0) as nat, TEXT_WIDTH as int, r0.text->0).len() == 0 {
                lemma_no_words_blank(r0.text->0);
            }
        }
        assert forall|i: int| 0 <= i < all.len() implies {
            let r = #[trigger] all[i];
            (!r.separator && r.text is Some && !is_blank_seq(r.text->0)) ==> fits(
                if r.bold {
                    bold
                } else {
                    regular
                },
                row_size(r) as nat,
                TEXT_WIDTH as int,
                r.text->0,
            )
        } by {
            if i < prev.len() {
                assert(all[i] == prev[i]);
            } else {
                assert(all[i] == here[i - prev.len()]);
            }
        }
    }
}

// ---------- layout ----------

/// Vertical space the first `k` rows take.
pub open spec fn rows_advance(rows: Seq<RowView>, k: int) -> int
    decreases k,
{
    if k <= 0 {
        0
    } else {
        rows_advance(rows, k - 1) + LINE_HEIGHT + rows[k - 1].gap_after
    }
}

/// Page height: the base plus every row's line height and gap, at least
/// the minimum height.
pub open spec fn ticket_height(rows: Seq<RowView>) -> int {
    let h = BASE_HEIGHT + rows_advance(rows, rows.len() as int);
    if h > MIN_HEIGHT {
        h
    } else {
        MIN_HEIGHT as int
    }
}

/// Left edge of a text line of width `w`.
pub open spec fn x_for_spec(w: int, align: Align) -> int {
    match align {
        Align::Left => MARGIN as int,
        Align::Center => (WIDTH - w) / 2,
        Align::Right => WIDTH - MARGIN - w,
    }
}

/// Left edge of a text line of width `text_width` with the given alignment.
pub fn x_for(text_width: i128, align: Align) -> (x: i128)
    requires
        0 <= text_width <= 0x1_0000_0000_0000_0000_0000_0000_0000,
    ensures
        x == x_for_spec(text_width as int, align),
{
    match align {
        Align::Left => MARGIN,
        Align::Center => crate::render::a4::half(WIDTH - text_width),
        Align::Right => WIDTH - MARGIN - text_width,
    }
}

/// What one row draws when its baseline is at `y` (bottom-up) on a page of
/// the given height: a rule 4 pt above the baseline for a separator, its
/// text aligned otherwise, nothing without text.
pub open spec fn row_draw(
    family: Family,
    regular: Seq<u8>,
    bold: Seq<u8>,
    r: RowView,
    y: int,
    height: int,
) -> Seq<OpView> {
    if r.separator {
        seq![
            OpView::Line {
                x1: MARGIN as int,
                y1: height - (y + 4000),
                x2: WIDTH - MARGIN,
                y2: height - (y + 4000),
                pen: Pen { color: rule_color(), width: 500 },
            },
        ]
    } else if r.text is Some {
        let font = if r.bold {
            bold
        } else {
            regular
        };
        let size = row_size(r);
        seq![
            OpView::Text {
                family,
                bold: r.bold,
                size: size as u32,
                x: x_for_spec(text_width(font, r.text->0, size as nat), r.align),
                y: height - y,
                paint: Paint { fill: Some(text_color()), stroke: None },
                text: r.text->0,
            },
        ]
    } else {
        seq![]
    }
}

/// What the first `k` rows draw, the first baseline `TOP_PAD` under the top.
pub open spec fn rows_draw(
    family: Family,
    regular: Seq<u8>,
    bold: Seq<u8>,
    rows: Seq<RowView>,
    height: int,
    k: int,
) -> Seq<OpView>
    decreases k,
{
    if k <= 0 {
        seq![]
    } else {
        rows_draw(family, regular, bold, rows, height, k - 1) + row_draw(
            family,
            regular,
            bold,
            rows[k - 1],
            height - TOP_PAD - rows_advance(rows, k - 1),
            height,
        )
    }
}

proof fn lemma_rows_advance_bounds(rows: Seq<RowView>, k: int)
    requires
        0 <= k <= rows.len(),
        forall|i: int| 0 <= i < rows.len() ==> (#[trigger] rows[i]).gap_after >= 0,
    ensures
        0 <= rows_advance(rows, k) <= k * (LINE_HEIGHT + 0x7fff_ffff),
    decreases k,
{
    if k > 0 {
        lemma_rows_advance_bounds(rows, k - 1);
        assert(rows[k - 1].gap_after <= 0x7fff_ffff);
    }
}

/// Sizes and gaps of expanded rows stay valid.
proof fn lemma_expand_ok(regular: Seq<u8>, bold: Seq<u8>, rows: Seq<RowView>, k: int)
    requires
        0 <= k <= rows.len(),
        rows_ok(rows),
    ensures
        forall|i: int|
            0 <= i < expand_rows(regular, bold, rows, k).len() ==> {
                &&& (#[trigger] expand_rows(regular, bold, rows, k)[i]).gap_after >= 0
                &&& expand_rows(regular, bold, rows, k)[i].size is Some ==> size_ok(
                    expand_rows(regular, bold, rows, k)[i].size->0,
                )
            },
    decreases k,
{
    if k > 0 {
        lemma_expand_ok(regular, bold, rows, k - 1);
        assert(row_problem(rows[k - 1], k - 1) is None);
        let prev = expand_rows(regular, bold, rows, k - 1);
        let here = expand_row(regular, bold, rows[k - 1]);
        let all = expand_rows(regular, bold, rows, k);
        assert forall|i: int| 0 <= i < all.len() implies {
            &&& (#[trigger] all[i]).gap_after >= 0
            &&& all[i].size is Some ==> size_ok(all[i].size->0)
        } by {
            if i >= prev.len() {
                assert(all[i] == here[i - prev.len()]);
            } else {
                assert(all[i] == prev[i]);
            }
        }
    }
}

/// What rendering the ticket gives: the first refused row as an invalid
/// payload, or one page as tall as `ticket_height` of the expanded rows,
/// drawing them, with the payload's metadata.
pub open spec fn ticket_rendered(
    payload: TicketPayload,
    fonts: FontPair,
    r: Result<DocumentPlan, (ErrorCode, String)>,
) -> bool {
    let problem = first_row_problem(row_views(payload.rows@), payload.rows@.len() as int);
    &&& (r is Err <==> problem is Some)
    &&& (r matches Err(e) ==> e.0 == ErrorCode::PayloadInvalid && problem == Some(e.1@))
    &&& (r matches Ok(plan) ==> {
        let rows = expand_rows(
            fonts.regular@,
            fonts.bold@,
            row_views(payload.rows@),
            payload.rows@.len() as int,
        );
        let height = ticket_height(rows);
        &&& pages_sized(plan.pages@, WIDTH as int, height)
        &&& pages_drawn(plan.pages@) == seq![
            rows_draw(fonts.family, fonts.regular@, fonts.bold@, rows, height, rows.len() as int),
        ]
        &&& metadata_copied(
            plan.metadata,
            payload.meta_title,
            payload.meta_author,
            payload.meta_subject,
        )
    })
}

proof fn lemma_room_is_advance(rows: Seq<RowView>, k: int)
    requires
        0 <= k <= rows.len(),
    ensures
        rows.take(k).fold_left(0int, |acc: int, row: RowView| acc + 12000 + row.gap_after)
            == rows_advance(rows, k),
    decreases k,
{
    if k > 0 {
        lemma_room_is_advance(rows, k - 1);
        assert(rows.take(k).drop_last() =~= rows.take(k - 1));
        assert(rows.take(k).last() == rows[k - 1]);
    }
}

proof fn lemma_advance_grows(rows: Seq<RowView>, j: int, k: int)
    requires
        0 <= j <= k <= rows.len(),
        forall|i: int| 0 <= i < rows.len() ==> (#[trigger] rows[i]).gap_after >= 0,
    ensures
        rows_advance(rows, j) + LINE_HEIGHT * (k - j) <= rows_advance(rows, k),
    decreases k,
{
    if k > j {
        lemma_advance_grows(rows, j, k - 1);
        assert(rows[k - 1].gap_after >= 0);
    }
}

proof fn lemma_rows_draw_on_page(
    family: Family,
    regular: Seq<u8>,
    bold: Seq<u8>,
    rows: Seq<RowView>,
    height: int,
    k: int,
)
    requires
        0 <= k <= rows.len(),
        forall|i: int| 0 <= i < rows.len() ==> (#[trigger] rows[i]).gap_after >= 0,
        height >= BASE_HEIGHT + rows_advance(rows, rows.len() as int),
    ensures
        forall|i: int|
            0 <= i < rows_draw(family, regular, bold, rows, height, k).len() ==> match #[trigger] rows_draw(
                family,
                regular,
                bold,
                rows,
                height,
                k,
            )[i] {
                OpView::Text { y, .. } => 0 <= y <= height,
                OpView::Line { y1, y2, .. } => 0 <= y1 <= height && 0 <= y2 <= height,
                _ => true,
            },
    decreases k,
{
    if k > 0 {
        lemma_rows_draw_on_page(family, regular, bold, rows, height, k - 1);
        lemma_advance_grows(rows, k - 1, rows.len() as int);
        lemma_advance_grows(rows, 0, k - 1);
        let prev = rows_draw(family, regular, bold, rows, height, k - 1);
        let here = row_draw(
            family,
            regular,
            bold,
            rows[k - 1],
            height - TOP_PAD - rows_advance(rows, k - 1),
            height,
        );
        let all = rows_draw(family, regular, bold, rows, height, k);
        assert(all == prev + here);
        assert forall|i: int| 0 <= i < all.len() implies match #[trigger] all[i] {
            OpView::Text { y, .. } => 0 <= y <= height,
            OpView::Line { y1, y2, .. } => 0 <= y1 <= height && 0 <= y2 <= height,
            _ => true,
        } by {
            if i < prev.len() {
                assert(all[i] == prev[i]);
            } else {
                assert(all[i] == here[i - prev.len()]);
            }
        }
    }
}

proof fn lemma_row_ops_at(
    family: Family,
    regular: Seq<u8>,
    bold: Seq<u8>,
    rows: Seq<RowView>,
    height: int,
    n: int,
    k: int,
)
    requires
        0 <= k < n <= rows.len(),
    ensures
        ({
            let here = row_draw(
                family,
                regular,
                bold,
                rows[k],
                height - TOP_PAD - rows_advance(rows, k),
                height,
            );
            let before = rows_draw(family, regular, bold, rows, height, k).len();
            let all = rows_draw(family, regular, bold, rows, height, n);
            here.len() > 0 ==> before < all.len() && all[before as int] == here[0]
        }),
    decreases n,
{
    let prev = rows_draw(family, regular, bold, rows, height, n - 1);
    let last = row_draw(
        family,
        regular,
        bold,
        rows[n - 1],
        height - TOP_PAD - rows_advance(rows, n - 1),
        height,
    );
    assert(rows_draw(family, regular, bold, rows, height, n) == prev + last);
    if k < n - 1 {
        lemma_row_ops_at(family, regular, bold, rows, height, n - 1, k);
    }
}

/// Every row of a rendered ticket is drawn where its turn puts it: row `k`
/// (after wrapping) has its baseline 20 pt from the top plus 12 pt and the
/// gap of every row above it. A text row is drawn in the ticket's text
/// color at its size (8 pt by default), starting 14 pt from the left edge,
/// centred on the 226.77 pt width, or ending 14 pt from the right edge as
/// its alignment asks; a separator is a 0.5 pt gray rule across the margins
/// 4 pt above that baseline.
pub proof fn lemma_ticket_rows_placed(
    payload: TicketPayload,
    fonts: FontPair,
    r: Result<DocumentPlan, (ErrorCode, String)>,
)
    requires
        ticket_rendered(payload, fonts, r),
    ensures
        r matches Ok(plan) ==> {
            let rows = expand_rows(
                fonts.regular@,
                fonts.bold@,
                row_views(payload.rows@),
                payload.rows@.len() as int,
            );
            let d = plan.pages@[0].drawn();
            &&& plan.pages@.len() == 1
            &&& forall|k: int|
                0 <= k < rows.len() ==> {
                    let row = #[trigger] rows[k];
                    let baseline = 20000 + rows.take(k).fold_left(
                        0int,
                        |acc: int, row: RowView| acc + 12000 + row.gap_after,
                    );
                    let size: u32 = match row.size {
                        Some(s) => s as u32,
                        None => 8000,
                    };
                    let w = text_width(
                        if row.bold {
                            fonts.bold@
                        } else {
                            fonts.regular@
                        },
                        row.text->0,
                        size as nat,
                    );
                    let x = match row.align {
                        Align::Left => 14000,
                        Align::Center => (226770 - w) / 2,
                        Align::Right => 226770 - 14000 - w,
                    };
                    &&& row.separator ==> exists|j: int|
                        0 <= j < d.len() && d[j] == (OpView::Line {
                            x1: 14000,
                            y1: baseline - 4000,
                            x2: 212770,
                            y2: baseline - 4000,
                            pen: Pen { color: Rgb { r: 89, g: 89, b: 89 }, width: 500 },
                        })
                    &&& (!row.separator && row.text is Some) ==> exists|j: int|
                        0 <= j < d.len() && d[j] == (OpView::Text {
                            family: fonts.family,
                            bold: row.bold,
                            size,
                            x,
                            y: baseline,
                            paint: Paint { fill: Some(Rgb { r: 20, g: 20, b: 20 }), stroke: None },
                            text: row.text->0,
                        })
                }
        },
{
    if let Ok(plan) = r {
        let views = row_views(payload.rows@);
        let n = payload.rows@.len() as int;
        let rows = expand_rows(fonts.regular@, fonts.bold@, views, n);
        let height = ticket_height(rows);
        assert forall|i: int| 0 <= i < views.len() implies row_problem(#[trigger] views[i], i) is None by {
            lemma_no_problem_prefix(views, views.len() as int, i);
        }
        lemma_expand_ok(fonts.regular@, fonts.bold@, views, n);
        assert(pages_drawn(plan.pages@).len() == 1);
        assert(pages_drawn(plan.pages@)[0] == plan.pages@[0].drawn());
        assert(plan.pages@[0].width == WIDTH);
        let d = plan.pages@[0].drawn();
        let m = rows.len() as int;
        assert(d == rows_draw(fonts.family, fonts.regular@, fonts.bold@, rows, height, m));
        assert forall|k: int| 0 <= k < rows.len() implies {
            let row = #[trigger] rows[k];
            let baseline = 20000 + rows.take(k).fold_left(
                0int,
                |acc: int, row: RowView| acc + 12000 + row.gap_after,
            );
            let size: u32 = match row.size {
                Some(s) => s as u32,
                None => 8000,
            };
            let w = text_width(
                if row.bold {
                    fonts.bold@
                } else {
                    fonts.regular@
                },
                row.text->0,
                size as nat,
            );
            let x = match row.align {
                Align::Left => 14000,
                Align::Center => (226770 - w) / 2,
                Align::Right => 226770 - 14000 - w,
            };
            &&& row.separator ==> exists|j: int|
                0 <= j < d.len() && d[j] == (OpView::Line {
                    x1: 14000,
                    y1: baseline - 4000,
                    x2: 212770,
                    y2: baseline - 4000,
                    pen: Pen { color: Rgb { r: 89, g: 89, b: 89 }, width: 500 },
                })
            &&& (!row.separator && row.text is Some) ==> exists|j: int|
                0 <= j < d.len() && d[j] == (OpView::Text {
                    family: fonts.family,
                    bold: row.bold,
                    size,
                    x,
                    y: baseline,
                    paint: Paint { fill: Some(Rgb { r: 20, g: 20, b: 20 }), stroke: None },
                    text: row.text->0,
                })
        } by {
            lemma_room_is_advance(rows, k);
            lemma_row_ops_at(fonts.family, fonts.regular@, fonts.bold@, rows, height, m, k);
            let j = rows_draw(fonts.family, fonts.regular@, fonts.bold@, rows, height, k).len() as int;
            let here = row_draw(
                fonts.family,
                fonts.regular@,
                fonts.bold@,
                rows[k],
                height - TOP_PAD - rows_advance(rows, k),
                height,
            );
            assert(rows[k].size is Some ==> size_ok(rows[k].size->0));
            if rows[k].separator || rows[k].text is Some {
                assert(d[j] == here[0]);
            }
        }
    }
}

/// A rendered ticket is one page exactly as tall as its content: 34 pt plus,
/// for every row after wrapping, 12 pt and the row's gap, but never under
/// 240 pt. Everything it draws (each text baseline and each rule) lies on
/// the page.
pub proof fn lemma_ticket_page(
    payload: TicketPayload,
    fonts: FontPair,
    r: Result<DocumentPlan, (ErrorCode, String)>,
)
    requires
        ticket_rendered(payload, fonts, r),
    ensures
        r matches Ok(plan) ==> {
            let rows = expand_rows(
                fonts.regular@,
                fonts.bold@,
                row_views(payload.rows@),
                payload.rows@.len() as int,
            );
            let room = rows.fold_left(0int, |acc: int, row: RowView| acc + 12000 + row.gap_after);
            let page = plan.pages@[0];
            &&& plan.pages@.len() == 1
            &&& page.width == 226770
            &&& page.height == (if 34000 + room > 240000 {
                34000 + room
            } else {
                240000
            })
            &&& forall|k: int|
                0 <= k < page.drawn().len() ==> match #[trigger] page.drawn()[k] {
                    OpView::Text { y, .. } => 0 <= y <= page.height,
                    OpView::Line { y1, y2, .. } => 0 <= y1 <= page.height && 0 <= y2 <= page.height,
                    _ => true,
                }
        },
{
    if let Ok(plan) = r {
        let views = row_views(payload.rows@);
        let n = payload.rows@.len() as int;
        assert forall|i: int| 0 <= i < views.len() implies row_problem(#[trigger] views[i], i) is None by {
            lemma_no_problem_prefix(views, views.len() as int, i);
        }
        lemma_expand_ok(fonts.regular@, fonts.bold@, views, n);
        let rows = expand_rows(fonts.regular@, fonts.bold@, views, n);
        assert forall|i: int| 0 <= i < rows.len() implies (#[trigger] rows[i]).gap_after >= 0 by {}
        lemma_room_is_advance(rows, rows.len() as int);
        assert(rows.take(rows.len() as int) =~= rows);
        let height = ticket_height(rows);
        assert(pages_drawn(plan.pages@).len() == 1);
        assert(pages_drawn(plan.pages@)[0] == plan.pages@[0].drawn());
        assert(plan.pages@[0].width == WIDTH);
        assert(plan.pages@[0].height == height);
        lemma_rows_draw_on_page(fonts.family, fonts.regular@, fonts.bold@, rows, height, rows.len() as int);
    }
}

/// Plans the ticket on one page.
pub fn render(payload: &TicketPayload, fonts: &FontPair) -> (r: Result<
    DocumentPlan,
    (ErrorCode, String),
>)
    ensures
        ticket_rendered(*payload, *fonts, r),
{
    match validate_rows(&payload.rows) {
        Err(m) => {
            return Err((ErrorCode::PayloadInvalid, m));
        },
        Ok(()) => {},
    }
    let ghost views = row_views(payload.rows@);
    proof {
        assert forall|i: int| 0 <= i < views.len() implies row_problem(#[trigger] views[i], i) is None by {
            lemma_no_problem_prefix(views, views.len() as int, i);
        }
    }
    let rows = wrapped_rows(&payload.rows, fonts);
    let ghost rv = row_views(rows@);
    let n = rows.len();
    proof {
        lemma_expand_ok(fonts.regular@, fonts.bold@, views, views.len() as int);
        assert forall|i: int| 0 <= i < rv.len() implies (#[trigger] rv[i]).gap_after >= 0 by {}
        lemma_rows_advance_bounds(rv, n as int);
        assert(n * (LINE_HEIGHT + 0x7fff_ffff) <= 0x1_0000_0000_0000_0000 * (LINE_HEIGHT
            + 0x7fff_ffff)) by (nonlinear_arith)
            requires
                0 <= n <= 0x1_0000_0000_0000_0000,
        ;
    }
    let mut total: i128 = BASE_HEIGHT;
    for i in 0..n
        invariant
            n == rows@.len(),
            rv == row_views(rows@),
            forall|j: int| 0 <= j < rv.len() ==> (#[trigger] rv[j]).gap_after >= 0,
            total == BASE_HEIGHT + rows_advance(rv, i as int),
    {
        proof {
            lemma_rows_advance_bounds(rv, (i + 1) as int);
            assert((i + 1) * (LINE_HEIGHT + 0x7fff_ffff) <= 0x1_0000_0000_0000_0000 * (LINE_HEIGHT
                + 0x7fff_ffff)) by (nonlinear_arith)
                requires
                    0 <= i + 1 <= 0x1_0000_0000_0000_0000,
            ;
            assert(rv[i as int] == rows@[i as int]@);
        }
        total = total + LINE_HEIGHT + rows[i].gap_after as i128;
    }
    let height = if total > MIN_HEIGHT {
        total
    } else {
        MIN_HEIGHT
    };
    let metadata = Metadata {
        title: copy_text(&payload.meta_title),
        author: copy_text(&payload.meta_author),
        subject: copy_text(&payload.meta_subject),
    };
    let mut page = Page::new(WIDTH, height);
    let mut y = height - TOP_PAD;
    for i in 0..n
        invariant
            n == rows@.len(),
            rv == row_views(rows@),
            forall|j: int|
                0 <= j < rv.len() ==> {
                    &&& (#[trigger] rv[j]).gap_after >= 0
                    &&& rv[j].size is Some ==> size_ok(rv[j].size->0)
                },
            height == ticket_height(rv),
            0 <= rows_advance(rv, n as int) <= 0x1_0000_0000_0000_0000 * (LINE_HEIGHT + 0x7fff_ffff),
            y == height - TOP_PAD - rows_advance(rv, i as int),
            page.width == WIDTH,
            page.height == height,
            page.drawn() == rows_draw(
                fonts.family,
                fonts.regular@,
                fonts.bold@,
                rv,
                height as int,
                i as int,
            ),
    {
        let row = &rows[i];
        proof {
            assert(rv[i as int] == row@);
            lemma_rows_advance_bounds(rv, i as int);
            lemma_rows_advance_bounds(rv, (i + 1) as int);
            assert(i * (LINE_HEIGHT + 0x7fff_ffff) <= 0x1_0000_0000_0000_0000 * (LINE_HEIGHT
                + 0x7fff_ffff)) by (nonlinear_arith)
                requires
                    0 <= i <= 0x1_0000_0000_0000_0000,
            ;
        }
        let ghost before = page.drawn();
        if row.separator {
            let rule_y = height - (y + 4000);
            page.push(
                DrawOp::Line {
                    x1: MARGIN,
                    y1: rule_y,
                    x2: WIDTH - MARGIN,
                    y2: rule_y,
                    pen: Pen { color: Rgb { r: 89, g: 89, b: 89 }, width: 500 },
                },
            );
        } else {
            match &row.text {
                Some(text) => {
                    let font = fonts.pick(row.bold);
                    let size: i32 = match row.size {
                        Some(s) => s,
                        None => BODY_SIZE,
                    };
                    let w = font.width(text.as_str(), size as u32) as i128;
                    let x = x_for(w, row.align);
                    page.push(
                        DrawOp::Text {
                            family: fonts.family,
                            bold: row.bold,
                            size: size as u32,
                            x,
                            y: height - y,
                            paint: Paint { fill: Some(Rgb { r: 20, g: 20, b: 20 }), stroke: None },
                            text: text.clone(),
                        },
                    );
                },
                None => {},
            }
        }
        proof {
            assert(page.drawn() =~= before + row_draw(
                fonts.family,
                fonts.regular@,
                fonts.bold@,
                rv[i as int],
                y as int,
                height as int,
            ));
        }
        y = y - (LINE_HEIGHT + row.gap_after as i128);
    }
    let mut pages: Vec<Page> = Vec::new();
    pages.push(page);
    proof {
        assert(pages_drawn(pages@) =~= seq![page.drawn()]);
    }
    Ok(DocumentPlan { metadata, pages })
}

} // verus!
