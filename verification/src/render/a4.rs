//! A4 kernel: letterhead background, titles, summary card, zebra tables with
//! column separators, and the empty state.
//!
//! Layout is computed with the origin at the bottom-left corner and y
//! growing upwards; every operation is converted to the plan's top-left
//! convention (`PAGE_H - y`) when it is drawn. Lengths are millipoints.

use vstd::prelude::*;

use crate::plan::{DrawOp, Family, Frame, ImageSlot, OpView, Page, Paint, Pen, Rgb};
use crate::protocol::{ColumnSpec, PaletteColor, SummaryItem};
use crate::strings::{is_blank, is_blank_seq, to_upper, unicode_upper};
use crate::text::{fit, fit_text, limited_lines, limited_wrap, strs, text_width, wrap, wrap_lines, FontPair};

verus! {

pub const PAGE_W: i128 = 595280;

pub const PAGE_H: i128 = 841890;

pub const CONTENT_X: i128 = 48000;

pub const CONTENT_W: i128 = 499280;

pub const TITLE_Y: i128 = 734000;

pub const CONTINUATION_TABLE_TOP_Y: i128 = 712000;

pub const TABLE_BOTTOM_Y: i128 = 104000;

pub const TABLE_FONT_SIZE: u32 = 9000;

pub const TABLE_LINE_HEIGHT: i128 = 11000;

pub const TABLE_HEADER_HEIGHT: i128 = 26000;

pub const MIN_ROW_HEIGHT: i128 = 32000;

/// Neutral colors of the kernel's frames and surfaces.
#[derive(Clone, Copy, Debug, PartialEq, Eq, Structural)]
pub enum Tone {
    Border,
    PanelBorder,
    Surface,
    HeaderSurface,
    White,
}

pub open spec fn tone_rgb(t: Tone) -> Rgb {
    match t {
        Tone::Border => Rgb { r: 216, g: 221, b: 229 },
        Tone::PanelBorder => Rgb { r: 224, g: 226, b: 234 },
        Tone::Surface => Rgb { r: 250, g: 251, b: 252 },
        Tone::HeaderSurface => Rgb { r: 246, g: 246, b: 247 },
        Tone::White => Rgb { r: 255, g: 255, b: 255 },
    }
}

/// The color of a neutral tone.
pub fn tone(t: Tone) -> (c: Rgb)
    ensures
        c == tone_rgb(t),
{
    match t {
        Tone::Border => Rgb { r: 216, g: 221, b: 229 },
        Tone::PanelBorder => Rgb { r: 224, g: 226, b: 234 },
        Tone::Surface => Rgb { r: 250, g: 251, b: 252 },
        Tone::HeaderSurface => Rgb { r: 246, g: 246, b: 247 },
        Tone::White => Rgb { r: 255, g: 255, b: 255 },
    }
}

/// The bytes each palette color is drawn with.
pub open spec fn palette_rgb(color: PaletteColor) -> Rgb {
    match color {
        PaletteColor::Text => Rgb { r: 30, g: 33, b: 40 },
        PaletteColor::Muted => Rgb { r: 109, g: 117, b: 132 },
        PaletteColor::Success => Rgb { r: 30, g: 158, b: 79 },
        PaletteColor::Warning => Rgb { r: 216, g: 140, b: 25 },
        PaletteColor::Danger => Rgb { r: 214, g: 45, b: 45 },
        PaletteColor::Info => Rgb { r: 86, g: 104, b: 132 },
        PaletteColor::Accent => Rgb { r: 214, g: 40, b: 30 },
    }
}

/// The color a palette name is drawn with.
pub fn palette(color: PaletteColor) -> (c: Rgb)
    ensures
        c == palette_rgb(color),
{
    match color {
        PaletteColor::Text => Rgb { r: 30, g: 33, b: 40 },
        PaletteColor::Muted => Rgb { r: 109, g: 117, b: 132 },
        PaletteColor::Success => Rgb { r: 30, g: 158, b: 79 },
        PaletteColor::Warning => Rgb { r: 216, g: 140, b: 25 },
        PaletteColor::Danger => Rgb { r: 214, g: 45, b: 45 },
        PaletteColor::Info => Rgb { r: 86, g: 104, b: 132 },
        PaletteColor::Accent => Rgb { r: 214, g: 40, b: 30 },
    }
}

/// Half of `v`, rounded down.
pub fn half(v: i128) -> (r: i128)
    ensures
        r == v / 2,
{
    if v >= 0 {
        v / 2
    } else {
        let u = -(v + 1);
        -(u / 2) - 1
    }
}

/// A page of A4 size.
pub fn page_settings() -> (p: Page)
    ensures
        p.width == PAGE_W,
        p.height == PAGE_H,
        p.drawn() == Seq::<OpView>::empty(),
{
    Page::new(PAGE_W, PAGE_H)
}

// ---------- primitives ----------

/// A line of text whose baseline starts at `x`, `y` (bottom-left convention).
pub open spec fn text_op(
    family: Family,
    bold: bool,
    size: u32,
    x: int,
    y: int,
    color: Rgb,
    text: Seq<char>,
) -> OpView {
    OpView::Text {
        family,
        bold,
        size,
        x,
        y: PAGE_H - y,
        paint: Paint { fill: Some(color), stroke: None },
        text,
    }
}

/// A stroked segment between two points (bottom-left convention).
pub open spec fn line_op(x1: int, y1: int, x2: int, y2: int, width: i128, color: Rgb) -> OpView {
    OpView::Line {
        x1,
        y1: PAGE_H - y1,
        x2,
        y2: PAGE_H - y2,
        pen: Pen { color, width },
    }
}

/// The outline pen of a rectangle, if it has a border.
pub open spec fn border_pen(border: Option<Rgb>, width: i128) -> Option<Pen> {
    match border {
        Some(c) => Some(Pen { color: c, width }),
        None => None,
    }
}

/// A rectangle whose bottom-left corner is `x`, `y` and that rises `h`;
/// nothing when its width or height is negative.
pub open spec fn rect_ops(
    x: int,
    y: int,
    w: int,
    h: int,
    fill: Rgb,
    border: Option<Rgb>,
    border_width: i128,
) -> Seq<OpView> {
    if w >= 0 && h >= 0 {
        seq![
            OpView::Rect {
                x,
                y: PAGE_H - (y + h),
                w,
                h,
                paint: Paint { fill: Some(fill), stroke: border_pen(border, border_width) },
            },
        ]
    } else {
        seq![]
    }
}

/// Bound on layout coordinates (2^120 millipoints).
pub open spec fn layout_limit() -> int {
    0x100_0000_0000_0000_0000_0000_0000_0000
}

/// The extent in which layout coordinates are kept.
pub open spec fn in_layout(v: int) -> bool {
    -layout_limit() <= v <= layout_limit()
}

/// The extent in which the anchors handed to the drawing functions are kept
/// (2^100 millipoints), leaving room for the offsets they add.
pub open spec fn in_region(v: int) -> bool {
    -0x10_0000_0000_0000_0000_0000_0000 <= v <= 0x10_0000_0000_0000_0000_0000_0000
}

/// Draws one line of text with the fill color `color`.
pub fn draw_text(
    page: &mut Page,
    fonts: &FontPair,
    bold: bool,
    text: &str,
    size: u32,
    x: i128,
    y: i128,
    color: Rgb,
)
    requires
        in_layout(y as int),
    ensures
        final(page).width == old(page).width,
        final(page).height == old(page).height,
        final(page).drawn() == old(page).drawn().push(
            text_op(fonts.family, bold, size, x as int, y as int, color, text@),
        ),
{
    page.push(
        DrawOp::Text {
            family: fonts.family,
            bold,
            size,
            x,
            y: PAGE_H - y,
            paint: Paint { fill: Some(color), stroke: None },
            text: String::from_str(text),
        },
    );
}

/// Strokes a segment.
pub fn stroke_line(
    page: &mut Page,
    x1: i128,
    y1: i128,
    x2: i128,
    y2: i128,
    width: i128,
    color: Rgb,
)
    requires
        in_layout(y1 as int),
        in_layout(y2 as int),
    ensures
        final(page).width == old(page).width,
        final(page).height == old(page).height,
        final(page).drawn() == old(page).drawn().push(
            line_op(x1 as int, y1 as int, x2 as int, y2 as int, width, color),
        ),
{
    page.push(
        DrawOp::Line { x1, y1: PAGE_H - y1, x2, y2: PAGE_H - y2, pen: Pen { color, width } },
    );
}

/// Fills (and, with a border, outlines) a rectangle given by its
/// bottom-left corner; a rectangle of negative size is not drawn.
pub fn stroke_rect(
    page: &mut Page,
    x: i128,
    y: i128,
    w: i128,
    h: i128,
    fill: Rgb,
    border: Option<Rgb>,
    border_width: i128,
)
    requires
        in_layout(y as int),
        in_layout(h as int),
    ensures
        final(page).width == old(page).width,
        final(page).height == old(page).height,
        final(page).drawn() == old(page).drawn() + rect_ops(
            x as int,
            y as int,
            w as int,
            h as int,
            fill,
            border,
            border_width,
        ),
{
    if w < 0 || h < 0 {
        proof {
            assert(old(page).drawn() + Seq::<OpView>::empty() =~= old(page).drawn());
        }
        return ;
    }
    let stroke = match border {
        Some(c) => Some(Pen { color: c, width: border_width }),
        None => None,
    };
    let ghost before = page.drawn();
    page.push(
        DrawOp::Rect {
            frame: Frame { x, y: PAGE_H - (y + h), w, h },
            paint: Paint { fill: Some(fill), stroke },
        },
    );
    proof {
        assert(page.drawn() =~= before + rect_ops(
            x as int,
            y as int,
            w as int,
            h as int,
            fill,
            border,
            border_width,
        ));
    }
}

/// Fills a rectangle without border.
pub fn fill_rect(page: &mut Page, x: i128, y: i128, w: i128, h: i128, color: Rgb)
    requires
        in_layout(y as int),
        in_layout(h as int),
    ensures
        final(page).width == old(page).width,
        final(page).height == old(page).height,
        final(page).drawn() == old(page).drawn() + rect_ops(
            x as int,
            y as int,
            w as int,
            h as int,
            color,
            None,
            0,
        ),
{
    stroke_rect(page, x, y, w, h, color, None, 0);
}

// ---------- page base ----------

/// The page background: the letterhead over the whole page when there is
/// one, white otherwise.
pub open spec fn background_ops(letterhead: bool) -> Seq<OpView> {
    if letterhead {
        seq![OpView::Image { slot: ImageSlot::Letterhead, width: PAGE_W as int, height: PAGE_H as int }]
    } else {
        rect_ops(0, 0, PAGE_W as int, PAGE_H as int, tone_rgb(Tone::White), None, 0)
    }
}

/// Draws the page background.
pub fn draw_background(page: &mut Page, letterhead: bool)
    ensures
        final(page).width == old(page).width,
        final(page).height == old(page).height,
        final(page).drawn() == old(page).drawn() + background_ops(letterhead),
{
    if letterhead {
        let ghost before = page.drawn();
        page.push(DrawOp::Image { slot: ImageSlot::Letterhead, width: PAGE_W, height: PAGE_H });
        proof {
            assert(page.drawn() =~= before + background_ops(letterhead));
        }
    } else {
        fill_rect(page, 0, 0, PAGE_W, PAGE_H, tone(Tone::White));
    }
}

/// A centered bold title with an accent underline.
pub open spec fn title_ops(
    fonts_family: Family,
    bold_font: Seq<u8>,
    title: Seq<char>,
    size: u32,
    underline_half_width: int,
) -> Seq<OpView> {
    seq![
        text_op(
            fonts_family,
            true,
            size,
            (PAGE_W - text_width(bold_font, title, size as nat)) / 2,
            TITLE_Y as int,
            palette_rgb(PaletteColor::Text),
            title,
        ),
        line_op(
            PAGE_W / 2 - underline_half_width,
            TITLE_Y - 9000,
            PAGE_W / 2 + underline_half_width,
            TITLE_Y - 9000,
            1000,
            palette_rgb(PaletteColor::Accent),
        ),
    ]
}

/// Draws the title of continuation pages.
pub fn draw_title(
    page: &mut Page,
    title: &str,
    title_size: u32,
    underline_half_width: i128,
    fonts: &FontPair,
)
    requires
        in_layout(underline_half_width as int),
    ensures
        final(page).width == old(page).width,
        final(page).height == old(page).height,
        final(page).drawn() == old(page).drawn() + title_ops(
            fonts.family,
            fonts.bold@,
            title@,
            title_size,
            underline_half_width as int,
        ),
{
    let ghost before = page.drawn();
    let title_width = fonts.bold.width(title, title_size) as i128;
    let x = half(PAGE_W - title_width);
    draw_text(page, fonts, true, title, title_size, x, TITLE_Y, palette(PaletteColor::Text));
    stroke_line(
        page,
        PAGE_W / 2 - underline_half_width,
        TITLE_Y - 9000,
        PAGE_W / 2 + underline_half_width,
        TITLE_Y - 9000,
        1000,
        palette(PaletteColor::Accent),
    );
    proof {
        assert(page.drawn() =~= before + title_ops(
            fonts.family,
            fonts.bold@,
            title@,
            title_size,
            underline_half_width as int,
        ));
    }
}

// ---------- summary card ----------

/// Lines of text centered in the content width, the first with its
/// baseline at `y0` and each next one `step` lower.
pub open spec fn centered_line_ops(
    family: Family,
    bold: bool,
    font: Seq<u8>,
    size: u32,
    color: Rgb,
    lines: Seq<Seq<char>>,
    y0: int,
    step: int,
) -> Seq<OpView> {
    Seq::new(
        lines.len(),
        |i: int|
            text_op(
                family,
                bold,
                size,
                CONTENT_X + (CONTENT_W - text_width(font, lines[i], size as nat)) / 2,
                y0 - i * step,
                color,
                lines[i],
            ),
    )
}

/// Width of each of the two columns of the summary card.
pub open spec fn summary_column_width() -> int {
    224640
}

/// Rows of the summary card: two items per row, at least one row.
pub open spec fn summary_rows(n_items: int) -> int {
    if n_items <= 0 {
        1
    } else {
        (n_items + 1) / 2
    }
}

/// Where the summary card's top edge goes, below the title block.
pub open spec fn summary_top(
    regular: Seq<u8>,
    bold: Seq<u8>,
    title: Seq<char>,
    subtitle: Seq<char>,
) -> int {
    let cursor = TITLE_Y + 2000 - wrap_lines(bold, 15000, CONTENT_W as int, title).len() * 19200;
    let block_bottom = if is_blank_seq(subtitle) {
        cursor
    } else {
        cursor - 14000 - wrap_lines(regular, 8500, CONTENT_W as int, subtitle).len() * 11730
    };
    block_bottom - 22000
}

/// Height of the summary card.
pub open spec fn summary_card_height(n_items: int) -> int {
    18000 + summary_rows(n_items) * 38000
}

/// The label and value of summary item `i`: the label upper-cased and
/// truncated to the column, the value in at most two bold lines.
pub open spec fn item_ops(
    family: Family,
    regular: Seq<u8>,
    bold: Seq<u8>,
    items: Seq<SummaryItem>,
    i: int,
    top: int,
) -> Seq<OpView> {
    let x = CONTENT_X + 16000 + (i % 2) * (summary_column_width() + 18000);
    let y = top - 18000 - (i / 2) * 38000;
    let label = fit_text(regular, 6800, summary_column_width(), unicode_upper(items[i].label@));
    let value = limited_lines(bold, 9200, summary_column_width(), items[i].value@, 2);
    seq![text_op(family, false, 6800, x, y, palette_rgb(PaletteColor::Muted), label)] + Seq::new(
        value.len(),
        |li: int|
            text_op(
                family,
                true,
                9200,
                x,
                y - 12000 - li * 10500,
                palette_rgb(items[i].color),
                value[li],
            ),
    )
}

/// The first `k` summary items, in order.
pub open spec fn items_ops(
    family: Family,
    regular: Seq<u8>,
    bold: Seq<u8>,
    items: Seq<SummaryItem>,
    k: int,
    top: int,
) -> Seq<OpView>
    decreases k,
{
    if k <= 0 {
        seq![]
    } else {
        items_ops(family, regular, bold, items, k - 1, top) + item_ops(
            family,
            regular,
            bold,
            items,
            k - 1,
            top,
        )
    }
}

/// Horizontal rules between the rows of the summary card.
pub open spec fn summary_rule_ops(top: int, rows: int) -> Seq<OpView> {
    Seq::new(
        if rows > 1 {
            (rows - 1) as nat
        } else {
            0
        },
        |j: int|
            line_op(
                CONTENT_X + 16000,
                top - 10000 - (j + 1) * 38000,
                CONTENT_X + CONTENT_W - 16000,
                top - 10000 - (j + 1) * 38000,
                500,
                tone_rgb(Tone::Border),
            ),
    )
}

/// The first page's header: the title wrapped and centered, the subtitle
/// wrapped and centered below it, an accent rule, and the summary card
/// (white bordered panel, accent bar on top, rules between rows, a divider
/// between the two columns, and the items two per row).
pub open spec fn summary_ops(
    family: Family,
    regular: Seq<u8>,
    bold: Seq<u8>,
    title: Seq<char>,
    subtitle: Seq<char>,
    items: Seq<SummaryItem>,
) -> Seq<OpView> {
    let title_lines = wrap_lines(bold, 15000, CONTENT_W as int, title);
    let cursor = TITLE_Y + 2000 - title_lines.len() * 19200;
    let top = summary_top(regular, bold, title, subtitle);
    let card_h = summary_card_height(items.len() as int);
    let card_y = top - card_h;
    let divider_x = CONTENT_X + 16000 + summary_column_width() + 9000;
    centered_line_ops(
        family,
        true,
        bold,
        15000,
        palette_rgb(PaletteColor::Text),
        title_lines,
        TITLE_Y + 2000,
        19200,
    ) + centered_line_ops(
        family,
        false,
        regular,
        8500,
        palette_rgb(PaletteColor::Muted),
        wrap_lines(regular, 8500, CONTENT_W as int, subtitle),
        cursor - 14000,
        11730,
    ) + seq![
        line_op(
            PAGE_W / 2 - 39000,
            top + 8000,
            PAGE_W / 2 + 39000,
            top + 8000,
            1200,
            palette_rgb(PaletteColor::Accent),
        ),
    ] + rect_ops(
        CONTENT_X as int,
        card_y,
        CONTENT_W as int,
        card_h,
        tone_rgb(Tone::White),
        Some(tone_rgb(Tone::PanelBorder)),
        1000,
    ) + rect_ops(
        CONTENT_X as int,
        top - 3000,
        CONTENT_W as int,
        3000,
        palette_rgb(PaletteColor::Accent),
        None,
        0,
    ) + summary_rule_ops(top, summary_rows(items.len() as int)) + seq![
        line_op(divider_x, card_y + 10000, divider_x, top - 12000, 500, tone_rgb(Tone::Border)),
    ] + items_ops(family, regular, bold, items, items.len() as int, top)
}

/// Draws `lines` centered, from `y0` down by `step`; returns the y below
/// the last line.
fn draw_centered_lines(
    page: &mut Page,
    fonts: &FontPair,
    bold: bool,
    size: u32,
    color: Rgb,
    lines: &Vec<String>,
    y0: i128,
    step: i128,
) -> (r: i128)
    requires
        -0x10_0000_0000_0000_0000_0000_0000 <= y0 <= 0x10_0000_0000_0000_0000_0000_0000,
        0 <= step <= 100000,
    ensures
        r == y0 - lines@.len() * step,
        y0 - 0x1_0000_0000_0000_0000 * 100000 <= r <= y0,
        final(page).width == old(page).width,
        final(page).height == old(page).height,
        final(page).drawn() == old(page).drawn() + centered_line_ops(
            fonts.family,
            bold,
            if bold {
                fonts.bold@
            } else {
                fonts.regular@
            },
            size,
            color,
            strs(lines@),
            y0 as int,
            step as int,
        ),
{
    let ghost before = page.drawn();
    let font = fonts.pick(bold);
    let ghost all = centered_line_ops(
        fonts.family,
        bold,
        font@,
        size,
        color,
        strs(lines@),
        y0 as int,
        step as int,
    );
    let n = lines.len();
    let mut cursor = y0;
    proof {
        assert(0 * step == 0) by (nonlinear_arith);
    }
    for i in 0..n
        invariant
            n == lines@.len(),
            font@ == if bold {
                fonts.bold@
            } else {
                fonts.regular@
            },
            all == centered_line_ops(
                fonts.family,
                bold,
                font@,
                size,
                color,
                strs(lines@),
                y0 as int,
                step as int,
            ),
            -0x10_0000_0000_0000_0000_0000_0000 <= y0 <= 0x10_0000_0000_0000_0000_0000_0000,
            0 <= step <= 100000,
            cursor == y0 - i * step,
            page.width == old(page).width,
            page.height == old(page).height,
            page.drawn() == before + all.take(i as int),
    {
        proof {
            assert(i * step <= 0x1_0000_0000_0000_0000 * 100000) by (nonlinear_arith)
                requires
                    0 <= i <= 0x1_0000_0000_0000_0000,
                    0 <= step <= 100000,
            ;
        }
        let line = &lines[i];
        let line_width = font.width(line.as_str(), size) as i128;
        draw_text(
            page,
            fonts,
            bold,
            line.as_str(),
            size,
            CONTENT_X + half(CONTENT_W - line_width),
            cursor,
            color,
        );
        proof {
            assert(strs(lines@)[i as int] == lines@[i as int]@);
            assert(all.take(i + 1) =~= all.take(i as int).push(all[i as int]));
            assert((i + 1) * step == i * step + step) by (nonlinear_arith);
        }
        cursor = cursor - step;
    }
    proof {
        assert(all.take(n as int) =~= all);
        assert(n * step <= 0x1_0000_0000_0000_0000 * 100000) by (nonlinear_arith)
            requires
                0 <= n <= 0x1_0000_0000_0000_0000,
                0 <= step <= 100000,
        ;
        assert(n * step >= 0) by (nonlinear_arith)
            requires
                0 <= n,
                0 <= step,
        ;
    }
    cursor
}

/// The title and subtitle block with the accent rule under it.
pub open spec fn heading_ops(
    family: Family,
    regular: Seq<u8>,
    bold: Seq<u8>,
    title: Seq<char>,
    subtitle: Seq<char>,
) -> Seq<OpView> {
    let title_lines = wrap_lines(bold, 15000, CONTENT_W as int, title);
    let cursor = TITLE_Y + 2000 - title_lines.len() * 19200;
    let top = summary_top(regular, bold, title, subtitle);
    centered_line_ops(
        family,
        true,
        bold,
        15000,
        palette_rgb(PaletteColor::Text),
        title_lines,
        TITLE_Y + 2000,
        19200,
    ) + centered_line_ops(
        family,
        false,
        regular,
        8500,
        palette_rgb(PaletteColor::Muted),
        wrap_lines(regular, 8500, CONTENT_W as int, subtitle),
        cursor - 14000,
        11730,
    ) + seq![
        line_op(
            PAGE_W / 2 - 39000,
            top + 8000,
            PAGE_W / 2 + 39000,
            top + 8000,
            1200,
            palette_rgb(PaletteColor::Accent),
        ),
    ]
}

/// The empty summary card under `top`: panel, accent bar, row rules and
/// column divider.
pub open spec fn card_frame_ops(top: int, n_items: int) -> Seq<OpView> {
    let card_h = summary_card_height(n_items);
    let card_y = top - card_h;
    let divider_x = CONTENT_X + 16000 + summary_column_width() + 9000;
    rect_ops(
        CONTENT_X as int,
        card_y,
        CONTENT_W as int,
        card_h,
        tone_rgb(Tone::White),
        Some(tone_rgb(Tone::PanelBorder)),
        1000,
    ) + rect_ops(
        CONTENT_X as int,
        top - 3000,
        CONTENT_W as int,
        3000,
        palette_rgb(PaletteColor::Accent),
        None,
        0,
    ) + summary_rule_ops(top, summary_rows(n_items)) + seq![
        line_op(divider_x, card_y + 10000, divider_x, top - 12000, 500, tone_rgb(Tone::Border)),
    ]
}

proof fn lemma_summary_ops(
    family: Family,
    regular: Seq<u8>,
    bold: Seq<u8>,
    title: Seq<char>,
    subtitle: Seq<char>,
    items: Seq<SummaryItem>,
)
    ensures
        summary_ops(family, regular, bold, title, subtitle, items) == heading_ops(
            family,
            regular,
            bold,
            title,
            subtitle,
        ) + card_frame_ops(summary_top(regular, bold, title, subtitle), items.len() as int)
            + items_ops(
            family,
            regular,
            bold,
            items,
            items.len() as int,
            summary_top(regular, bold, title, subtitle),
        ),
{
    assert(summary_ops(family, regular, bold, title, subtitle, items) =~= heading_ops(
        family,
        regular,
        bold,
        title,
        subtitle,
    ) + card_frame_ops(summary_top(regular, bold, title, subtitle), items.len() as int)
        + items_ops(
        family,
        regular,
        bold,
        items,
        items.len() as int,
        summary_top(regular, bold, title, subtitle),
    ));
}

/// Bound on the y of the summary card's top edge.
pub open spec fn in_summary_band(v: int) -> bool {
    -0x400_0000_0000_0000_0000_0000 <= v <= 0x400_0000_0000_0000_0000_0000
}

proof fn lemma_item_label_at(
    family: Family,
    regular: Seq<u8>,
    bold: Seq<u8>,
    items: Seq<SummaryItem>,
    n: int,
    top: int,
    i: int,
)
    requires
        0 <= i < n,
    ensures
        items_ops(family, regular, bold, items, i, top).len() < items_ops(
            family,
            regular,
            bold,
            items,
            n,
            top,
        ).len(),
        items_ops(family, regular, bold, items, n, top)[items_ops(
            family,
            regular,
            bold,
            items,
            i,
            top,
        ).len() as int] == item_ops(family, regular, bold, items, i, top)[0],
    decreases n,
{
    let prev = items_ops(family, regular, bold, items, n - 1, top);
    let last = item_ops(family, regular, bold, items, n - 1, top);
    assert(items_ops(family, regular, bold, items, n, top) == prev + last);
    if i < n - 1 {
        lemma_item_label_at(family, regular, bold, items, n - 1, top, i);
    }
}

/// Summary items go two per row, side by side: the label of item `i`
/// (upper-cased, fitted to its column, regular 6.8 pt, muted) is drawn with
/// its left edge 16 pt inside the card, plus 242.64 pt when `i` is odd, and
/// its baseline 18 pt under the card's top edge plus 38 pt for every row
/// above it; so no two items share a place.
pub proof fn lemma_summary_item_places(
    family: Family,
    regular: Seq<u8>,
    bold: Seq<u8>,
    title: Seq<char>,
    subtitle: Seq<char>,
    items: Seq<SummaryItem>,
)
    ensures
        forall|i: int|
            0 <= i < items.len() ==> exists|k: int|
                0 <= k < summary_ops(family, regular, bold, title, subtitle, items).len()
                    && summary_ops(family, regular, bold, title, subtitle, items)[k]
                    == (OpView::Text {
                    family,
                    bold: false,
                    size: 6800,
                    x: 48000 + 16000 + (i % 2) * (224640 + 18000),
                    y: 841890 - (summary_top(regular, bold, title, subtitle) - 18000 - (i / 2)
                        * 38000),
                    paint: Paint { fill: Some(Rgb { r: 109, g: 117, b: 132 }), stroke: None },
                    text: fit_text(regular, 6800, 224640, unicode_upper((#[trigger] items[i]).label@)),
                }),
{
    let top = summary_top(regular, bold, title, subtitle);
    let n = items.len() as int;
    let all = summary_ops(family, regular, bold, title, subtitle, items);
    let before = heading_ops(family, regular, bold, title, subtitle) + card_frame_ops(top, n);
    lemma_summary_ops(family, regular, bold, title, subtitle, items);
    assert(all == before + items_ops(family, regular, bold, items, n, top));
    assert forall|i: int| 0 <= i < items.len() implies exists|k: int|
        0 <= k < all.len() && all[k] == (OpView::Text {
            family,
            bold: false,
            size: 6800,
            x: 48000 + 16000 + (i % 2) * (224640 + 18000),
            y: 841890 - (top - 18000 - (i / 2) * 38000),
            paint: Paint { fill: Some(Rgb { r: 109, g: 117, b: 132 }), stroke: None },
            text: fit_text(regular, 6800, 224640, unicode_upper((#[trigger] items[i]).label@)),
        }) by {
        lemma_item_label_at(family, regular, bold, items, n, top, i);
        let k = (before.len() + items_ops(family, regular, bold, items, i, top).len()) as int;
        assert(all[k] == item_ops(family, regular, bold, items, i, top)[0]);
    }
}

fn draw_heading(page: &mut Page, title: &str, subtitle: &str, fonts: &FontPair) -> (top: i128)
    ensures
        top == summary_top(fonts.regular@, fonts.bold@, title@, subtitle@),
        in_summary_band(top as int),
        final(page).width == old(page).width,
        final(page).height == old(page).height,
        final(page).drawn() == old(page).drawn() + heading_ops(
            fonts.family,
            fonts.regular@,
            fonts.bold@,
            title@,
            subtitle@,
        ),
{
    let ghost before = page.drawn();
    let title_lines = wrap(title, &fonts.bold, 15000, CONTENT_W);
    let cursor = draw_centered_lines(
        page,
        fonts,
        true,
        15000,
        palette(PaletteColor::Text),
        &title_lines,
        TITLE_Y + 2000,
        19200,
    );
    let subtitle_lines = wrap(subtitle, &fonts.regular, 8500, CONTENT_W);
    let sub_end = draw_centered_lines(
        page,
        fonts,
        false,
        8500,
        palette(PaletteColor::Muted),
        &subtitle_lines,
        cursor - 14000,
        11730,
    );
    let block_bottom = if !is_blank(subtitle) {
        sub_end
    } else {
        cursor
    };
    let summary_top = block_bottom - 22000;
    stroke_line(
        page,
        PAGE_W / 2 - 39000,
        summary_top + 8000,
        PAGE_W / 2 + 39000,
        summary_top + 8000,
        1200,
        palette(PaletteColor::Accent),
    );
    proof {
        assert(page.drawn() =~= before + heading_ops(
            fonts.family,
            fonts.regular@,
            fonts.bold@,
            title@,
            subtitle@,
        ));
    }
    summary_top
}

fn draw_card_frame(page: &mut Page, summary_top: i128, n: usize) -> (card_y: i128)
    requires
        in_summary_band(summary_top as int),
    ensures
        card_y == summary_top - summary_card_height(n as int),
        final(page).width == old(page).width,
        final(page).height == old(page).height,
        final(page).drawn() == old(page).drawn() + card_frame_ops(summary_top as int, n as int),
{
    let ghost before = page.drawn();
    let row_count: i128 = if n == 0 {
        1
    } else {
        ((n as i128) + 1) / 2
    };
    let card_height = 18000 + row_count * 38000;
    let card_y = summary_top - card_height;
    stroke_rect(
        page,
        CONTENT_X,
        card_y,
        CONTENT_W,
        card_height,
        tone(Tone::White),
        Some(tone(Tone::PanelBorder)),
        1000,
    );
    fill_rect(page, CONTENT_X, summary_top - 3000, CONTENT_W, 3000, palette(PaletteColor::Accent));
    let ghost rules_start = page.drawn();
    let ghost rules = summary_rule_ops(summary_top as int, row_count as int);
    let mut row_index: i128 = 1;
    while row_index < row_count
        invariant
            1 <= row_index <= row_count,
            1 <= row_count <= 0x1_0000_0000_0000_0000,
            in_summary_band(summary_top as int),
            rules == summary_rule_ops(summary_top as int, row_count as int),
            page.width == old(page).width,
            page.height == old(page).height,
            page.drawn() == rules_start + rules.take(row_index - 1),
        decreases row_count - row_index,
    {
        let y = summary_top - 10000 - row_index * 38000;
        stroke_line(
            page,
            CONTENT_X + 16000,
            y,
            CONTENT_X + CONTENT_W - 16000,
            y,
            500,
            tone(Tone::Border),
        );
        proof {
            assert(rules.take(row_index as int) =~= rules.take(row_index - 1).push(
                rules[row_index - 1],
            ));
        }
        row_index = row_index + 1;
    }
    let divider_x: i128 = CONTENT_X + 16000 + 224640 + 9000;
    stroke_line(
        page,
        divider_x,
        card_y + 10000,
        divider_x,
        summary_top - 12000,
        500,
        tone(Tone::Border),
    );
    proof {
        assert(rules.take(row_count - 1) =~= rules);
        assert(page.drawn() =~= before + card_frame_ops(summary_top as int, n as int));
    }
    card_y
}

fn draw_item(page: &mut Page, items: &[SummaryItem], i: usize, summary_top: i128, fonts: &FontPair)
    requires
        i < items@.len(),
        in_summary_band(summary_top as int),
    ensures
        final(page).width == old(page).width,
        final(page).height == old(page).height,
        final(page).drawn() == old(page).drawn() + item_ops(
            fonts.family,
            fonts.regular@,
            fonts.bold@,
            items@,
            i as int,
            summary_top as int,
        ),
{
    let ghost item_start = page.drawn();
    let ghost one = item_ops(
        fonts.family,
        fonts.regular@,
        fonts.bold@,
        items@,
        i as int,
        summary_top as int,
    );
    let column_width: i128 = 224640;
    let item = &items[i];
    let column_index = i % 2;
    let row = i / 2;
    let x = CONTENT_X + 16000 + (column_index as i128) * (column_width + 18000);
    let top_y = summary_top - 18000 - (row as i128) * 38000;
    let upper = to_upper(item.label.as_str());
    let label = fit(upper.as_str(), &fonts.regular, 6800, column_width);
    draw_text(page, fonts, false, label.as_str(), 6800, x, top_y, palette(PaletteColor::Muted));
    let value_lines = limited_wrap(item.value.as_str(), &fonts.bold, 9200, column_width, 2);
    let m = value_lines.len();
    for li in 0..m
        invariant
            m == value_lines@.len(),
            m <= 2,
            one == item_ops(
                fonts.family,
                fonts.regular@,
                fonts.bold@,
                items@,
                i as int,
                summary_top as int,
            ),
            i < items@.len(),
            item == items@[i as int],
            strs(value_lines@) == limited_lines(
                fonts.bold@,
                9200,
                summary_column_width(),
                items@[i as int].value@,
                2,
            ),
            x == CONTENT_X + 16000 + (i % 2) * (summary_column_width() + 18000),
            top_y == summary_top - 18000 - (i / 2) * 38000,
            -0x1_0000_0000_0000_0000_0000_0000 <= top_y <= 0x1_0000_0000_0000_0000_0000_0000,
            page.width == old(page).width,
            page.height == old(page).height,
            page.drawn() == item_start + one.take(li + 1),
    {
        proof {
            assert(strs(value_lines@)[li as int] == value_lines@[li as int]@);
        }
        draw_text(
            page,
            fonts,
            true,
            value_lines[li].as_str(),
            9200,
            x,
            top_y - 12000 - (li as i128) * 10500,
            palette(item.color),
        );
        proof {
            assert(one.take(li + 2) =~= one.take(li + 1).push(one[li + 1]));
        }
    }
    proof {
        assert(one.take(m + 1) =~= one);
    }
}

/// Draws the title, subtitle and summary card of the first page; returns
/// the y of the card's bottom edge.
pub fn draw_summary(
    page: &mut Page,
    title: &str,
    subtitle: &str,
    items: &[SummaryItem],
    fonts: &FontPair,
) -> (r: i128)
    ensures
        r == summary_top(fonts.regular@, fonts.bold@, title@, subtitle@) - summary_card_height(
            items@.len() as int,
        ),
        -0x1_0000_0000_0000_0000_0000_0000 <= r <= 0x1_0000_0000_0000_0000_0000_0000,
        final(page).width == old(page).width,
        final(page).height == old(page).height,
        final(page).drawn() == old(page).drawn() + summary_ops(
            fonts.family,
            fonts.regular@,
            fonts.bold@,
            title@,
            subtitle@,
            items@,
        ),
{
    let ghost before = page.drawn();
    let summary_top = draw_heading(page, title, subtitle, fonts);
    let ghost after_heading = page.drawn();
    let n = items.len();
    let card_y = draw_card_frame(page, summary_top, n);
    let ghost items_start = page.drawn();
    for i in 0..n
        invariant
            n == items@.len(),
            in_summary_band(summary_top as int),
            page.width == old(page).width,
            page.height == old(page).height,
            page.drawn() == items_start + items_ops(
                fonts.family,
                fonts.regular@,
                fonts.bold@,
                items@,
                i as int,
                summary_top as int,
            ),
    {
        draw_item(page, items, i, summary_top, fonts);
    }
    proof {
        lemma_summary_ops(fonts.family, fonts.regular@, fonts.bold@, title@, subtitle@, items@);
        assert(page.drawn() =~= before + summary_ops(
            fonts.family,
            fonts.regular@,
            fonts.bold@,
            title@,
            subtitle@,
            items@,
        ));
    }
    card_y
}

// ---------- table ----------

/// A resolved table column: its label, left edge and width.
pub struct Column {
    pub label: String,
    pub x: i128,
    pub width: i128,
}

/// The content of a column.
pub struct ColumnView {
    pub label: Seq<char>,
    pub x: int,
    pub width: int,
}

impl View for Column {
    type V = ColumnView;

    open spec fn view(&self) -> ColumnView {
        ColumnView { label: self.label@, x: self.x as int, width: self.width as int }
    }
}

pub open spec fn column_views(cs: Seq<Column>) -> Seq<ColumnView> {
    cs.map_values(|c: Column| c@)
}

/// Sum of the widths of the first `k` column specs.
pub open spec fn width_sum(specs: Seq<ColumnSpec>, k: int) -> int
    decreases k,
{
    if k <= 0 {
        0
    } else {
        width_sum(specs, k - 1) + specs[k - 1].width
    }
}

proof fn lemma_width_sum_bound(specs: Seq<ColumnSpec>, k: int)
    requires
        0 <= k <= specs.len(),
    ensures
        -k * 0x8000_0000 <= width_sum(specs, k) <= k * 0x7fff_ffff,
    decreases k,
{
    if k > 0 {
        lemma_width_sum_bound(specs, k - 1);
    }
}

/// A column whose edges stay within the layout extent.
pub open spec fn column_in_layout(c: ColumnView) -> bool {
    in_layout(c.x) && in_layout(c.width)
}

/// Columns laid out left to right from the content's left edge, each as
/// wide as its spec.
pub open spec fn column_layout(specs: Seq<ColumnSpec>) -> Seq<ColumnView> {
    Seq::new(
        specs.len(),
        |i: int|
            ColumnView {
                label: specs[i].label@,
                x: CONTENT_X + width_sum(specs, i),
                width: specs[i].width as int,
            },
    )
}

/// Lays out columns left to right from the content's left edge.
pub fn build_columns(specs: &Vec<ColumnSpec>) -> (columns: Vec<Column>)
    ensures
        columns@.len() == specs@.len(),
        forall|i: int|
            0 <= i < specs@.len() ==> {
                &&& (#[trigger] columns@[i]).label@ == specs@[i].label@
                &&& columns@[i].x == CONTENT_X + width_sum(specs@, i)
                &&& columns@[i].width == specs@[i].width
                &&& column_in_layout(columns@[i]@)
            },
        column_views(columns@) == column_layout(specs@),
{
    let n = specs.len();
    let mut columns: Vec<Column> = Vec::new();
    let mut x: i128 = CONTENT_X;
    for i in 0..n
        invariant
            n == specs@.len(),
            columns@.len() == i,
            x == CONTENT_X + width_sum(specs@, i as int),
            forall|k: int|
                0 <= k < i ==> {
                    &&& (#[trigger] columns@[k]).label@ == specs@[k].label@
                    &&& columns@[k].x == CONTENT_X + width_sum(specs@, k)
                    &&& columns@[k].width == specs@[k].width
                    &&& column_in_layout(columns@[k]@)
                },
    {
        proof {
            lemma_width_sum_bound(specs@, i + 1);
            lemma_width_sum_bound(specs@, i as int);
            assert((i + 1) * 0x7fff_ffff <= 0x1_0000_0000_0000_0000 * 0x7fff_ffff) by (
            nonlinear_arith)
                requires
                    i + 1 <= 0x1_0000_0000_0000_0000,
            ;
            assert((i + 1) * 0x8000_0000 <= 0x1_0000_0000_0000_0000 * 0x8000_0000) by (
            nonlinear_arith)
                requires
                    i + 1 <= 0x1_0000_0000_0000_0000,
            ;
        }
        let spec_i = &specs[i];
        columns.push(Column { label: spec_i.label.clone(), x, width: spec_i.width as i128 });
        x = x + spec_i.width as i128;
    }
    proof {
        assert(column_views(columns@) =~= column_layout(specs@));
    }
    columns
}

/// Vertical separators at the left edge of every column but the first,
/// from `bottom_y` up `height`.
pub open spec fn separator_ops(columns: Seq<ColumnView>, bottom_y: int, height: int) -> Seq<
    OpView,
> {
    Seq::new(
        if columns.len() > 0 {
            (columns.len() - 1) as nat
        } else {
            0
        },
        |i: int|
            line_op(
                columns[i + 1].x,
                bottom_y,
                columns[i + 1].x,
                bottom_y + height,
                600,
                tone_rgb(Tone::Border),
            ),
    )
}

pub open spec fn columns_in_layout(columns: Seq<ColumnView>) -> bool {
    forall|i: int| 0 <= i < columns.len() ==> column_in_layout(#[trigger] columns[i])
}

fn draw_column_separators(page: &mut Page, columns: &[Column], bottom_y: i128, height: i128)
    requires
        in_layout(bottom_y as int),
        in_layout(bottom_y + height),
        columns_in_layout(column_views(columns@)),
    ensures
        final(page).width == old(page).width,
        final(page).height == old(page).height,
        final(page).drawn() == old(page).drawn() + separator_ops(
            column_views(columns@),
            bottom_y as int,
            height as int,
        ),
{
    let ghost before = page.drawn();
    let n = columns.len();
    let count = if n > 0 {
        n - 1
    } else {
        0
    };
    for j in 0..count
        invariant
            n == columns@.len(),
            count == if n > 0 {
                n - 1
            } else {
                0
            },
            in_layout(bottom_y as int),
            in_layout(bottom_y + height),
            page.width == old(page).width,
            page.height == old(page).height,
            page.drawn() == before + Seq::new(
                j as nat,
                |i: int|
                    line_op(
                        column_views(columns@)[i + 1].x,
                        bottom_y as int,
                        column_views(columns@)[i + 1].x,
                        bottom_y + height,
                        600,
                        tone_rgb(Tone::Border),
                    ),
            ),
    {
        let x = columns[j + 1].x;
        let ghost mid = page.drawn();
        stroke_line(page, x, bottom_y, x, bottom_y + height, 600, tone(Tone::Border));
        proof {
            let f = |i: int|
                line_op(
                    column_views(columns@)[i + 1].x,
                    bottom_y as int,
                    column_views(columns@)[i + 1].x,
                    bottom_y + height,
                    600,
                    tone_rgb(Tone::Border),
                );
            assert(Seq::new((j + 1) as nat, f) =~= Seq::new(j as nat, f).push(f(j as int)));
            assert(before + Seq::new((j + 1) as nat, f) =~= (before + Seq::new(j as nat, f)).push(
                f(j as int),
            ));
        }
    }
    proof {
        assert(page.drawn() =~= before + separator_ops(
            column_views(columns@),
            bottom_y as int,
            height as int,
        ));
    }
}

/// Header labels, bold, centered in their columns.
pub open spec fn header_label_ops(
    family: Family,
    bold_font: Seq<u8>,
    columns: Seq<ColumnView>,
    header_y: int,
) -> Seq<OpView> {
    Seq::new(
        columns.len(),
        |i: int|
            text_op(
                family,
                true,
                TABLE_FONT_SIZE,
                columns[i].x + (columns[i].width - text_width(
                    bold_font,
                    columns[i].label,
                    TABLE_FONT_SIZE as nat,
                )) / 2,
                header_y + 8000,
                palette_rgb(PaletteColor::Text),
                columns[i].label,
            ),
    )
}

/// A table header whose top edge is at `top_y`: shaded band with border,
/// accent rule on top, column separators and centered bold labels.
pub open spec fn header_ops(
    family: Family,
    bold_font: Seq<u8>,
    columns: Seq<ColumnView>,
    top_y: int,
) -> Seq<OpView> {
    let header_y = top_y - TABLE_HEADER_HEIGHT;
    rect_ops(
        CONTENT_X as int,
        header_y,
        CONTENT_W as int,
        TABLE_HEADER_HEIGHT as int,
        tone_rgb(Tone::HeaderSurface),
        Some(tone_rgb(Tone::Border)),
        1000,
    ) + seq![
        line_op(
            CONTENT_X as int,
            top_y,
            CONTENT_X + CONTENT_W,
            top_y,
            1000,
            palette_rgb(PaletteColor::Accent),
        ),
    ] + separator_ops(columns, header_y, TABLE_HEADER_HEIGHT as int) + header_label_ops(
        family,
        bold_font,
        columns,
        header_y,
    )
}

/// Draws a table header; returns the y of its bottom edge, where the
/// first row starts.
pub fn draw_table_header(page: &mut Page, columns: &[Column], top_y: i128, fonts: &FontPair) -> (r:
    i128)
    requires
        in_region(top_y as int),
        columns_in_layout(column_views(columns@)),
    ensures
        r == top_y - TABLE_HEADER_HEIGHT,
        final(page).width == old(page).width,
        final(page).height == old(page).height,
        final(page).drawn() == old(page).drawn() + header_ops(
            fonts.family,
            fonts.bold@,
            column_views(columns@),
            top_y as int,
        ),
{
    let ghost before = page.drawn();
    let header_y = top_y - TABLE_HEADER_HEIGHT;
    stroke_rect(
        page,
        CONTENT_X,
        header_y,
        CONTENT_W,
        TABLE_HEADER_HEIGHT,
        tone(Tone::HeaderSurface),
        Some(tone(Tone::Border)),
        1000,
    );
    stroke_line(
        page,
        CONTENT_X,
        top_y,
        CONTENT_X + CONTENT_W,
        top_y,
        1000,
        palette(PaletteColor::Accent),
    );
    draw_column_separators(page, columns, header_y, TABLE_HEADER_HEIGHT);
    let ghost mid = page.drawn();
    let n = columns.len();
    for i in 0..n
        invariant
            n == columns@.len(),
            columns_in_layout(column_views(columns@)),
            in_region(top_y as int),
            header_y == top_y - TABLE_HEADER_HEIGHT,
            page.width == old(page).width,
            page.height == old(page).height,
            page.drawn() == mid + header_label_ops(
                fonts.family,
                fonts.bold@,
                column_views(columns@),
                header_y as int,
            ).take(i as int),
    {
        let column = &columns[i];
        proof {
            assert(column_in_layout(column_views(columns@)[i as int]));
        }
        let text_width = fonts.bold.width(column.label.as_str(), TABLE_FONT_SIZE) as i128;
        let x = column.x + half(column.width - text_width);
        draw_text(
            page,
            fonts,
            true,
            column.label.as_str(),
            TABLE_FONT_SIZE,
            x,
            header_y + 8000,
            palette(PaletteColor::Text),
        );
        proof {
            let all = header_label_ops(
                fonts.family,
                fonts.bold@,
                column_views(columns@),
                header_y as int,
            );
            assert(all.take(i + 1) =~= all.take(i as int).push(all[i as int]));
        }
    }
    proof {
        let all = header_label_ops(
            fonts.family,
            fonts.bold@,
            column_views(columns@),
            header_y as int,
        );
        assert(all.take(n as int) =~= all);
        assert(page.drawn() =~= before + header_ops(
            fonts.family,
            fonts.bold@,
            column_views(columns@),
            top_y as int,
        ));
    }
    header_y
}

/// A table cell already wrapped into lines, ready to draw.
pub struct PreparedCell {
    pub lines: Vec<String>,
    pub bold: bool,
    pub color: PaletteColor,
}

/// The content of a prepared cell.
pub struct CellView {
    pub lines: Seq<Seq<char>>,
    pub bold: bool,
    pub color: PaletteColor,
}

impl View for PreparedCell {
    type V = CellView;

    open spec fn view(&self) -> CellView {
        CellView { lines: strs(self.lines@), bold: self.bold, color: self.color }
    }
}

pub open spec fn cell_views(cs: Seq<PreparedCell>) -> Seq<CellView> {
    cs.map_values(|c: PreparedCell| c@)
}

/// The largest line count among the first `k` cells, counting an empty
/// cell as one line; one when there are no cells.
pub open spec fn max_cell_lines(cells: Seq<CellView>, k: int) -> int
    decreases k,
{
    if k <= 0 {
        1
    } else {
        let prev = max_cell_lines(cells, k - 1);
        let here = cells[k - 1].lines.len() as int;
        if here > prev {
            here
        } else {
            prev
        }
    }
}

/// Row height: room for the tallest cell, at least the minimum row height.
pub open spec fn row_height_spec(cells: Seq<CellView>) -> int {
    let tall = max_cell_lines(cells, cells.len() as int) * TABLE_LINE_HEIGHT + 12000;
    if tall > MIN_ROW_HEIGHT {
        tall
    } else {
        MIN_ROW_HEIGHT as int
    }
}

proof fn lemma_max_cell_lines_bound(cells: Seq<PreparedCell>, k: int)
    requires
        0 <= k <= cells.len(),
    ensures
        1 <= max_cell_lines(cell_views(cells), k) <= 0x1_0000_0000_0000_0000,
    decreases k,
{
    if k > 0 {
        lemma_max_cell_lines_bound(cells, k - 1);
        assert(cells[k - 1].lines.len() == cells[k - 1].lines@.len());
        assert(cell_views(cells)[k - 1].lines.len() == cells[k - 1].lines@.len());
    }
}

/// Height of a table row holding `cells`.
pub fn row_height(cells: &[PreparedCell]) -> (h: i128)
    ensures
        h == row_height_spec(cell_views(cells@)),
        MIN_ROW_HEIGHT <= h <= 0x1_0000_0000_0000_0000 * TABLE_LINE_HEIGHT + 12000,
{
    let n = cells.len();
    let mut max_lines: usize = 1;
    for i in 0..n
        invariant
            n == cells@.len(),
            max_lines == max_cell_lines(cell_views(cells@), i as int),
    {
        let here = cells[i].lines.len();
        if here > max_lines {
            max_lines = here;
        }
    }
    proof {
        lemma_max_cell_lines_bound(cells@, n as int);
    }
    let tall = max_lines as i128 * TABLE_LINE_HEIGHT + 12000;
    if tall > MIN_ROW_HEIGHT {
        tall
    } else {
        MIN_ROW_HEIGHT
    }
}

/// The text lines of cell `i`, drawn in column `i` from `top_y` down.
pub open spec fn cell_line_ops(
    family: Family,
    columns: Seq<ColumnView>,
    cells: Seq<CellView>,
    i: int,
    top_y: int,
) -> Seq<OpView> {
    Seq::new(
        cells[i].lines.len(),
        |li: int|
            text_op(
                family,
                cells[i].bold,
                TABLE_FONT_SIZE,
                columns[i].x + 8000,
                top_y - 16000 - li * TABLE_LINE_HEIGHT,
                palette_rgb(cells[i].color),
                cells[i].lines[li],
            ),
    )
}

/// The lines of the first `k` cells, cell by cell.
pub open spec fn cells_ops(
    family: Family,
    columns: Seq<ColumnView>,
    cells: Seq<CellView>,
    k: int,
    top_y: int,
) -> Seq<OpView>
    decreases k,
{
    if k <= 0 {
        seq![]
    } else {
        cells_ops(family, columns, cells, k - 1, top_y) + cell_line_ops(
            family,
            columns,
            cells,
            k - 1,
            top_y,
        )
    }
}

/// The background of row `row_index`: white and light surface alternate.
pub open spec fn zebra(row_index: int) -> Rgb {
    if row_index % 2 == 0 {
        tone_rgb(Tone::White)
    } else {
        tone_rgb(Tone::Surface)
    }
}

/// A table row whose top edge is at `top_y`: zebra band with border,
/// column separators, and each cell's lines in its column (cells beyond
/// the last column are not drawn).
pub open spec fn row_ops(
    family: Family,
    columns: Seq<ColumnView>,
    cells: Seq<CellView>,
    top_y: int,
    row_index: int,
) -> Seq<OpView> {
    let height = row_height_spec(cells);
    let row_y = top_y - height;
    let shown = if cells.len() < columns.len() {
        cells.len() as int
    } else {
        columns.len() as int
    };
    rect_ops(
        CONTENT_X as int,
        row_y,
        CONTENT_W as int,
        height,
        zebra(row_index),
        Some(tone_rgb(Tone::Border)),
        1000,
    ) + separator_ops(columns, row_y, height) + cells_ops(family, columns, cells, shown, top_y)
}

/// Draws a table row; returns the y of its bottom edge.
pub fn draw_table_row(
    page: &mut Page,
    columns: &[Column],
    cells: &[PreparedCell],
    top_y: i128,
    row_index: usize,
    fonts: &FontPair,
) -> (r: i128)
    requires
        in_region(top_y as int),
        columns_in_layout(column_views(columns@)),
    ensures
        r == top_y - row_height_spec(cell_views(cells@)),
        final(page).width == old(page).width,
        final(page).height == old(page).height,
        final(page).drawn() == old(page).drawn() + row_ops(
            fonts.family,
            column_views(columns@),
            cell_views(cells@),
            top_y as int,
            row_index as int,
        ),
{
    let ghost before = page.drawn();
    let height = row_height(cells);
    let row_y = top_y - height;
    let background = if row_index % 2 == 0 {
        tone(Tone::White)
    } else {
        tone(Tone::Surface)
    };
    stroke_rect(
        page,
        CONTENT_X,
        row_y,
        CONTENT_W,
        height,
        background,
        Some(tone(Tone::Border)),
        1000,
    );
    draw_column_separators(page, columns, row_y, height);
    let ghost mid = page.drawn();
    let shown = if cells.len() < columns.len() {
        cells.len()
    } else {
        columns.len()
    };
    for i in 0..shown
        invariant
            shown <= cells@.len(),
            shown <= columns@.len(),
            columns_in_layout(column_views(columns@)),
            in_region(top_y as int),
            page.width == old(page).width,
            page.height == old(page).height,
            page.drawn() == mid + cells_ops(
                fonts.family,
                column_views(columns@),
                cell_views(cells@),
                i as int,
                top_y as int,
            ),
    {
        let cell = &cells[i];
        proof {
            assert(column_in_layout(column_views(columns@)[i as int]));
        }
        let x = columns[i].x + 8000;
        let ghost start = page.drawn();
        let m = cell.lines.len();
        for li in 0..m
            invariant
                i < cells@.len(),
                i < columns@.len(),
                m == cells@[i as int].lines@.len(),
                cell == cells@[i as int],
                x == columns@[i as int].x + 8000,
                in_region(top_y as int),
                page.width == old(page).width,
                page.height == old(page).height,
                page.drawn() == start + cell_line_ops(
                    fonts.family,
                    column_views(columns@),
                    cell_views(cells@),
                    i as int,
                    top_y as int,
                ).take(li as int),
        {
            let y = top_y - 16000 - li as i128 * TABLE_LINE_HEIGHT;
            proof {
                assert(cell_views(cells@)[i as int].lines[li as int] == cell.lines@[li as int]@);
            }
            draw_text(
                page,
                fonts,
                cell.bold,
                cell.lines[li].as_str(),
                TABLE_FONT_SIZE,
                x,
                y,
                palette(cell.color),
            );
            proof {
                let all = cell_line_ops(
                    fonts.family,
                    column_views(columns@),
                    cell_views(cells@),
                    i as int,
                    top_y as int,
                );
                assert(all.take(li + 1) =~= all.take(li as int).push(all[li as int]));
            }
        }
        proof {
            let all = cell_line_ops(
                fonts.family,
                column_views(columns@),
                cell_views(cells@),
                i as int,
                top_y as int,
            );
            assert(all.take(m as int) =~= all);
            assert(start + all =~= mid + cells_ops(
                fonts.family,
                column_views(columns@),
                cell_views(cells@),
                i + 1,
                top_y as int,
            ));
        }
    }
    proof {
        assert(page.drawn() =~= before + row_ops(
            fonts.family,
            column_views(columns@),
            cell_views(cells@),
            top_y as int,
            row_index as int,
        ));
    }
    row_y
}

/// The empty-table notice whose top edge is at `top_y`: a bordered white
/// box with a centered bold title and a centered muted subtitle.
pub open spec fn empty_state_ops(
    family: Family,
    regular_font: Seq<u8>,
    bold_font: Seq<u8>,
    top_y: int,
    title: Seq<char>,
    subtitle: Seq<char>,
) -> Seq<OpView> {
    let empty_y = top_y - 62000;
    rect_ops(
        CONTENT_X as int,
        empty_y,
        CONTENT_W as int,
        62000,
        tone_rgb(Tone::White),
        Some(tone_rgb(Tone::Border)),
        1000,
    ) + seq![
        text_op(
            family,
            true,
            10500,
            CONTENT_X + (CONTENT_W - text_width(bold_font, title, 10500)) / 2,
            empty_y + 35000,
            palette_rgb(PaletteColor::Text),
            title,
        ),
        text_op(
            family,
            false,
            9000,
            CONTENT_X + (CONTENT_W - text_width(regular_font, subtitle, 9000)) / 2,
            empty_y + 20000,
            palette_rgb(PaletteColor::Muted),
            subtitle,
        ),
    ]
}

/// Draws the empty-table notice.
pub fn draw_empty_state(
    page: &mut Page,
    top_y: i128,
    title: &str,
    subtitle: &str,
    fonts: &FontPair,
)
    requires
        in_region(top_y as int),
    ensures
        final(page).width == old(page).width,
        final(page).height == old(page).height,
        final(page).drawn() == old(page).drawn() + empty_state_ops(
            fonts.family,
            fonts.regular@,
            fonts.bold@,
            top_y as int,
            title@,
            subtitle@,
        ),
{
    let ghost before = page.drawn();
    let empty_y = top_y - 62000;
    stroke_rect(
        page,
        CONTENT_X,
        empty_y,
        CONTENT_W,
        62000,
        tone(Tone::White),
        Some(tone(Tone::Border)),
        1000,
    );
    let title_width = fonts.bold.width(title, 10500) as i128;
    draw_text(
        page,
        fonts,
        true,
        title,
        10500,
        CONTENT_X + half(CONTENT_W - title_width),
        empty_y + 35000,
        palette(PaletteColor::Text),
    );
    let subtitle_width = fonts.regular.width(subtitle, 9000) as i128;
    draw_text(
        page,
        fonts,
        false,
        subtitle,
        9000,
        CONTENT_X + half(CONTENT_W - subtitle_width),
        empty_y + 20000,
        palette(PaletteColor::Muted),
    );
    proof {
        assert(page.drawn() =~= before + empty_state_ops(
            fonts.family,
            fonts.regular@,
            fonts.bold@,
            top_y as int,
            title@,
            subtitle@,
        ));
    }
}

} // verus!
