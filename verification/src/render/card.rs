//! `student_card`: a CR80 card (85.60 mm × 53.98 mm) with a template image
//! or a plain bordered background, a label turned 90°, the student's data
//! and a vector QR code (one rectangle per dark module). Coordinates are
//! given directly with the origin at the top-left corner.

use vstd::prelude::*;

use crate::plan::{
    copy_text, metadata_copied, pages_drawn, pages_sized, DocumentPlan, DrawOp, Family, Frame, ImageSlot, Metadata,
    OpView, Page, Paint, Pen, Rgb,
};
use crate::protocol::{ErrorCode, PaletteColor, StudentCardPayload};
use crate::render::a4::{palette, palette_rgb};
use crate::strings::{decimal, decimal_seq, join2, join3, to_upper, unicode_upper};
use crate::text::Fonts;

verus! {

pub const CARD_W: i128 = 242645;

pub const CARD_H: i128 = 153080;

pub const QR_SIZE: i128 = 27000;

pub const QR_X: i128 = 12000;

pub const QR_Y: i128 = 114000;

pub const NAME_X: i128 = 46000;

pub const NAME_Y: i128 = 118000;

pub const CODE_X: i128 = 46000;

pub const CODE_Y: i128 = 130000;

pub const DOC_LABEL_X: i128 = 46000;

pub const DOC_LABEL_Y: i128 = 98000;

pub const DOC_VALUE_X: i128 = 46000;

pub const DOC_VALUE_Y: i128 = 109000;

// ---------- QR codes ----------

#[verifier::external_type_specification]
#[verifier::external_body]
pub struct ExQrCode(qrcodegen::QrCode);

/// Why a text cannot be encoded as a QR code.
#[derive(Clone, Copy, Debug, PartialEq, Eq, Structural)]
pub enum QrError {
    SegmentTooLong,
    DataOverCapacity(usize, usize),
}

impl QrError {
    pub open spec fn describe_spec(self) -> Seq<char> {
        match self {
            QrError::SegmentTooLong => "SegmentTooLong"@,
            QrError::DataOverCapacity(used, capacity) => "DataOverCapacity("@ + decimal_seq(
                used as nat,
            ) + ", "@ + decimal_seq(capacity as nat) + ")"@,
        }
    }

    /// The error written as its variant and fields.
    pub fn describe(&self) -> (s: String)
        ensures
            s@ == self.describe_spec(),
    {
        match self {
            QrError::SegmentTooLong => String::from_str("SegmentTooLong"),
            QrError::DataOverCapacity(used, capacity) => {
                let a = decimal(*used as u128);
                let b = decimal(*capacity as u128);
                let head = join3("DataOverCapacity(", a.as_str(), ", ");
                join3(head.as_str(), b.as_str(), ")")
            },
        }
    }
}

/// What `qrcodegen::QrCode::encode_text(text, QrCodeEcc::Medium)` reports:
/// `None` when it encodes, otherwise its error.
pub uninterp spec fn qr_encode_error(text: Seq<char>) -> Option<QrError>;

/// What `QrCode::size` returns for the code encoded from `text`.
pub uninterp spec fn qr_side(text: Seq<char>) -> i32;

/// What `QrCode::get_module(x, y)` returns for the code encoded from `text`.
pub uninterp spec fn qr_dark(text: Seq<char>, x: i32, y: i32) -> bool;

/// A QR code together with the text it encodes.
pub struct QrSymbol {
    code: qrcodegen::QrCode,
    text: Ghost<Seq<char>>,
}

impl QrSymbol {
    /// The encoded text.
    pub closed spec fn text(&self) -> Seq<char> {
        self.text@
    }

    /// Encodes `text` at the medium error-correction level.
    ///
    /// Trusted: calls `qrcodegen::QrCode::encode_text(text, QrCodeEcc::Medium)`,
    /// whose outcome depends on the text alone (named by `qr_encode_error`);
    /// the error variants are carried over one for one.
    #[verifier::external_body]
    fn encode(text: &str) -> (r: Result<QrSymbol, QrError>)
        ensures
            r is Ok <==> qr_encode_error(text@) is None,
            r matches Ok(q) ==> q.text() == text@,
            r matches Err(e) ==> qr_encode_error(text@) == Some(e),
    {
        match qrcodegen::QrCode::encode_text(text, qrcodegen::QrCodeEcc::Medium) {
            Ok(code) => Ok(QrSymbol { code, text: Ghost(text@) }),
            Err(qrcodegen::DataTooLong::SegmentTooLong) => Err(QrError::SegmentTooLong),
            Err(qrcodegen::DataTooLong::DataOverCapacity(used, capacity)) => Err(
                QrError::DataOverCapacity(used, capacity),
            ),
        }
    }

    /// Modules per side.
    ///
    /// Trusted: calls `QrCode::size`, documented to lie in `21..=177`.
    #[verifier::external_body]
    fn size(&self) -> (n: i32)
        ensures
            n == qr_side(self.text()),
            21 <= n <= 177,
    {
        self.code.size()
    }

    /// Whether the module at column `x`, row `y` is dark.
    ///
    /// Trusted: calls `QrCode::get_module(x, y)`.
    #[verifier::external_body]
    fn module(&self, x: i32, y: i32) -> (b: bool)
        ensures
            b == qr_dark(self.text(), x, y),
    {
        self.code.get_module(x, y)
    }
}

/// The square of module `k` (row-major) of an `n`-module code drawn over
/// `size` from `x`, `y`: module edges fall at `size * i / n`, rounded down.
pub open spec fn module_frame(x: int, y: int, size: int, n: int, k: int) -> Frame {
    let c = k % n;
    let r = k / n;
    Frame {
        x: (x + c * size / n) as i128,
        y: (y + r * size / n) as i128,
        w: ((c + 1) * size / n - c * size / n) as i128,
        h: ((r + 1) * size / n - r * size / n) as i128,
    }
}

/// The squares of the dark modules among the first `k`, in row-major order.
pub open spec fn qr_frames(text: Seq<char>, x: int, y: int, size: int, n: int, k: int) -> Seq<Frame>
    decreases k,
{
    if k <= 0 {
        seq![]
    } else {
        let prev = qr_frames(text, x, y, size, n, k - 1);
        if qr_dark(text, ((k - 1) % n) as i32, ((k - 1) / n) as i32) {
            prev.push(module_frame(x, y, size, n, k - 1))
        } else {
            prev
        }
    }
}

/// The dark modules of the code for `text` as one dark path, when there
/// are any.
pub open spec fn qr_ops(text: Seq<char>, x: int, y: int, size: int) -> Seq<OpView> {
    let n = qr_side(text) as int;
    let frames = qr_frames(text, x, y, size, n, n * n);
    if frames.len() > 0 {
        seq![
            OpView::Rects {
                frames,
                paint: Paint { fill: Some(Rgb { r: 20, g: 20, b: 20 }), stroke: None },
            },
        ]
    } else {
        seq![]
    }
}

/// Draws the QR code of `text` over a `size` square at `x`, `y`.
pub fn draw_qr(page: &mut Page, text: &str, x: i128, y: i128, size: i128) -> (r: Result<
    (),
    String,
>)
    requires
        0 <= x <= 0x1_0000_0000,
        0 <= y <= 0x1_0000_0000,
        0 <= size <= 0x1_0000_0000,
    ensures
        final(page).width == old(page).width,
        final(page).height == old(page).height,
        r is Ok <==> qr_encode_error(text@) is None,
        r matches Err(m) ==> m@ == qr_encode_error(text@)->0.describe_spec(),
        r is Err ==> final(page).drawn() == old(page).drawn(),
        r is Ok ==> final(page).drawn() == old(page).drawn() + qr_ops(
            text@,
            x as int,
            y as int,
            size as int,
        ),
{
    let qr = match QrSymbol::encode(text) {
        Ok(q) => q,
        Err(e) => {
            return Err(e.describe());
        },
    };
    let n = qr.size();
    proof {
        assert(n * n <= 177 * 177) by (nonlinear_arith)
            requires
                21 <= n <= 177,
        ;
    }
    let total = n * n;
    let mut frames: Vec<Frame> = Vec::new();
    let wide = n as i128;
    for k in 0..total
        invariant
            21 <= n <= 177,
            total == n * n,
            wide == n,
            qr.text() == text@,
            n == qr_side(text@),
            0 <= x <= 0x1_0000_0000,
            0 <= y <= 0x1_0000_0000,
            0 <= size <= 0x1_0000_0000,
            frames@ == qr_frames(text@, x as int, y as int, size as int, n as int, k as int),
    {
        let column = k % n;
        let row = k / n;
        proof {
            assert(0 <= column < n);
            assert(0 <= row < n) by (nonlinear_arith)
                requires
                    0 <= k < n * n,
                    row == k / n,
                    n > 0,
            ;
        }
        if qr.module(column, row) {
            let c = column as i128;
            let r = row as i128;
            proof {
                assert((c + 1) * size <= 177 * 0x1_0000_0000) by (nonlinear_arith)
                    requires
                        0 <= c < 177,
                        0 <= size <= 0x1_0000_0000,
                ;
                assert((r + 1) * size <= 177 * 0x1_0000_0000) by (nonlinear_arith)
                    requires
                        0 <= r < 177,
                        0 <= size <= 0x1_0000_0000,
                ;
                assert(c * size <= (c + 1) * size) by (nonlinear_arith)
                    requires
                        0 <= c,
                        0 <= size,
                ;
                assert(r * size <= (r + 1) * size) by (nonlinear_arith)
                    requires
                        0 <= r,
                        0 <= size,
                ;
                assert(c * size >= 0) by (nonlinear_arith)
                    requires
                        0 <= c,
                        0 <= size,
                ;
                assert(r * size >= 0) by (nonlinear_arith)
                    requires
                        0 <= r,
                        0 <= size,
                ;
            }
            let x0 = c * size / wide;
            let x1 = (c + 1) * size / wide;
            let y0 = r * size / wide;
            let y1 = (r + 1) * size / wide;
            frames.push(Frame { x: x + x0, y: y + y0, w: x1 - x0, h: y1 - y0 });
        }
    }
    if frames.len() > 0 {
        let ghost before = page.drawn();
        page.push(
            DrawOp::Rects {
                frames,
                paint: Paint { fill: Some(Rgb { r: 20, g: 20, b: 20 }), stroke: None },
            },
        );
        proof {
            assert(page.drawn() =~= before + qr_ops(text@, x as int, y as int, size as int));
        }
    } else {
        proof {
            assert(old(page).drawn() + Seq::<OpView>::empty() =~= old(page).drawn());
        }
    }
    Ok(())
}

// ---------- card ----------

/// Paint in effect after the background: nothing set over a template, the
/// white fill and gray outline of the plain background otherwise.
pub open spec fn background_paint(template: bool) -> Paint {
    if template {
        Paint { fill: None, stroke: None }
    } else {
        Paint {
            fill: Some(Rgb { r: 255, g: 255, b: 255 }),
            stroke: Some(Pen { color: Rgb { r: 200, g: 203, b: 209 }, width: 1000 }),
        }
    }
}

/// The card's background: the template over the whole card, or a white
/// rectangle inset by half a point with a gray outline.
pub open spec fn card_background(template: bool) -> OpView {
    if template {
        OpView::Image { slot: ImageSlot::Template, width: CARD_W as int, height: CARD_H as int }
    } else {
        OpView::Rect {
            x: 500,
            y: 500,
            w: CARD_W - 1000,
            h: CARD_H - 1000,
            paint: background_paint(false),
        }
    }
}

/// One line of the student's data at `x`, `y`.
pub open spec fn field_op(
    family: Family,
    bold: bool,
    text: Seq<char>,
    size: u32,
    x: int,
    y: int,
    color: PaletteColor,
) -> OpView {
    OpView::Text {
        family,
        bold,
        size,
        x,
        y,
        paint: Paint { fill: Some(palette_rgb(color)), stroke: None },
        text,
    }
}

/// Everything the card draws: background, the turned label, name, code,
/// document label (upper case) and value, then the QR code.
pub open spec fn card_ops(family: Family, p: StudentCardPayload, template: bool) -> Seq<OpView> {
    seq![
        card_background(template),
        OpView::TurnedText {
            degrees: 90,
            pivot_x: CARD_W - 9000,
            pivot_y: CARD_H - 12000,
            family,
            bold: true,
            size: 6500,
            paint: background_paint(template),
            text: "ALUMNO"@,
        },
        field_op(family, true, p.full_name@, 9500, NAME_X as int, NAME_Y as int, PaletteColor::Text),
        field_op(family, false, p.student_code@, 7500, CODE_X as int, CODE_Y as int, PaletteColor::Muted),
        field_op(
            family,
            false,
            unicode_upper(p.document_label@),
            6500,
            DOC_LABEL_X as int,
            DOC_LABEL_Y as int,
            PaletteColor::Muted,
        ),
        field_op(
            family,
            true,
            p.document_value@,
            9200,
            DOC_VALUE_X as int,
            DOC_VALUE_Y as int,
            PaletteColor::Text,
        ),
    ] + qr_ops(p.qr_text@, QR_X as int, QR_Y as int, QR_SIZE as int)
}

/// The error for a QR text that cannot be encoded.
pub open spec fn qr_problem(text: Seq<char>) -> Seq<char> {
    "qr_text no se puede codificar: "@ + qr_encode_error(text)->0.describe_spec()
}

fn draw_field(
    page: &mut Page,
    family: Family,
    bold: bool,
    text: &str,
    size: u32,
    x: i128,
    y: i128,
    color: PaletteColor,
)
    ensures
        final(page).width == old(page).width,
        final(page).height == old(page).height,
        final(page).drawn() == old(page).drawn().push(
            field_op(family, bold, text@, size, x as int, y as int, color),
        ),
{
    page.push(
        DrawOp::Text {
            family,
            bold,
            size,
            x,
            y,
            paint: Paint { fill: Some(palette(color)), stroke: None },
            text: String::from_str(text),
        },
    );
}

/// What rendering the card gives: an invalid payload when the QR text
/// cannot be encoded, otherwise one CR80 page drawing `card_ops` with the
/// payload's metadata.
pub open spec fn card_rendered(
    payload: StudentCardPayload,
    fonts: Fonts,
    template: bool,
    r: Result<DocumentPlan, (ErrorCode, String)>,
) -> bool {
    &&& (r is Err <==> qr_encode_error(payload.qr_text@) is Some)
    &&& (r matches Err(e) ==> e.0 == ErrorCode::PayloadInvalid && e.1@ == qr_problem(
        payload.qr_text@,
    ))
    &&& (r matches Ok(plan) ==> {
        &&& pages_sized(plan.pages@, CARD_W as int, CARD_H as int)
        &&& pages_drawn(plan.pages@) == seq![card_ops(fonts.sans.family, payload, template)]
        &&& metadata_copied(
            plan.metadata,
            payload.meta_title,
            payload.meta_author,
            payload.meta_subject,
        )
    })
}

/// A rendered card is one 242.645 × 153.08 pt page that draws each of the
/// student's fields once, at its own place: the full name (bold, 9.5 pt) at
/// (46, 118) pt, the student code (regular, 7.5 pt, muted) at (46, 130) pt,
/// the document label upper-cased (regular, 6.5 pt, muted) at (46, 98) pt
/// and the document value (bold, 9.2 pt) at (46, 109) pt, after the
/// background and the turned "ALUMNO" label and before the QR code.
pub proof fn lemma_card_fields(
    payload: StudentCardPayload,
    fonts: Fonts,
    template: bool,
    r: Result<DocumentPlan, (ErrorCode, String)>,
)
    requires
        card_rendered(payload, fonts, template, r),
    ensures
        r matches Ok(plan) ==> {
            let family = fonts.sans.family;
            let text = Paint { fill: Some(Rgb { r: 30, g: 33, b: 40 }), stroke: None };
            let muted = Paint { fill: Some(Rgb { r: 109, g: 117, b: 132 }), stroke: None };
            let d = plan.pages@[0].drawn();
            &&& plan.pages@.len() == 1
            &&& plan.pages@[0].width == 242645 && plan.pages@[0].height == 153080
            &&& d.len() >= 6
            &&& d[2] == OpView::Text {
                family,
                bold: true,
                size: 9500,
                x: 46000,
                y: 118000,
                paint: text,
                text: payload.full_name@,
            }
            &&& d[3] == OpView::Text {
                family,
                bold: false,
                size: 7500,
                x: 46000,
                y: 130000,
                paint: muted,
                text: payload.student_code@,
            }
            &&& d[4] == OpView::Text {
                family,
                bold: false,
                size: 6500,
                x: 46000,
                y: 98000,
                paint: muted,
                text: unicode_upper(payload.document_label@),
            }
            &&& d[5] == OpView::Text {
                family,
                bold: true,
                size: 9200,
                x: 46000,
                y: 109000,
                paint: text,
                text: payload.document_value@,
            }
        },
{
    if let Ok(plan) = r {
        let family = fonts.sans.family;
        let ops = card_ops(family, payload, template);
        let head = seq![
            card_background(template),
            OpView::TurnedText {
                degrees: 90,
                pivot_x: CARD_W - 9000,
                pivot_y: CARD_H - 12000,
                family,
                bold: true,
                size: 6500,
                paint: background_paint(template),
                text: "ALUMNO"@,
            },
            field_op(family, true, payload.full_name@, 9500, NAME_X as int, NAME_Y as int, PaletteColor::Text),
            field_op(family, false, payload.student_code@, 7500, CODE_X as int, CODE_Y as int, PaletteColor::Muted),
            field_op(
                family,
                false,
                unicode_upper(payload.document_label@),
                6500,
                DOC_LABEL_X as int,
                DOC_LABEL_Y as int,
                PaletteColor::Muted,
            ),
            field_op(
                family,
                true,
                payload.document_value@,
                9200,
                DOC_VALUE_X as int,
                DOC_VALUE_Y as int,
                PaletteColor::Text,
            ),
        ];
        assert(ops == head + qr_ops(payload.qr_text@, QR_X as int, QR_Y as int, QR_SIZE as int));
        assert(pages_drawn(plan.pages@).len() == 1);
        assert(pages_drawn(plan.pages@)[0] == plan.pages@[0].drawn());
        assert(plan.pages@[0].drawn() == ops);
        assert(ops[2] == head[2] && ops[3] == head[3] && ops[4] == head[4] && ops[5] == head[5]);
        assert(plan.pages@[0].width == CARD_W);
    }
}

/// Plans the card; `template` tells whether the template image is
/// available. A QR text that cannot be encoded refuses the payload.
pub fn render(payload: &StudentCardPayload, fonts: &Fonts, template: bool) -> (r: Result<
    DocumentPlan,
    (ErrorCode, String),
>)
    ensures
        card_rendered(*payload, *fonts, template, r),
{
    let metadata = Metadata {
        title: copy_text(&payload.meta_title),
        author: copy_text(&payload.meta_author),
        subject: copy_text(&payload.meta_subject),
    };
    let mut page = Page::new(CARD_W, CARD_H);
    let after_background = if template {
        page.push(DrawOp::Image { slot: ImageSlot::Template, width: CARD_W, height: CARD_H });
        Paint { fill: None, stroke: None }
    } else {
        let paint = Paint {
            fill: Some(Rgb { r: 255, g: 255, b: 255 }),
            stroke: Some(Pen { color: Rgb { r: 200, g: 203, b: 209 }, width: 1000 }),
        };
        page.push(
            DrawOp::Rect { frame: Frame { x: 500, y: 500, w: CARD_W - 1000, h: CARD_H - 1000 }, paint },
        );
        paint
    };
    page.push(
        DrawOp::TurnedText {
            degrees: 90,
            pivot_x: CARD_W - 9000,
            pivot_y: CARD_H - 12000,
            family: fonts.sans.family,
            bold: true,
            size: 6500,
            paint: after_background,
            text: String::from_str("ALUMNO"),
        },
    );
    draw_field(&mut page, fonts.sans.family, true, payload.full_name.as_str(), 9500, NAME_X, NAME_Y, PaletteColor::Text);
    draw_field(
        &mut page,
        fonts.sans.family,
        false,
        payload.student_code.as_str(),
        7500,
        CODE_X,
        CODE_Y,
        PaletteColor::Muted,
    );
    let label = to_upper(payload.document_label.as_str());
    draw_field(
        &mut page,
        fonts.sans.family,
        false,
        label.as_str(),
        6500,
        DOC_LABEL_X,
        DOC_LABEL_Y,
        PaletteColor::Muted,
    );
    draw_field(
        &mut page,
        fonts.sans.family,
        true,
        payload.document_value.as_str(),
        9200,
        DOC_VALUE_X,
        DOC_VALUE_Y,
        PaletteColor::Text,
    );
    let ghost fixed = page.drawn();
    match draw_qr(&mut page, payload.qr_text.as_str(), QR_X, QR_Y, QR_SIZE) {
        Err(message) => {
            return Err(
                (
                    ErrorCode::PayloadInvalid,
                    join2("qr_text no se puede codificar: ", message.as_str()),
                ),
            );
        },
        Ok(()) => {},
    }
    proof {
        assert(page.drawn() =~= card_ops(fonts.sans.family, *payload, template));
    }
    let mut pages: Vec<Page> = Vec::new();
    pages.push(page);
    proof {
        assert(pages_drawn(pages@) =~= seq![page.drawn()]);
    }
    Ok(DocumentPlan { metadata, pages })
}

} // verus!
