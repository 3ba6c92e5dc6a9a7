//! Page plans: what a document draws, page by page, as a list of drawing
//! operations in millipoints with the origin at the top-left corner of the
//! page and y growing downwards. Each operation carries the full paint it is
//! drawn with, so a plan is drawn by replaying it in order.

use vstd::prelude::*;

verus! {

/// An sRGB color, one byte per channel.
#[derive(Clone, Copy, Debug, PartialEq, Eq, Structural)]
pub struct Rgb {
    pub r: u8,
    pub g: u8,
    pub b: u8,
}

/// Outline color and line width (millipoints).
#[derive(Clone, Copy, Debug, PartialEq, Eq, Structural)]
pub struct Pen {
    pub color: Rgb,
    pub width: i128,
}

/// The fill and outline an operation is drawn with.
#[derive(Clone, Copy, Debug, PartialEq, Eq, Structural)]
pub struct Paint {
    pub fill: Option<Rgb>,
    pub stroke: Option<Pen>,
}

/// Font family of a text operation.
#[derive(Clone, Copy, Debug, PartialEq, Eq, Structural)]
pub enum Family {
    Mono,
    Sans,
}

/// Which image an image operation draws.
#[derive(Clone, Copy, Debug, PartialEq, Eq, Structural)]
pub enum ImageSlot {
    Letterhead,
    Template,
}

/// A rectangle given by its top-left corner and its size.
#[derive(Clone, Copy, Debug, PartialEq, Eq, Structural)]
pub struct Frame {
    pub x: i128,
    pub y: i128,
    pub w: i128,
    pub h: i128,
}

/// One drawing operation.
#[derive(Debug)]
pub enum DrawOp {
    /// A line of text whose baseline starts at (`x`, `y`).
    Text { family: Family, bold: bool, size: u32, x: i128, y: i128, paint: Paint, text: String },
    /// A line of text drawn at the origin of a frame turned by `degrees`
    /// around (`pivot_x`, `pivot_y`).
    TurnedText {
        degrees: u32,
        pivot_x: i128,
        pivot_y: i128,
        family: Family,
        bold: bool,
        size: u32,
        paint: Paint,
        text: String,
    },
    /// A straight segment, stroked.
    Line { x1: i128, y1: i128, x2: i128, y2: i128, pen: Pen },
    /// One rectangle, filled and possibly outlined.
    Rect { frame: Frame, paint: Paint },
    /// Many rectangles drawn as a single path.
    Rects { frames: Vec<Frame>, paint: Paint },
    /// An image stretched over `width` × `height` at the origin.
    Image { slot: ImageSlot, width: i128, height: i128 },
}

/// The mathematical content of a drawing operation.
pub enum OpView {
    Text { family: Family, bold: bool, size: u32, x: int, y: int, paint: Paint, text: Seq<char> },
    TurnedText {
        degrees: u32,
        pivot_x: int,
        pivot_y: int,
        family: Family,
        bold: bool,
        size: u32,
        paint: Paint,
        text: Seq<char>,
    },
    Line { x1: int, y1: int, x2: int, y2: int, pen: Pen },
    Rect { x: int, y: int, w: int, h: int, paint: Paint },
    Rects { frames: Seq<Frame>, paint: Paint },
    Image { slot: ImageSlot, width: int, height: int },
}

impl View for DrawOp {
    type V = OpView;

    open spec fn view(&self) -> OpView {
        match self {
            DrawOp::Text { family, bold, size, x, y, paint, text } => OpView::Text {
                family: *family,
                bold: *bold,
                size: *size,
                x: *x as int,
                y: *y as int,
                paint: *paint,
                text: text@,
            },
            DrawOp::TurnedText { degrees, pivot_x, pivot_y, family, bold, size, paint, text } =>
            OpView::TurnedText {
                degrees: *degrees,
                pivot_x: *pivot_x as int,
                pivot_y: *pivot_y as int,
                family: *family,
                bold: *bold,
                size: *size,
                paint: *paint,
                text: text@,
            },
            DrawOp::Line { x1, y1, x2, y2, pen } => OpView::Line {
                x1: *x1 as int,
                y1: *y1 as int,
                x2: *x2 as int,
                y2: *y2 as int,
                pen: *pen,
            },
            DrawOp::Rect { frame, paint } => OpView::Rect {
                x: frame.x as int,
                y: frame.y as int,
                w: frame.w as int,
                h: frame.h as int,
                paint: *paint,
            },
            DrawOp::Rects { frames, paint } => OpView::Rects { frames: frames@, paint: *paint },
            DrawOp::Image { slot, width, height } => OpView::Image {
                slot: *slot,
                width: *width as int,
                height: *height as int,
            },
        }
    }
}

/// Views of a sequence of operations.
pub open spec fn ops_view(ops: Seq<DrawOp>) -> Seq<OpView> {
    ops.map_values(|o: DrawOp| o@)
}

/// One page: its size in millipoints and what is drawn on it, in order.
#[derive(Debug)]
pub struct Page {
    pub width: i128,
    pub height: i128,
    pub ops: Vec<DrawOp>,
}

impl Page {
    /// What the page draws.
    pub open spec fn drawn(&self) -> Seq<OpView> {
        ops_view(self.ops@)
    }

    /// A blank page of the given size.
    pub fn new(width: i128, height: i128) -> (p: Page)
        ensures
            p.width == width,
            p.height == height,
            p.drawn() == Seq::<OpView>::empty(),
    {
        let p = Page { width, height, ops: Vec::new() };
        proof {
            assert(p.drawn() =~= Seq::<OpView>::empty());
        }
        p
    }

    /// Appends one operation.
    pub fn push(&mut self, op: DrawOp)
        ensures
            final(self).width == old(self).width,
            final(self).height == old(self).height,
            final(self).drawn() == old(self).drawn().push(op@),
    {
        let ghost before = self.ops@;
        self.ops.push(op);
        proof {
            assert(ops_view(before.push(op)) =~= ops_view(before).push(op@));
        }
    }
}

/// What each page of a sequence draws.
pub open spec fn pages_drawn(pages: Seq<Page>) -> Seq<Seq<OpView>> {
    pages.map_values(|p: Page| p.drawn())
}

/// Every page has the given size.
pub open spec fn pages_sized(pages: Seq<Page>, width: int, height: int) -> bool {
    forall|i: int| 0 <= i < pages.len() ==> #[trigger] pages[i].width == width && pages[i].height == height
}

/// Document information written into the PDF.
#[derive(Debug)]
pub struct Metadata {
    pub title: Option<String>,
    pub author: Option<String>,
    pub subject: Option<String>,
}

/// A whole document: its metadata and its pages, in order.
#[derive(Debug)]
pub struct DocumentPlan {
    pub metadata: Metadata,
    pub pages: Vec<Page>,
}

/// The metadata copies the given title, author and subject.
pub open spec fn metadata_copied(
    m: Metadata,
    title: Option<String>,
    author: Option<String>,
    subject: Option<String>,
) -> bool {
    &&& (m.title is Some <==> title is Some)
    &&& (m.title matches Some(t) ==> t@ == title->0@)
    &&& (m.author is Some <==> author is Some)
    &&& (m.author matches Some(t) ==> t@ == author->0@)
    &&& (m.subject is Some <==> subject is Some)
    &&& (m.subject matches Some(t) ==> t@ == subject->0@)
}

/// A copy of an optional string.
pub fn copy_text(s: &Option<String>) -> (r: Option<String>)
    ensures
        r is Some <==> s is Some,
        r matches Some(t) ==> t@ == s->0@,
{
    match s {
        Some(t) => Some(t.clone()),
        None => None,
    }
}

} // verus!
