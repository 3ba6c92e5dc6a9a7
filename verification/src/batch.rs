//! One document of a batch: dispatch by kind to its page plan, and the
//! per-document outcome once the PDF has been written (or not).

use vstd::prelude::*;

use crate::plan::{pages_drawn, DocumentPlan, Metadata};
use crate::protocol::{
    BatchResponse, DocumentKind, DocumentSpec, ErrorCode, ItemError, ItemResult, Outcome, Payload,
    PROTOCOL_VERSION,
};
use crate::render::attendance_daily::{self, attendance_rendered};
use crate::render::card::{self, card_rendered};
use crate::render::ticket::{self, ticket_rendered};
use crate::strings::join3;
use crate::text::Fonts;

verus! {

/// A per-document error seen as the code and message pair the renderers use.
pub open spec fn as_pair(r: Result<DocumentPlan, ItemError>) -> Result<
    DocumentPlan,
    (ErrorCode, String),
> {
    match r {
        Ok(p) => Ok(p),
        Err(e) => Err((e.code, e.message)),
    }
}

/// The message for a payload decoded for another kind than the document's.
pub open spec fn kind_mismatch() -> Seq<char> {
    "payload no corresponde al kind"@
}

/// What planning a document gives: its payload's decoding error as an
/// invalid payload; otherwise what the renderer of its kind gives, with the
/// ticket in the monospaced family and the other kinds in the sans-serif
/// one, and `background` telling whether the letterhead or template image
/// is available.
pub open spec fn document_rendered(
    document: DocumentSpec,
    fonts: Fonts,
    background: bool,
    r: Result<DocumentPlan, ItemError>,
) -> bool {
    match document.payload {
        Err(m) => r matches Err(e) && e.code == ErrorCode::PayloadInvalid && e.message@ == m@,
        Ok(p) => match (document.kind, p) {
            (DocumentKind::PaymentTicket, Payload::Ticket(t)) => ticket_rendered(
                t,
                fonts.mono,
                as_pair(r),
            ),
            (DocumentKind::AttendanceDailyReport, Payload::AttendanceDaily(a)) =>
            attendance_rendered(a, fonts, background, as_pair(r)),
            (DocumentKind::StudentCard, Payload::StudentCard(c)) => card_rendered(
                c,
                fonts,
                background,
                as_pair(r),
            ),
            _ => r matches Err(e) && e.code == ErrorCode::PayloadInvalid && e.message@
                == kind_mismatch(),
        },
    }
}

fn to_item(r: Result<DocumentPlan, (ErrorCode, String)>) -> (out: Result<DocumentPlan, ItemError>)
    ensures
        as_pair(out) == r,
{
    match r {
        Ok(p) => Ok(p),
        Err((code, message)) => Err(ItemError { code, message }),
    }
}

/// Two metadata records carry the same texts.
pub open spec fn same_metadata(a: Metadata, b: Metadata) -> bool {
    &&& (a.title is Some <==> b.title is Some)
    &&& (a.title is Some ==> a.title->0@ == b.title->0@)
    &&& (a.author is Some <==> b.author is Some)
    &&& (a.author is Some ==> a.author->0@ == b.author->0@)
    &&& (a.subject is Some <==> b.subject is Some)
    &&& (a.subject is Some ==> a.subject->0@ == b.subject->0@)
}

/// Planning is deterministic: two plans of the same document, with the same
/// fonts and background, fail with the same code and message, or draw the
/// same pages, of the same sizes, with the same metadata.
pub proof fn lemma_plan_deterministic(
    document: DocumentSpec,
    fonts: Fonts,
    background: bool,
    r1: Result<DocumentPlan, ItemError>,
    r2: Result<DocumentPlan, ItemError>,
)
    requires
        document_rendered(document, fonts, background, r1),
        document_rendered(document, fonts, background, r2),
    ensures
        r1 is Ok <==> r2 is Ok,
        r1 matches Err(e1) ==> r2 matches Err(e2) && e1.code == e2.code && e1.message@
            == e2.message@,
        r1 matches Ok(p1) ==> r2 matches Ok(p2) && pages_drawn(p1.pages@) == pages_drawn(p2.pages@)
            && p1.pages@.len() == p2.pages@.len() && (forall|i: int|
            0 <= i < p1.pages@.len() ==> #[trigger] p1.pages@[i].width == p2.pages@[i].width
                && p1.pages@[i].height == p2.pages@[i].height) && same_metadata(
            p1.metadata,
            p2.metadata,
        ),
{
    if let (Ok(p1), Ok(p2)) = (r1, r2) {
        assert(pages_drawn(p1.pages@).len() == p1.pages@.len());
        assert(pages_drawn(p2.pages@).len() == p2.pages@.len());
    }
}

/// Plans one document by its kind.
pub fn render_document(document: &DocumentSpec, fonts: &Fonts, background: bool) -> (r: Result<
    DocumentPlan,
    ItemError,
>)
    ensures
        document_rendered(*document, *fonts, background, r),
{
    match &document.payload {
        Err(m) => Err(ItemError { code: ErrorCode::PayloadInvalid, message: m.clone() }),
        Ok(payload) => match (document.kind, payload) {
            (DocumentKind::PaymentTicket, Payload::Ticket(t)) => to_item(
                ticket::render(t, &fonts.mono),
            ),
            (DocumentKind::AttendanceDailyReport, Payload::AttendanceDaily(a)) => to_item(
                attendance_daily::render(a, fonts, background),
            ),
            (DocumentKind::StudentCard, Payload::StudentCard(c)) => to_item(
                card::render(c, fonts, background),
            ),
            _ => Err(
                ItemError {
                    code: ErrorCode::PayloadInvalid,
                    message: String::from_str("payload no corresponde al kind"),
                },
            ),
        },
    }
}

/// Pages of a plan, as reported in the response (saturating).
pub fn page_count(plan: &DocumentPlan) -> (n: u32)
    ensures
        plan.pages@.len() <= u32::MAX ==> n == plan.pages@.len(),
        plan.pages@.len() > u32::MAX ==> n == u32::MAX,
{
    let len = plan.pages.len();
    if len > 0xffff_ffff {
        0xffff_ffff
    } else {
        len as u32
    }
}

/// The message for an output file that could not be written.
pub open spec fn write_failure(out_path: Seq<char>, reason: Seq<char>) -> Seq<char> {
    "no se pudo escribir "@ + out_path + ": "@ + reason
}

/// The outcome of a rendered document once writing its bytes to
/// `out_path` succeeded (with the byte count) or failed (with the reason).
pub fn write_outcome(out_path: &str, written: Result<u64, String>, pages: u32) -> (o: Outcome)
    ensures
        written matches Ok(bytes) ==> o == (Outcome::Written { bytes, pages }),
        written matches Err(reason) ==> o matches Outcome::Error { error } && error.code
            == ErrorCode::WriteFailed && error.message@ == write_failure(out_path@, reason@),
{
    match written {
        Ok(bytes) => Outcome::Written { bytes, pages },
        Err(reason) => Outcome::Error {
            error: ItemError {
                code: ErrorCode::WriteFailed,
                message: join3("no se pudo escribir ", out_path, ": ").concat(reason.as_str()),
            },
        },
    }
}

/// The outcome of a document that failed before it was written.
pub fn failed_outcome(error: ItemError) -> (o: Outcome)
    ensures
        o == (Outcome::Error { error }),
{
    Outcome::Error { error }
}

/// The response to a batch: one result per document, in the manifest's
/// order, each echoing its document's id with that document's outcome.
pub fn batch_response(documents: &Vec<DocumentSpec>, outcomes: Vec<Outcome>) -> (r: BatchResponse)
    requires
        outcomes@.len() == documents@.len(),
    ensures
        r.protocol_version == PROTOCOL_VERSION,
        r.results@.len() == documents@.len(),
        forall|i: int|
            0 <= i < documents@.len() ==> (#[trigger] r.results@[i]).id@ == documents@[i].id@
                && r.results@[i].outcome == outcomes@[i],
{
    let n = documents.len();
    let mut rest = outcomes;
    let mut results: Vec<ItemResult> = Vec::new();
    let mut i: usize = 0;
    while i < n
        invariant
            n == documents@.len(),
            n == outcomes@.len(),
            i <= n,
            rest@ == outcomes@.skip(i as int),
            results@.len() == i,
            forall|j: int|
                0 <= j < i ==> (#[trigger] results@[j]).id@ == documents@[j].id@
                    && results@[j].outcome == outcomes@[j],
        decreases n - i,
    {
        let outcome = rest.remove(0);
        proof {
            assert(outcomes@.skip(i as int)[0] == outcomes@[i as int]);
            assert(rest@ =~= outcomes@.skip(i + 1));
        }
        results.push(ItemResult { id: documents[i].id.clone(), outcome });
        i = i + 1;
    }
    BatchResponse { protocol_version: PROTOCOL_VERSION, results }
}

} // verus!
