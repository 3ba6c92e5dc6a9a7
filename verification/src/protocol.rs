//! Protocol v1: the manifest that comes in, the per-document payloads and
//! the batch response that goes out. Lengths in payloads are millipoints.
//!
//! A manifest is refused as a whole (nothing rendered) when its version is
//! not 1, when it holds no document or more than 16, or when a document has
//! a blank id, an empty output path or an id used by an earlier document.

use vstd::prelude::*;

use crate::strings::{decimal, decimal_seq, is_blank, is_blank_seq, join2, join3};

verus! {

pub const PROTOCOL_VERSION: u32 = 1;

pub const MAX_BATCH_DOCUMENTS: usize = 16;

/// The closed set of document kinds.
#[derive(Clone, Copy, Debug, PartialEq, Eq, Structural)]
pub enum DocumentKind {
    PaymentTicket,
    AttendanceDailyReport,
    StudentCard,
}

/// Horizontal alignment of a ticket row.
#[derive(Clone, Copy, Debug, PartialEq, Eq, Structural)]
pub enum Align {
    Left,
    Center,
    Right,
}

impl Default for Align {
    fn default() -> (a: Align)
        ensures
            a == Align::Left,
    {
        Align::Left
    }
}

/// Named colors of the report palette.
#[derive(Clone, Copy, Debug, PartialEq, Eq, Structural)]
pub enum PaletteColor {
    Text,
    Muted,
    Success,
    Warning,
    Danger,
    Info,
    Accent,
}

/// One declarative row of a payment ticket.
pub struct TicketRow {
    pub text: Option<String>,
    pub bold: bool,
    /// Font size in millipoints; the ticket's body size when absent.
    pub size: Option<i32>,
    pub align: Align,
    pub separator: bool,
    /// Extra vertical space after the row, in millipoints.
    pub gap_after: i32,
}

pub struct TicketPayload {
    pub rows: Vec<TicketRow>,
    pub meta_title: Option<String>,
    pub meta_author: Option<String>,
    pub meta_subject: Option<String>,
}

/// One labelled value of the summary card of an A4 report.
pub struct SummaryItem {
    pub label: String,
    pub value: String,
    pub color: PaletteColor,
}

/// A table column: its header label and its width in millipoints.
pub struct ColumnSpec {
    pub label: String,
    pub width: i32,
}

/// One cell of a table row.
pub struct TableCell {
    pub text: String,
    pub bold: bool,
    pub color: PaletteColor,
}

/// What an empty table shows instead of rows.
pub struct EmptyState {
    pub title: String,
    pub subtitle: String,
}

pub struct AttendanceDailyPayload {
    pub title: String,
    pub subtitle: String,
    pub summary: Vec<SummaryItem>,
    pub columns: Vec<ColumnSpec>,
    pub rows: Vec<Vec<TableCell>>,
    pub empty: Option<EmptyState>,
    /// File name of the full-page letterhead image in the assets directory.
    pub letterhead: Option<String>,
    pub meta_title: Option<String>,
    pub meta_author: Option<String>,
    pub meta_subject: Option<String>,
}

pub struct StudentCardPayload {
    pub full_name: String,
    pub student_code: String,
    pub document_label: String,
    pub document_value: String,
    pub qr_text: String,
    /// File name of the card template image in the assets directory.
    pub template: Option<String>,
    pub meta_title: Option<String>,
    pub meta_author: Option<String>,
    pub meta_subject: Option<String>,
}

/// A payload decoded for its document kind.
pub enum Payload {
    Ticket(TicketPayload),
    AttendanceDaily(AttendanceDailyPayload),
    StudentCard(StudentCardPayload),
}

pub struct DocumentSpec {
    /// Opaque to the engine: echoed back in the response as it came.
    pub id: String,
    pub kind: DocumentKind,
    /// Where the PDF is written; the caller owns the file.
    pub out_path: String,
    /// The payload, or why it could not be decoded for `kind`.
    pub payload: Result<Payload, String>,
}

pub struct Manifest {
    pub protocol_version: u32,
    /// Directory holding the fonts and the image assets.
    pub assets_dir: String,
    pub documents: Vec<DocumentSpec>,
}

pub struct BatchResponse {
    pub protocol_version: u32,
    pub results: Vec<ItemResult>,
}

pub struct ItemResult {
    pub id: String,
    pub outcome: Outcome,
}

pub enum Outcome {
    Written { bytes: u64, pages: u32 },
    Error { error: ItemError },
}

#[derive(Debug)]
pub struct ItemError {
    pub code: ErrorCode,
    pub message: String,
}

/// The closed set of per-document error codes.
#[derive(Clone, Copy, Debug, PartialEq, Eq, Structural)]
pub enum ErrorCode {
    PayloadInvalid,
    RenderFailed,
    WriteFailed,
}

impl ErrorCode {
    pub open spec fn name_spec(self) -> Seq<char> {
        match self {
            ErrorCode::PayloadInvalid => "PAYLOAD_INVALID"@,
            ErrorCode::RenderFailed => "RENDER_FAILED"@,
            ErrorCode::WriteFailed => "WRITE_FAILED"@,
        }
    }

    /// The code as it appears on the wire (SCREAMING_SNAKE_CASE).
    pub fn name(&self) -> (s: String)
        ensures
            s@ == self.name_spec(),
    {
        match self {
            ErrorCode::PayloadInvalid => String::from_str("PAYLOAD_INVALID"),
            ErrorCode::RenderFailed => String::from_str("RENDER_FAILED"),
            ErrorCode::WriteFailed => String::from_str("WRITE_FAILED"),
        }
    }
}

/// A manifest-level error: the whole batch is refused.
#[derive(Debug)]
pub struct ManifestError(pub String);

impl ManifestError {
    /// The error's text.
    pub fn message(&self) -> (s: &str)
        ensures
            s@ == self.0@,
    {
        self.0.as_str()
    }
}

// ---------- manifest checks ----------

/// Why document `i` is refused, looking only at it and the documents before it.
pub open spec fn document_problem(docs: Seq<DocumentSpec>, i: int) -> Option<Seq<char>> {
    let d = docs[i];
    if is_blank_seq(d.id@) {
        Some("documents["@ + decimal_seq(i as nat) + "].id vacío"@)
    } else if d.out_path@.len() == 0 {
        Some(
            "documents["@ + decimal_seq(i as nat) + "].out_path vacío (id="@ + d.id@ + ")"@,
        )
    } else if exists|j: int| 0 <= j < i && #[trigger] docs[j].id@ == d.id@ {
        Some("documents["@ + decimal_seq(i as nat) + "].id duplicado: "@ + d.id@)
    } else {
        None
    }
}

/// The problem of the first refused document among the first `k`.
pub open spec fn first_document_problem(docs: Seq<DocumentSpec>, k: nat) -> Option<Seq<char>>
    decreases k,
{
    if k == 0 {
        None
    } else {
        match first_document_problem(docs, (k - 1) as nat) {
            Some(m) => Some(m),
            None => document_problem(docs, k - 1),
        }
    }
}

/// Why a manifest is refused, if it is.
pub open spec fn manifest_problem(m: Manifest) -> Option<Seq<char>> {
    let n = m.documents@.len();
    if m.protocol_version != PROTOCOL_VERSION {
        Some(
            "protocol_version no soportado: "@ + decimal_seq(m.protocol_version as nat)
                + " (esperado 1)"@,
        )
    } else if n == 0 || n > MAX_BATCH_DOCUMENTS {
        Some("documents fuera de rango: "@ + decimal_seq(n) + " (esperado 1..=16)"@)
    } else {
        first_document_problem(m.documents@, n)
    }
}

proof fn lemma_first_problem_stable(docs: Seq<DocumentSpec>, k: nat, k2: nat)
    requires
        k <= k2,
        first_document_problem(docs, k) is Some,
    ensures
        first_document_problem(docs, k2) == first_document_problem(docs, k),
    decreases k2,
{
    if k2 > k {
        lemma_first_problem_stable(docs, k, (k2 - 1) as nat);
    }
}

proof fn lemma_no_document_problem(docs: Seq<DocumentSpec>, k: nat, i: int)
    requires
        0 <= i < k,
        first_document_problem(docs, k) is None,
    ensures
        document_problem(docs, i) is None,
    decreases k,
{
    if i < k - 1 {
        lemma_no_document_problem(docs, (k - 1) as nat, i);
    }
}

/// What an accepted manifest is: version 1, one to sixteen documents, each
/// with a non-blank id and a non-empty output path, and no id used twice.
/// A manifest where two documents share an id is refused.
pub proof fn lemma_accepted_manifest(manifest: Manifest, r: Result<Manifest, ManifestError>)
    requires
        r is Ok <==> manifest_problem(manifest) is None,
        r matches Ok(m) ==> m == manifest,
    ensures
        r matches Ok(m) ==> {
            let docs = m.documents@;
            &&& m.protocol_version == 1
            &&& 1 <= docs.len() <= 16
            &&& forall|i: int|
                0 <= i < docs.len() ==> !is_blank_seq(#[trigger] docs[i].id@) && docs[i].out_path@.len()
                    > 0
            &&& forall|i: int, j: int|
                0 <= i < docs.len() && 0 <= j < docs.len() && i != j ==> #[trigger] docs[i].id@
                    != #[trigger] docs[j].id@
        },
        (exists|i: int, j: int|
            0 <= i < j < manifest.documents@.len() && #[trigger] manifest.documents@[i].id@
                == #[trigger] manifest.documents@[j].id@) ==> r is Err,
{
    let docs = manifest.documents@;
    let n = docs.len();
    if manifest_problem(manifest) is None {
        assert forall|i: int| 0 <= i < n implies document_problem(docs, i) is None by {
            lemma_no_document_problem(docs, n, i);
        }
        assert forall|i: int, j: int|
            0 <= i < n && 0 <= j < n && i != j implies #[trigger] docs[i].id@
                != #[trigger] docs[j].id@ by {
            if i < j {
                assert(document_problem(docs, j) is None);
                if docs[i].id@ == docs[j].id@ {
                    assert(exists|k: int| 0 <= k < j && #[trigger] docs[k].id@ == docs[j].id@);
                }
            } else {
                assert(document_problem(docs, i) is None);
                if docs[i].id@ == docs[j].id@ {
                    assert(exists|k: int| 0 <= k < i && #[trigger] docs[k].id@ == docs[i].id@);
                }
            }
        }
        assert forall|i: int| 0 <= i < n implies !is_blank_seq(#[trigger] docs[i].id@)
            && docs[i].out_path@.len() > 0 by {
            assert(document_problem(docs, i) is None);
        }
    }
}

fn index_text(prefix: &str, index: usize, suffix: &str) -> (s: String)
    ensures
        s@ == prefix@ + decimal_seq(index as nat) + suffix@,
{
    let digits = decimal(index as u128);
    join3(prefix, digits.as_str(), suffix)
}

/// Why document `index` is refused, given the documents before it.
fn check_document(docs: &Vec<DocumentSpec>, index: usize) -> (r: Option<String>)
    requires
        index < docs@.len(),
    ensures
        r matches Some(s) ==> document_problem(docs@, index as int) == Some(s@),
        r is None ==> document_problem(docs@, index as int) is None,
{
    let document = &docs[index];
    if is_blank(document.id.as_str()) {
        return Some(index_text("documents[", index, "].id vacío"));
    }
    if document.out_path.as_str().is_empty() {
        let head = index_text("documents[", index, "].out_path vacío (id=");
        return Some(join3(head.as_str(), document.id.as_str(), ")"));
    }
    let mut j: usize = 0;
    while j < index
        invariant
            index < docs@.len(),
            j <= index,
            !is_blank_seq(docs@[index as int].id@),
            docs@[index as int].out_path@.len() > 0,
            forall|k: int| 0 <= k < j ==> #[trigger] docs@[k].id@ != docs@[index as int].id@,
        decreases index - j,
    {
        if docs[j].id == docs[index].id {
            proof {
                assert(docs@[j as int].id@ == docs@[index as int].id@);
            }
            let head = index_text("documents[", index, "].id duplicado: ");
            return Some(join2(head.as_str(), docs[index].id.as_str()));
        }
        j = j + 1;
    }
    None
}

/// Checks a decoded manifest: hands it back when the batch may run, or
/// the error that refuses it.
pub fn check_manifest(manifest: Manifest) -> (r: Result<Manifest, ManifestError>)
    ensures
        r is Ok <==> manifest_problem(manifest) is None,
        r matches Ok(m) ==> m == manifest,
        r matches Err(e) ==> manifest_problem(manifest) == Some(e.0@),
{
    if manifest.protocol_version != PROTOCOL_VERSION {
        let digits = decimal(manifest.protocol_version as u128);
        return Err(
            ManifestError(join3("protocol_version no soportado: ", digits.as_str(), " (esperado 1)")),
        );
    }
    let n = manifest.documents.len();
    if n == 0 || n > MAX_BATCH_DOCUMENTS {
        return Err(ManifestError(index_text("documents fuera de rango: ", n, " (esperado 1..=16)")));
    }
    let mut index: usize = 0;
    while index < n
        invariant
            n == manifest.documents@.len(),
            manifest.protocol_version == PROTOCOL_VERSION,
            1 <= n <= MAX_BATCH_DOCUMENTS,
            index <= n,
            first_document_problem(manifest.documents@, index as nat) is None,
        decreases n - index,
    {
        match check_document(&manifest.documents, index) {
            Some(message) => {
                proof {
                    assert(first_document_problem(manifest.documents@, (index + 1) as nat) == Some(
                        message@,
                    ));
                    lemma_first_problem_stable(manifest.documents@, (index + 1) as nat, n as nat);
                }
                return Err(ManifestError(message));
            },
            None => {},
        }
        index = index + 1;
    }
    Ok(manifest)
}

} // verus!
