use report_rs::batch::{batch_response, failed_outcome, write_outcome};
use report_rs::protocol::{
    check_manifest, Align, DocumentKind, DocumentSpec, ErrorCode, ItemError, ItemResult, Manifest,
    Outcome, Payload, TicketPayload, TicketRow, MAX_BATCH_DOCUMENTS, PROTOCOL_VERSION,
};

fn ticket_document(id: &str, out: &str) -> DocumentSpec {
    DocumentSpec {
        id: id.to_string(),
        kind: DocumentKind::PaymentTicket,
        out_path: out.to_string(),
        payload: Ok(Payload::Ticket(TicketPayload {
            rows: vec![TicketRow {
                text: Some("X".to_string()),
                bold: false,
                size: None,
                align: Align::default(),
                separator: false,
                gap_after: 0,
            }],
            meta_title: None,
            meta_author: None,
            meta_subject: None,
        })),
    }
}

fn manifest_of(version: u32, documents: Vec<DocumentSpec>) -> Manifest {
    Manifest { protocol_version: version, assets_dir: "assets".to_string(), documents }
}

fn refusal(manifest: Manifest) -> String {
    match check_manifest(manifest) {
        Ok(_) => panic!("the manifest was accepted"),
        Err(e) => e.message().to_string(),
    }
}

#[test]
fn rejects_wrong_version_and_empty_batch() {
    let wrong = manifest_of(2, vec![ticket_document("x", "x.pdf")]);
    assert!(check_manifest(wrong).is_err());
    assert!(check_manifest(manifest_of(1, vec![])).is_err());
}

#[test]
fn rejects_duplicate_ids() {
    let docs = vec![ticket_document("a", "a.pdf"), ticket_document("a", "a.pdf")];
    assert!(check_manifest(manifest_of(1, docs)).is_err());
}

#[test]
fn accepts_valid_manifest() {
    let manifest = check_manifest(manifest_of(1, vec![ticket_document("a", "a.pdf")])).unwrap();
    assert_eq!(manifest.documents.len(), 1);
    assert_eq!(manifest.documents[0].kind, DocumentKind::PaymentTicket);
}

#[test]
fn version_refusal_names_the_version() {
    assert_eq!(PROTOCOL_VERSION, 1);
    let m = manifest_of(2, vec![ticket_document("x", "x.pdf")]);
    assert_eq!(refusal(m), "protocol_version no soportado: 2 (esperado 1)");
}

#[test]
fn batch_size_refusals() {
    assert_eq!(refusal(manifest_of(1, vec![])), "documents fuera de rango: 0 (esperado 1..=16)");
    let mut docs = Vec::new();
    for i in 0..(MAX_BATCH_DOCUMENTS + 1) {
        docs.push(ticket_document(&format!("d{i}"), "o.pdf"));
    }
    assert_eq!(refusal(manifest_of(1, docs)), "documents fuera de rango: 17 (esperado 1..=16)");
    let mut full = Vec::new();
    for i in 0..MAX_BATCH_DOCUMENTS {
        full.push(ticket_document(&format!("d{i}"), "o.pdf"));
    }
    assert!(check_manifest(manifest_of(1, full)).is_ok());
}

#[test]
fn document_refusals_name_the_first_bad_document() {
    let blank = vec![ticket_document("ok", "a.pdf"), ticket_document(" \t", "b.pdf")];
    assert_eq!(refusal(manifest_of(1, blank)), "documents[1].id vacío");
    let no_path = vec![ticket_document("a", "")];
    assert_eq!(refusal(manifest_of(1, no_path)), "documents[0].out_path vacío (id=a)");
    let dup = vec![
        ticket_document("a", "a.pdf"),
        ticket_document("b", "b.pdf"),
        ticket_document("a", "c.pdf"),
        ticket_document("", "d.pdf"),
    ];
    assert_eq!(refusal(manifest_of(1, dup)), "documents[2].id duplicado: a");
}

#[test]
fn accepted_manifest_is_handed_back_unchanged() {
    let docs = vec![ticket_document("a", "a.pdf"), ticket_document("b", "b.pdf")];
    let m = check_manifest(manifest_of(1, docs)).unwrap();
    assert_eq!(m.assets_dir, "assets");
    assert_eq!(m.documents[0].id, "a");
    assert_eq!(m.documents[1].out_path, "b.pdf");
}

#[test]
fn error_code_names() {
    assert_eq!(ErrorCode::PayloadInvalid.name(), "PAYLOAD_INVALID");
    assert_eq!(ErrorCode::RenderFailed.name(), "RENDER_FAILED");
    assert_eq!(ErrorCode::WriteFailed.name(), "WRITE_FAILED");
}

#[test]
fn write_outcome_reports_bytes_or_the_failure() {
    match write_outcome("out/a.pdf", Ok(1234), 3) {
        Outcome::Written { bytes, pages } => {
            assert_eq!(bytes, 1234);
            assert_eq!(pages, 3);
        }
        Outcome::Error { .. } => panic!("expected a written outcome"),
    }
    match write_outcome("out/a.pdf", Err("disco lleno".to_string()), 3) {
        Outcome::Error { error } => {
            assert_eq!(error.code, ErrorCode::WriteFailed);
            assert_eq!(error.message, "no se pudo escribir out/a.pdf: disco lleno");
        }
        Outcome::Written { .. } => panic!("expected an error outcome"),
    }
}

#[test]
fn failed_outcome_carries_the_error() {
    let item = ItemResult {
        id: "doc-1".to_string(),
        outcome: failed_outcome(ItemError {
            code: ErrorCode::PayloadInvalid,
            message: "rows[3]: texto vacío".to_string(),
        }),
    };
    assert_eq!(item.id, "doc-1");
    match item.outcome {
        Outcome::Error { error } => {
            assert_eq!(error.code.name(), "PAYLOAD_INVALID");
            assert_eq!(error.message, "rows[3]: texto vacío");
        }
        Outcome::Written { .. } => panic!("expected an error outcome"),
    }
}

#[test]
fn response_echoes_ids_in_order() {
    let docs = vec![ticket_document("b", "b.pdf"), ticket_document("a", "a.pdf")];
    let outcomes = vec![
        write_outcome("b.pdf", Ok(10), 1),
        failed_outcome(ItemError { code: ErrorCode::RenderFailed, message: "krilla".to_string() }),
    ];
    let response = batch_response(&docs, outcomes);
    assert_eq!(response.protocol_version, 1);
    assert_eq!(response.results.len(), 2);
    assert_eq!(response.results[0].id, "b");
    assert!(matches!(response.results[0].outcome, Outcome::Written { bytes: 10, pages: 1 }));
    assert_eq!(response.results[1].id, "a");
    match &response.results[1].outcome {
        Outcome::Error { error } => assert_eq!(error.code, ErrorCode::RenderFailed),
        Outcome::Written { .. } => panic!("expected an error outcome"),
    }
}
