use report_rs::batch::{page_count, render_document};
use report_rs::plan::{DocumentPlan, DrawOp, Family, ImageSlot, Page, Paint, Pen, Rgb};
use report_rs::protocol::{
    Align, AttendanceDailyPayload, ColumnSpec, DocumentKind, DocumentSpec, EmptyState, ErrorCode,
    PaletteColor, Payload, StudentCardPayload, SummaryItem, TableCell, TicketPayload, TicketRow,
};
use report_rs::render::a4::{half, palette, tone, Tone, PAGE_H, PAGE_W};
use report_rs::render::attendance_daily;
use report_rs::render::card::{self, draw_qr, CARD_H, CARD_W};
use report_rs::render::ticket::{self, points_text, validate_rows, x_for, WIDTH};
use report_rs::text::{FontPair, Fonts};

/// A minimal TrueType face in the metrics of Liberation Mono: 2048 units
/// per em and an advance of 1229 units for every character from U+0020 up.
fn face_bytes() -> Vec<u8> {
    fn be16(v: &mut Vec<u8>, x: u16) {
        v.extend_from_slice(&x.to_be_bytes());
    }
    fn be32(v: &mut Vec<u8>, x: u32) {
        v.extend_from_slice(&x.to_be_bytes());
    }
    let mut head = vec![0u8; 54];
    head[0..4].copy_from_slice(&0x0001_0000u32.to_be_bytes());
    head[18..20].copy_from_slice(&2048u16.to_be_bytes());
    let mut hhea = vec![0u8; 36];
    hhea[0..4].copy_from_slice(&0x0001_0000u32.to_be_bytes());
    hhea[34..36].copy_from_slice(&2u16.to_be_bytes());
    let mut maxp = Vec::new();
    be32(&mut maxp, 0x0000_5000);
    be16(&mut maxp, 2);
    let mut hmtx = Vec::new();
    for advance in [0u16, 1229] {
        be16(&mut hmtx, advance);
        be16(&mut hmtx, 0);
    }
    let mut cmap = Vec::new();
    be16(&mut cmap, 0);
    be16(&mut cmap, 1);
    be16(&mut cmap, 0);
    be16(&mut cmap, 4);
    be32(&mut cmap, 12);
    be16(&mut cmap, 13);
    be16(&mut cmap, 0);
    be32(&mut cmap, 28);
    be32(&mut cmap, 0);
    be32(&mut cmap, 1);
    be32(&mut cmap, 0x20);
    be32(&mut cmap, 0x10_FFFF);
    be32(&mut cmap, 1);
    let tables: Vec<(&[u8; 4], Vec<u8>)> =
        vec![(b"cmap", cmap), (b"head", head), (b"hhea", hhea), (b"hmtx", hmtx), (b"maxp", maxp)];
    let mut out = Vec::new();
    be32(&mut out, 0x0001_0000);
    be16(&mut out, tables.len() as u16);
    be16(&mut out, 0);
    be16(&mut out, 0);
    be16(&mut out, 0);
    let mut offset = 12 + 16 * tables.len();
    let mut body = Vec::new();
    for (tag, data) in &tables {
        out.extend_from_slice(*tag);
        be32(&mut out, 0);
        be32(&mut out, offset as u32);
        be32(&mut out, data.len() as u32);
        body.extend_from_slice(data);
        while body.len() % 4 != 0 {
            body.push(0);
        }
        offset = 12 + 16 * tables.len() + body.len();
    }
    out.extend_from_slice(&body);
    out
}

fn fonts_of(data: &[u8]) -> Fonts<'_> {
    Fonts {
        mono: FontPair::load(Family::Mono, data, "m.ttf", data, "mb.ttf").unwrap(),
        sans: FontPair::load(Family::Sans, data, "s.ttf", data, "sb.ttf").unwrap(),
    }
}

fn row(text: Option<&str>, bold: bool, align: Align, separator: bool, gap_after: i32) -> TicketRow {
    TicketRow {
        text: text.map(|t| t.to_string()),
        bold,
        size: None,
        align,
        separator,
        gap_after,
    }
}

fn sized(size: i32, gap_after: i32) -> TicketRow {
    TicketRow { size: Some(size), ..row(Some("x"), false, Align::Left, false, gap_after) }
}

fn ticket(rows: Vec<TicketRow>) -> TicketPayload {
    TicketPayload { rows, meta_title: Some("Ticket".to_string()), meta_author: None, meta_subject: None }
}

fn text_of(op: &DrawOp) -> (&str, i128, i128) {
    match op {
        DrawOp::Text { text, x, y, .. } => (text.as_str(), *x, *y),
        _ => panic!("expected a text operation"),
    }
}

fn only_page(plan: &DocumentPlan) -> &Page {
    assert_eq!(plan.pages.len(), 1);
    &plan.pages[0]
}

#[test]
fn points_text_drops_trailing_zeros() {
    assert_eq!(points_text(8000), "8");
    assert_eq!(points_text(200000), "200");
    assert_eq!(points_text(-1500), "-1.5");
    assert_eq!(points_text(250500), "250.5");
    assert_eq!(points_text(1230), "1.23");
    assert_eq!(points_text(1234), "1.234");
    assert_eq!(points_text(0), "0");
}

#[test]
fn ticket_rows_are_validated_in_order() {
    assert_eq!(validate_rows(&vec![sized(200000, 0)]), Err("rows[0].size fuera de rango: 200".to_string()));
    assert_eq!(validate_rows(&vec![sized(8000, 0), sized(0, 0)]), Err("rows[1].size fuera de rango: 0".to_string()));
    assert_eq!(validate_rows(&vec![sized(-1500, 0)]), Err("rows[0].size fuera de rango: -1.5".to_string()));
    assert_eq!(
        validate_rows(&vec![sized(8000, 0), sized(8000, 0), sized(8000, -1)]),
        Err("rows[2].gap_after negativo".to_string())
    );
    assert_eq!(validate_rows(&vec![sized(199999, 0), sized(1, 5000)]), Ok(()));
}

#[test]
fn ticket_refuses_an_invalid_row() {
    let data = face_bytes();
    let fonts = fonts_of(&data);
    match ticket::render(&ticket(vec![sized(8000, -2000)]), &fonts.mono) {
        Err((code, message)) => {
            assert_eq!(code, ErrorCode::PayloadInvalid);
            assert_eq!(message, "rows[0].gap_after negativo");
        }
        Ok(_) => panic!("the ticket was accepted"),
    }
}

#[test]
fn ticket_lays_out_rows_top_down() {
    let data = face_bytes();
    let fonts = fonts_of(&data);
    let payload = ticket(vec![
        row(Some("Hola"), false, Align::Center, false, 0),
        row(None, false, Align::Left, true, 0),
        row(Some("Total"), true, Align::Right, false, 6000),
        row(None, false, Align::Left, false, 0),
    ]);
    let plan = ticket::render(&payload, &fonts.mono).unwrap();
    assert_eq!(plan.metadata.title.as_deref(), Some("Ticket"));
    assert!(plan.metadata.author.is_none());
    let page = only_page(&plan);
    assert_eq!(page.width, WIDTH);
    // 34 + 4 × 12 + 6 pt is under the 240 pt minimum.
    assert_eq!(page.height, 240000);
    assert_eq!(page.ops.len(), 3);
    // "Hola" is 19203 mpt wide at 8 pt: centered at (226770 − 19203) / 2.
    assert_eq!(text_of(&page.ops[0]), ("Hola", 103783, 20000));
    match &page.ops[1] {
        DrawOp::Line { x1, y1, x2, y2, pen } => {
            assert_eq!((*x1, *y1, *x2, *y2), (14000, 28000, 212770, 28000));
            assert_eq!(*pen, Pen { color: Rgb { r: 89, g: 89, b: 89 }, width: 500 });
        }
        _ => panic!("expected the separator rule"),
    }
    // "Total" is 24003 mpt wide: right-aligned at 226770 − 14000 − 24003.
    assert_eq!(text_of(&page.ops[2]), ("Total", 188767, 44000));
    match &page.ops[2] {
        DrawOp::Text { family, bold, size, paint, .. } => {
            assert_eq!(*family, Family::Mono);
            assert!(*bold);
            assert_eq!(*size, 8000);
            assert_eq!(*paint, Paint { fill: Some(Rgb { r: 20, g: 20, b: 20 }), stroke: None });
        }
        _ => panic!("expected a text operation"),
    }
}

#[test]
fn ticket_grows_with_its_rows_and_wraps_long_text() {
    let data = face_bytes();
    let fonts = fonts_of(&data);
    let mut rows = Vec::new();
    for _ in 0..20 {
        rows.push(row(Some("linea"), false, Align::Left, false, 0));
    }
    let plan = ticket::render(&ticket(rows), &fonts.mono).unwrap();
    assert_eq!(only_page(&plan).height, 34000 + 20 * 12000);

    // 41 characters per line at 8 pt in 198.77 pt.
    let long = "uno dos tres cuatro cinco seis siete ocho nueve diez once doce trece";
    let plan = ticket::render(&ticket(vec![row(Some(long), false, Align::Left, false, 3000)]), &fonts.mono)
        .unwrap();
    let page = only_page(&plan);
    assert_eq!(page.ops.len(), 2);
    assert_eq!(text_of(&page.ops[0]), ("uno dos tres cuatro cinco seis siete ocho", 14000, 20000));
    assert_eq!(text_of(&page.ops[1]), ("nueve diez once doce trece", 14000, 32000));
}

#[test]
fn alignment_and_halving() {
    assert_eq!(x_for(0, Align::Left), 14000);
    assert_eq!(x_for(1, Align::Center), 113384);
    assert_eq!(x_for(10000, Align::Right), 202770);
    assert_eq!(half(7), 3);
    assert_eq!(half(-7), -4);
    assert_eq!(half(-8), -4);
}

#[test]
fn palette_bytes() {
    assert_eq!(palette(PaletteColor::Text), Rgb { r: 30, g: 33, b: 40 });
    assert_eq!(palette(PaletteColor::Danger), Rgb { r: 214, g: 45, b: 45 });
    assert_eq!(palette(PaletteColor::Accent), Rgb { r: 214, g: 40, b: 30 });
    assert_eq!(tone(Tone::Border), Rgb { r: 216, g: 221, b: 229 });
    assert_eq!(tone(Tone::White), Rgb { r: 255, g: 255, b: 255 });
}

fn cell(text: &str) -> TableCell {
    TableCell { text: text.to_string(), bold: false, color: PaletteColor::Text }
}

fn report(columns: Vec<(&str, i32)>, rows: Vec<Vec<TableCell>>, empty: bool) -> AttendanceDailyPayload {
    AttendanceDailyPayload {
        title: "Asistencia diaria".to_string(),
        subtitle: "Lunes".to_string(),
        summary: vec![SummaryItem {
            label: "Presentes".to_string(),
            value: "10".to_string(),
            color: PaletteColor::Success,
        }],
        columns: columns
            .into_iter()
            .map(|(label, width)| ColumnSpec { label: label.to_string(), width })
            .collect(),
        rows,
        empty: if empty {
            Some(EmptyState { title: "Sin registros".to_string(), subtitle: "Nada".to_string() })
        } else {
            None
        },
        letterhead: None,
        meta_title: None,
        meta_author: Some("Colegio".to_string()),
        meta_subject: None,
    }
}

#[test]
fn attendance_validation_messages() {
    let mut p = report(vec![], vec![], true);
    assert_eq!(attendance_daily::validate(&p), Err("columns no puede estar vacío".to_string()));
    p = report(vec![("A", 100000)], vec![], true);
    p.summary.clear();
    assert_eq!(attendance_daily::validate(&p), Err("summary no puede estar vacío".to_string()));
    p = report(vec![("A", 300000), ("B", 200000)], vec![], true);
    assert_eq!(
        attendance_daily::validate(&p),
        Err("la suma de anchos de columns (500.00) excede el ancho útil (499.28)".to_string())
    );
    // Less than a hundredth of a point over the useful width is tolerated.
    p = report(vec![("A", 299289), ("B", 200000)], vec![], true);
    assert_eq!(attendance_daily::validate(&p), Ok(()));
    p = report(vec![("A", 299290), ("B", 200000)], vec![], true);
    assert_eq!(
        attendance_daily::validate(&p),
        Err("la suma de anchos de columns (499.29) excede el ancho útil (499.28)".to_string())
    );
    // The total prints as `{:.2}` prints its f64: 500.005 is just under the tie.
    p = report(vec![("A", 500005)], vec![], true);
    assert_eq!(
        attendance_daily::validate(&p),
        Err("la suma de anchos de columns (500.00) excede el ancho útil (499.28)".to_string())
    );
    p = report(vec![("A", 100000), ("B", 100000)], vec![vec![cell("a"), cell("b")], vec![cell("c")]], true);
    assert_eq!(
        attendance_daily::validate(&p),
        Err("rows[1] tiene 1 celdas, columns declara 2".to_string())
    );
    p = report(vec![("A", 100000)], vec![], false);
    assert_eq!(
        attendance_daily::validate(&p),
        Err("rows vacío requiere empty (estado vacío)".to_string())
    );
}

#[test]
fn attendance_report_paginates() {
    let data = face_bytes();
    let fonts = fonts_of(&data);
    let few = report(
        vec![("Alumno", 300000), ("Estado", 150000)],
        vec![vec![cell("Ana"), cell("Presente")], vec![cell(""), cell("Tarde")]],
        false,
    );
    let plan = attendance_daily::render(&few, &fonts, true).unwrap();
    assert_eq!(plan.pages.len(), 1);
    assert_eq!((plan.pages[0].width, plan.pages[0].height), (PAGE_W, PAGE_H));
    assert_eq!(plan.metadata.author.as_deref(), Some("Colegio"));
    match &plan.pages[0].ops[0] {
        DrawOp::Image { slot, width, height } => {
            assert_eq!((*slot, *width, *height), (ImageSlot::Letterhead, PAGE_W, PAGE_H));
        }
        _ => panic!("expected the letterhead first"),
    }
    // Summary labels are drawn in upper case.
    assert!(plan.pages[0].ops.iter().any(|op| matches!(op, DrawOp::Text { text, .. } if text == "PRESENTES")));
    // An empty cell shows the fallback dash.
    assert!(plan.pages[0].ops.iter().any(|op| matches!(op, DrawOp::Text { text, .. } if text == "—")));

    let mut rows = Vec::new();
    for i in 0..60 {
        rows.push(vec![cell(&format!("Alumno {i}")), cell("Presente")]);
    }
    let many = report(vec![("Alumno", 300000), ("Estado", 150000)], rows, false);
    let plan = attendance_daily::render(&many, &fonts, false).unwrap();
    assert!(plan.pages.len() > 1);
    for page in &plan.pages {
        assert_eq!((page.width, page.height), (PAGE_W, PAGE_H));
    }
    // Every continuation page repeats the title.
    for page in &plan.pages[1..] {
        assert!(page.ops.iter().any(|op| matches!(op, DrawOp::Text { text, .. } if text == "Asistencia diaria")));
    }
    // All sixty rows are drawn, each exactly once.
    let drawn: usize = plan
        .pages
        .iter()
        .map(|p| p.ops.iter().filter(|op| matches!(op, DrawOp::Text { text, .. } if text.starts_with("Alumno "))).count())
        .sum();
    assert_eq!(drawn, 60);
    assert_eq!(page_count(&plan) as usize, plan.pages.len());
}

#[test]
fn attendance_empty_state() {
    let data = face_bytes();
    let fonts = fonts_of(&data);
    let p = report(vec![("Alumno", 300000)], vec![], true);
    let plan = attendance_daily::render(&p, &fonts, false).unwrap();
    assert_eq!(plan.pages.len(), 1);
    assert!(plan.pages[0].ops.iter().any(|op| matches!(op, DrawOp::Text { text, .. } if text == "Sin registros")));
}

fn student(qr_text: String) -> StudentCardPayload {
    StudentCardPayload {
        full_name: "Ana Pérez".to_string(),
        student_code: "A-001".to_string(),
        document_label: "cédula".to_string(),
        document_value: "12345678".to_string(),
        qr_text,
        template: None,
        meta_title: None,
        meta_author: None,
        meta_subject: Some("Carnet".to_string()),
    }
}

#[test]
fn card_draws_fields_and_qr() {
    let data = face_bytes();
    let fonts = fonts_of(&data);
    let plan = card::render(&student("A-001".to_string()), &fonts, false).unwrap();
    let page = only_page(&plan);
    assert_eq!((page.width, page.height), (CARD_W, CARD_H));
    assert_eq!(page.ops.len(), 7);
    match &page.ops[0] {
        DrawOp::Rect { frame, paint } => {
            assert_eq!((frame.x, frame.y, frame.w, frame.h), (500, 500, CARD_W - 1000, CARD_H - 1000));
            assert_eq!(paint.fill, Some(Rgb { r: 255, g: 255, b: 255 }));
        }
        _ => panic!("expected the card's frame"),
    }
    match &page.ops[1] {
        DrawOp::TurnedText { degrees, text, .. } => {
            assert_eq!(*degrees, 90);
            assert_eq!(text, "ALUMNO");
        }
        _ => panic!("expected the turned label"),
    }
    assert_eq!(text_of(&page.ops[2]), ("Ana Pérez", 46000, 118000));
    assert_eq!(text_of(&page.ops[4]), ("CÉDULA", 46000, 98000));
    let qr = qrcodegen::QrCode::encode_text("A-001", qrcodegen::QrCodeEcc::Medium).unwrap();
    let side = qr.size();
    let mut dark = 0;
    for y in 0..side {
        for x in 0..side {
            if qr.get_module(x, y) {
                dark += 1;
            }
        }
    }
    match &page.ops[6] {
        DrawOp::Rects { frames, paint } => {
            assert_eq!(frames.len(), dark);
            assert_eq!(paint.fill, Some(Rgb { r: 20, g: 20, b: 20 }));
            for f in frames {
                assert!(f.x >= 12000 && f.x + f.w <= 12000 + 27000);
                assert!(f.y >= 114000 && f.y + f.h <= 114000 + 27000);
            }
        }
        _ => panic!("expected the QR modules"),
    }
}

#[test]
fn card_over_a_template() {
    let data = face_bytes();
    let fonts = fonts_of(&data);
    let plan = card::render(&student("x".to_string()), &fonts, true).unwrap();
    let page = only_page(&plan);
    match &page.ops[0] {
        DrawOp::Image { slot, width, height } => {
            assert_eq!((*slot, *width, *height), (ImageSlot::Template, CARD_W, CARD_H));
        }
        _ => panic!("expected the template first"),
    }
    match &page.ops[1] {
        DrawOp::TurnedText { paint, .. } => assert_eq!(*paint, Paint { fill: None, stroke: None }),
        _ => panic!("expected the turned label"),
    }
}

#[test]
fn card_refuses_an_unencodable_qr_text() {
    let data = face_bytes();
    let fonts = fonts_of(&data);
    match card::render(&student("a".repeat(5000)), &fonts, false) {
        Err((code, message)) => {
            assert_eq!(code, ErrorCode::PayloadInvalid);
            assert!(message.starts_with("qr_text no se puede codificar: DataOverCapacity("), "{message}");
        }
        Ok(_) => panic!("the card was accepted"),
    }
    let mut page = Page::new(100000, 100000);
    assert!(draw_qr(&mut page, &"a".repeat(5000), 0, 0, 1000).is_err());
    assert!(page.ops.is_empty());
    assert_eq!(draw_qr(&mut page, "hola", 0, 0, 21000), Ok(()));
    assert_eq!(page.ops.len(), 1);
}

#[test]
fn documents_dispatch_by_kind() {
    let data = face_bytes();
    let fonts = fonts_of(&data);
    let doc = DocumentSpec {
        id: "t".to_string(),
        kind: DocumentKind::PaymentTicket,
        out_path: "t.pdf".to_string(),
        payload: Ok(Payload::Ticket(ticket(vec![row(Some("x"), false, Align::Left, false, 0)]))),
    };
    let plan = render_document(&doc, &fonts, false).unwrap();
    assert_eq!(page_count(&plan), 1);
    assert_eq!(plan.pages[0].width, WIDTH);

    let mismatch = DocumentSpec { kind: DocumentKind::StudentCard, ..doc };
    let e = render_document(&mismatch, &fonts, false).err().unwrap();
    assert_eq!(e.code, ErrorCode::PayloadInvalid);
    assert_eq!(e.message, "payload no corresponde al kind");

    let undecoded = DocumentSpec {
        id: "u".to_string(),
        kind: DocumentKind::AttendanceDailyReport,
        out_path: "u.pdf".to_string(),
        payload: Err("rows: invalid type".to_string()),
    };
    let e = render_document(&undecoded, &fonts, false).err().unwrap();
    assert_eq!(e.code, ErrorCode::PayloadInvalid);
    assert_eq!(e.message, "rows: invalid type");

    let card_doc = DocumentSpec {
        id: "c".to_string(),
        kind: DocumentKind::StudentCard,
        out_path: "c.pdf".to_string(),
        payload: Ok(Payload::StudentCard(student("q".to_string()))),
    };
    let plan = render_document(&card_doc, &fonts, true).unwrap();
    assert_eq!(plan.pages[0].width, CARD_W);
}

#[test]
fn planning_is_deterministic() {
    let data = face_bytes();
    let fonts = fonts_of(&data);
    let mut rows = Vec::new();
    for i in 0..40 {
        rows.push(vec![cell(&format!("Alumno {i} con un nombre largo")), cell("Presente")]);
    }
    let p = report(vec![("Alumno", 120000), ("Estado", 150000)], rows, false);
    let first = attendance_daily::render(&p, &fonts, true).unwrap();
    let second = attendance_daily::render(&p, &fonts, true).unwrap();
    assert_eq!(format!("{first:?}"), format!("{second:?}"));
}

fn width_refusal(total: f64) -> String {
    format!("la suma de anchos de columns ({total:.2}) excede el ancho útil (499.28)")
}

#[test]
fn column_width_limit_matches_f64_points() {
    let limit = 595.28f64 - 48.0 * 2.0 + 0.01;
    let mut widths: Vec<i32> = (499_000..=620_000).collect();
    let mut w: i64 = 620_001;
    while w <= i32::MAX as i64 {
        widths.push(w as i32);
        w += 7_919_993;
    }
    widths.push(i32::MAX);
    for w in widths {
        let points = w as f64 / 1000.0;
        let p = report(vec![("A", w)], vec![], true);
        let expected = if points > limit { Err(width_refusal(points)) } else { Ok(()) };
        assert_eq!(attendance_daily::validate(&p), expected, "width {w}");
    }
}
