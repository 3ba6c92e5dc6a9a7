use report_rs::plan::Family;
use report_rs::strings::{decimal, is_blank, white_space};
use report_rs::text::{
    fit, limited_wrap, split_words, wrap, without_last_char, FontError, FontPair, Glyph,
    MeasuredFont,
};

/// A minimal TrueType face in the metrics of Liberation Mono: 2048 units
/// per em and an advance of 1229 units for every character from U+0020 up.
fn mono_face_bytes() -> Vec<u8> {
    fn be16(v: &mut Vec<u8>, x: u16) {
        v.extend_from_slice(&x.to_be_bytes());
    }
    fn be32(v: &mut Vec<u8>, x: u32) {
        v.extend_from_slice(&x.to_be_bytes());
    }
    let mut head = vec![0u8; 54];
    head[0..4].copy_from_slice(&0x0001_0000u32.to_be_bytes());
    head[18..20].copy_from_slice(&2048u16.to_be_bytes());
    let mut hhea = vec![0u8; 36];
    hhea[0..4].copy_from_slice(&0x0001_0000u32.to_be_bytes());
    hhea[34..36].copy_from_slice(&2u16.to_be_bytes());
    let mut maxp = Vec::new();
    be32(&mut maxp, 0x0000_5000);
    be16(&mut maxp, 2);
    let mut hmtx = Vec::new();
    for advance in [0u16, 1229] {
        be16(&mut hmtx, advance);
        be16(&mut hmtx, 0);
    }
    let mut cmap = Vec::new();
    be16(&mut cmap, 0);
    be16(&mut cmap, 1);
    be16(&mut cmap, 0);
    be16(&mut cmap, 4);
    be32(&mut cmap, 12);
    be16(&mut cmap, 13);
    be16(&mut cmap, 0);
    be32(&mut cmap, 28);
    be32(&mut cmap, 0);
    be32(&mut cmap, 1);
    be32(&mut cmap, 0x20);
    be32(&mut cmap, 0x10_FFFF);
    be32(&mut cmap, 1);
    let tables: Vec<(&[u8; 4], Vec<u8>)> =
        vec![(b"cmap", cmap), (b"head", head), (b"hhea", hhea), (b"hmtx", hmtx), (b"maxp", maxp)];
    let mut out = Vec::new();
    be32(&mut out, 0x0001_0000);
    be16(&mut out, tables.len() as u16);
    be16(&mut out, 0);
    be16(&mut out, 0);
    be16(&mut out, 0);
    let mut offset = 12 + 16 * tables.len();
    let mut body = Vec::new();
    for (tag, data) in &tables {
        out.extend_from_slice(*tag);
        be32(&mut out, 0);
        be32(&mut out, offset as u32);
        be32(&mut out, data.len() as u32);
        body.extend_from_slice(data);
        while body.len() % 4 != 0 {
            body.push(0);
        }
        offset = 12 + 16 * tables.len() + body.len();
    }
    out.extend_from_slice(&body);
    out
}

#[test]
fn wrap_keeps_lines_within_width() {
    let data = mono_face_bytes();
    let font = MeasuredFont::parse(&data).unwrap();
    let text = "I.E. Coedula Nacional Independencia de Próceres del Perú";
    let lines = wrap(text, &font, 9500, 198770);
    assert!(lines.len() > 1);
    for line in &lines {
        assert!(font.width(line, 9500) <= 198770, "línea demasiado ancha: {line}");
    }
    assert_eq!(lines.join(" "), text);
}

#[test]
fn fit_truncates_long_word() {
    let data = mono_face_bytes();
    let font = MeasuredFont::parse(&data).unwrap();
    let fitted = fit("AAAAAAAAAAAAAAAAAAAAAAAAAAAAAA", &font, 8000, 40000);
    assert!(fitted.ends_with("..."));
    assert!(font.width(&fitted, 8000) <= 40000);
}

#[test]
fn wrap_collapses_whitespace() {
    let data = mono_face_bytes();
    let font = MeasuredFont::parse(&data).unwrap();
    assert_eq!(wrap("hola   mundo", &font, 8000, 500000), vec!["hola mundo"]);
    assert!(wrap("   ", &font, 8000, 500000).is_empty());
}

#[test]
fn width_is_advance_times_size_over_units_per_em() {
    let data = mono_face_bytes();
    let font = MeasuredFont::parse(&data).unwrap();
    assert_eq!(font.units_per_em(), 2048);
    // 2 × 1229 × 8000 / 2048 = 9601.5…, rounded down.
    assert_eq!(font.width("AB", 8000), 9601);
    assert_eq!(font.width("", 8000), 0);
    // A control character has no glyph in this face and adds nothing.
    assert_eq!(font.width("A\nB", 8000), 9601);
    assert_eq!(font.units_of(&['a', 'é', '\t']), 2458);
    assert!(font.fits("AB", 8000, 9601));
    assert!(!font.fits("AB", 8000, 9600));
    assert_eq!(font.data().len(), data.len());
}

#[test]
fn glyph_run_skips_unmapped_characters() {
    let data = mono_face_bytes();
    let font = MeasuredFont::parse(&data).unwrap();
    let run = font.glyph_run("A\nB");
    assert_eq!(
        run,
        vec![
            Glyph { id: 1, advance: 1229, char_index: 0 },
            Glyph { id: 1, advance: 1229, char_index: 2 },
        ]
    );
    assert!(font.glyph_run("").is_empty());
}

#[test]
fn fit_keeps_the_longest_prefix_that_fits() {
    let data = mono_face_bytes();
    let font = MeasuredFont::parse(&data).unwrap();
    // Eight characters fit in 40 pt at 8 pt: five of the word and the ellipsis.
    assert_eq!(fit("AAAAAAAAAAAAAAAAAAAAAAAAAAAAAA", &font, 8000, 40000), "AAAAA...");
    assert_eq!(fit("AAAA", &font, 8000, 40000), "AAAA");
    // The ellipsis alone is 14402 mpt wide.
    assert_eq!(fit("AAAAAAAAAAAA", &font, 8000, 14402), "");
    assert_eq!(fit("AAAAAAAAAAAA", &font, 8000, 14403), "...");
    assert_eq!(fit("AAAAAAAAAAAA", &font, 8000, -1), "");
}

#[test]
fn wrap_breaks_greedily_and_truncates_long_words() {
    let data = mono_face_bytes();
    let font = MeasuredFont::parse(&data).unwrap();
    // Eight characters per line at 8 pt in 40 pt.
    assert_eq!(wrap("aa bb cc dd ee", &font, 8000, 40000), vec!["aa bb cc", "dd ee"]);
    assert_eq!(
        wrap("a ABCDEFGHIJKL b", &font, 8000, 40000),
        vec!["a", "ABCDE...", "b"]
    );
    assert!(wrap("", &font, 8000, 40000).is_empty());
}

#[test]
fn limited_wrap_folds_the_rest_into_the_last_line() {
    let data = mono_face_bytes();
    let font = MeasuredFont::parse(&data).unwrap();
    let text = "aa bb cc dd ee ff gg hh ii";
    assert_eq!(wrap(text, &font, 8000, 40000), vec!["aa bb cc", "dd ee ff", "gg hh ii"]);
    assert_eq!(limited_wrap(text, &font, 8000, 40000, 2), vec!["aa bb cc", "dd ee..."]);
    assert_eq!(limited_wrap(text, &font, 8000, 40000, 3).len(), 3);
    assert!(limited_wrap(text, &font, 8000, 40000, 0).is_empty());
}

#[test]
fn split_words_on_unicode_white_space() {
    assert_eq!(split_words("  hola\u{3000}mundo\n\tcruel "), vec!["hola", "mundo", "cruel"]);
    assert!(split_words(" \u{A0} ").is_empty());
}

#[test]
fn without_last_char_drops_one_character() {
    assert_eq!(without_last_char("Perú"), "Per");
    assert_eq!(without_last_char("ú"), "");
    assert_eq!(without_last_char(""), "");
}

#[test]
fn white_space_matches_std() {
    for u in 0u32..=0x10_FFFF {
        if let Some(c) = char::from_u32(u) {
            assert_eq!(white_space(c), c.is_whitespace(), "U+{u:04X}");
        }
    }
    assert!(is_blank(" \t\u{2003}"));
    assert!(is_blank(""));
    assert!(!is_blank(" x "));
}

#[test]
fn decimal_digits() {
    assert_eq!(decimal(0), "0");
    assert_eq!(decimal(1234567890), "1234567890");
    assert_eq!(decimal(u128::MAX), u128::MAX.to_string());
}

#[test]
fn parse_reports_why_a_font_is_refused() {
    assert_eq!(MeasuredFont::parse(b"abc").err(), Some(FontError::UnknownMagic));
    assert_eq!(MeasuredFont::parse(b"wxyz0000").err(), Some(FontError::UnknownMagic));
    let mut no_tables = vec![0u8, 1, 0, 0, 0, 0, 0, 0, 0, 0, 0, 0];
    assert_eq!(MeasuredFont::parse(&no_tables).err(), Some(FontError::NoHeadTable));
    no_tables.truncate(6);
    assert_eq!(MeasuredFont::parse(&no_tables).err(), Some(FontError::MalformedFont));
    assert_eq!(FontError::UnknownMagic.message(), "unknown magic");
}

#[test]
fn font_pair_load_names_the_bad_file() {
    let good = mono_face_bytes();
    let bad = b"abc".to_vec();
    let pair = FontPair::load(Family::Mono, &good, "fonts/r.ttf", &good, "fonts/b.ttf").unwrap();
    assert_eq!(pair.family, Family::Mono);
    assert_eq!(pair.pick(true).width("A", 2048), 1229);
    match FontPair::load(Family::Sans, &good, "fonts/r.ttf", &bad, "fonts/b.ttf") {
        Ok(_) => panic!("the bold face was accepted"),
        Err(e) => assert_eq!(e.message(), "assets: fuente inválida fonts/b.ttf: unknown magic"),
    }
    match FontPair::load(Family::Sans, &bad, "fonts/r.ttf", &bad, "fonts/b.ttf") {
        Ok(_) => panic!("the regular face was accepted"),
        Err(e) => assert_eq!(e.message(), "assets: fuente inválida fonts/r.ttf: unknown magic"),
    }
}
