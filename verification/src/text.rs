//! Text measurement and wrap/fit: the single wrapping engine of the crate.
//!
//! Lengths are millipoints (1/1000 pt). A text's width at a font size is its
//! total glyph advance in font units, times the size, divided by the font's
//! units per em (rounded down). Glyph data comes from `ttf_parser`.

use vstd::prelude::*;

use crate::plan::Family;
use crate::protocol::ManifestError;

use crate::strings::{chars_of, is_blank_seq, is_white_space, join2, join3, push_char, white_space};

verus! {

#[verifier::external_type_specification]
#[verifier::external_body]
pub struct ExFace<'a>(ttf_parser::Face<'a>);

/// Why a font file could not be read as a font face.
#[derive(Clone, Copy, Debug, PartialEq, Eq, Structural)]
pub enum FontError {
    MalformedFont,
    UnknownMagic,
    FaceIndexOutOfBounds,
    NoHeadTable,
    NoHheaTable,
    NoMaxpTable,
}

impl FontError {
    pub open spec fn message_spec(self) -> Seq<char> {
        match self {
            FontError::MalformedFont => "malformed font"@,
            FontError::UnknownMagic => "unknown magic"@,
            FontError::FaceIndexOutOfBounds => "face index is out of bounds"@,
            FontError::NoHeadTable => "the head table is missing or malformed"@,
            FontError::NoHheaTable => "the hhea table is missing or malformed"@,
            FontError::NoMaxpTable => "the maxp table is missing or malformed"@,
        }
    }

    /// Human-readable description of the parsing failure.
    pub fn message(&self) -> (s: String)
        ensures
            s@ == self.message_spec(),
    {
        match self {
            FontError::MalformedFont => String::from_str("malformed font"),
            FontError::UnknownMagic => String::from_str("unknown magic"),
            FontError::FaceIndexOutOfBounds => String::from_str("face index is out of bounds"),
            FontError::NoHeadTable => String::from_str("the head table is missing or malformed"),
            FontError::NoHheaTable => String::from_str("the hhea table is missing or malformed"),
            FontError::NoMaxpTable => String::from_str("the maxp table is missing or malformed"),
        }
    }
}

/// What `ttf_parser::Face::parse(font, 0)` reports: `None` when the face
/// parses, otherwise the kind of failure.
pub uninterp spec fn ttf_parse_error(font: Seq<u8>) -> Option<FontError>;

/// What `Face::glyph_index` returns for `c` on the face parsed from `font`.
pub uninterp spec fn ttf_glyph_index(font: Seq<u8>, c: char) -> Option<u16>;

/// What `Face::glyph_hor_advance` returns for `glyph` on the face parsed from `font`.
pub uninterp spec fn ttf_glyph_advance(font: Seq<u8>, glyph: u16) -> Option<u16>;

/// What `Face::units_per_em` returns on the face parsed from `font`.
pub uninterp spec fn ttf_units_per_em(font: Seq<u8>) -> u16;

/// Parses face 0 of `data`.
///
/// Trusted: calls `ttf_parser::Face::parse(data, 0)`; the result is a
/// function of the bytes alone, named by `ttf_parse_error`. The error
/// variants are carried over one for one.
#[verifier::external_body]
fn parse_face<'a>(data: &'a [u8]) -> (r: Result<ttf_parser::Face<'a>, FontError>)
    ensures
        r is Ok <==> ttf_parse_error(data@) is None,
        r matches Err(e) ==> ttf_parse_error(data@) == Some(e),
{
    match ttf_parser::Face::parse(data, 0) {
        Ok(face) => Ok(face),
        Err(ttf_parser::FaceParsingError::MalformedFont) => Err(FontError::MalformedFont),
        Err(ttf_parser::FaceParsingError::UnknownMagic) => Err(FontError::UnknownMagic),
        Err(ttf_parser::FaceParsingError::FaceIndexOutOfBounds) => Err(
            FontError::FaceIndexOutOfBounds,
        ),
        Err(ttf_parser::FaceParsingError::NoHeadTable) => Err(FontError::NoHeadTable),
        Err(ttf_parser::FaceParsingError::NoHheaTable) => Err(FontError::NoHheaTable),
        Err(ttf_parser::FaceParsingError::NoMaxpTable) => Err(FontError::NoMaxpTable),
    }
}

/// A font face together with the bytes it was parsed from.
pub struct MeasuredFont<'a> {
    data: &'a [u8],
    face: ttf_parser::Face<'a>,
}

impl<'a> View for MeasuredFont<'a> {
    type V = Seq<u8>;

    /// A font is identified with the bytes its face was parsed from.
    closed spec fn view(&self) -> Seq<u8> {
        self.data@
    }
}

/// Units per em with the zero case mapped to one (the face never reports zero).
pub open spec fn font_upem(font: Seq<u8>) -> nat {
    let u = ttf_units_per_em(font);
    if u == 0 {
        1
    } else {
        u as nat
    }
}

/// The advance of `c` in font units: zero when the font has no glyph for it
/// or no advance for that glyph.
pub open spec fn char_units(font: Seq<u8>, c: char) -> nat {
    match ttf_glyph_index(font, c) {
        Some(g) => match ttf_glyph_advance(font, g) {
            Some(a) => a as nat,
            None => 0,
        },
        None => 0,
    }
}

/// Total advance of `s` in font units.
pub open spec fn text_units(font: Seq<u8>, s: Seq<char>) -> nat
    decreases s.len(),
{
    if s.len() == 0 {
        0
    } else {
        text_units(font, s.drop_last()) + char_units(font, s.last())
    }
}

/// Width of `s` in millipoints at `size` millipoints, rounded down.
pub open spec fn text_width(font: Seq<u8>, s: Seq<char>, size: nat) -> int {
    (text_units(font, s) * size / font_upem(font)) as int
}

/// `s` fits in `max_width` millipoints at `size`.
pub open spec fn fits(font: Seq<u8>, size: nat, max_width: int, s: Seq<char>) -> bool {
    text_width(font, s, size) <= max_width
}

/// One positioned glyph: its id, its advance in font units and the index
/// of the character it draws.
#[derive(Clone, Copy, Debug, PartialEq, Eq, Structural)]
pub struct Glyph {
    pub id: u16,
    pub advance: u16,
    pub char_index: usize,
}

/// The glyphs drawn for `s`: characters without a glyph are skipped, and a
/// glyph without an advance advances by zero.
pub open spec fn glyph_run_seq(font: Seq<u8>, s: Seq<char>) -> Seq<Glyph>
    decreases s.len(),
{
    if s.len() == 0 {
        seq![]
    } else {
        let prev = glyph_run_seq(font, s.drop_last());
        match ttf_glyph_index(font, s.last()) {
            Some(g) => prev.push(
                Glyph {
                    id: g,
                    advance: match ttf_glyph_advance(font, g) {
                        Some(a) => a,
                        None => 0,
                    },
                    char_index: (s.len() - 1) as usize,
                },
            ),
            None => prev,
        }
    }
}

/// Sum of the advances of a glyph run.
pub open spec fn run_advance(run: Seq<Glyph>) -> nat
    decreases run.len(),
{
    if run.len() == 0 {
        0
    } else {
        run_advance(run.drop_last()) + run.last().advance as nat
    }
}

/// A text's advance is at most 65535 font units per character.
pub proof fn lemma_text_units_bound(font: Seq<u8>, s: Seq<char>)
    ensures
        text_units(font, s) <= 65535 * s.len(),
    decreases s.len(),
{
    if s.len() > 0 {
        lemma_text_units_bound(font, s.drop_last());
    }
}

/// The advance of two texts one after the other is the sum of their advances.
pub proof fn lemma_text_units_append(font: Seq<u8>, a: Seq<char>, b: Seq<char>)
    ensures
        text_units(font, a + b) == text_units(font, a) + text_units(font, b),
    decreases b.len(),
{
    if b.len() == 0 {
        assert(a + b =~= a);
    } else {
        lemma_text_units_append(font, a, b.drop_last());
        assert((a + b).drop_last() =~= a + b.drop_last());
        assert((a + b).last() == b.last());
    }
}

/// Widths grow with the advance they measure.
pub proof fn lemma_width_monotone(font: Seq<u8>, a: Seq<char>, b: Seq<char>, size: nat)
    requires
        text_units(font, a) <= text_units(font, b),
    ensures
        text_width(font, a, size) <= text_width(font, b, size),
{
    let d = font_upem(font);
    let ua = text_units(font, a);
    let ub = text_units(font, b);
    assert(ua * size <= ub * size) by (nonlinear_arith)
        requires
            ua <= ub,
    ;
    assert((ua * size) / d <= (ub * size) / d) by (nonlinear_arith)
        requires
            ua * size <= ub * size,
            d > 0,
    ;
}

/// Appending characters never makes a text narrower.
pub proof fn lemma_width_append(font: Seq<u8>, a: Seq<char>, b: Seq<char>, size: nat)
    ensures
        text_width(font, a, size) <= text_width(font, a + b, size),
{
    lemma_text_units_append(font, a, b);
    lemma_width_monotone(font, a, a + b, size);
}

/// The empty text has no width.
pub proof fn lemma_empty_width(font: Seq<u8>, size: nat)
    ensures
        text_width(font, seq![], size) == 0,
{
    assert(text_units(font, seq![]) == 0);
    assert(0 * size == 0) by (nonlinear_arith);
}

/// Extending a prefix by one character adds that character's advance.
pub proof fn lemma_text_units_take(font: Seq<u8>, s: Seq<char>, i: int)
    requires
        0 <= i < s.len(),
    ensures
        text_units(font, s.take(i + 1)) == text_units(font, s.take(i)) + char_units(font, s[i]),
{
    assert(s.take(i + 1).drop_last() =~= s.take(i));
}

impl<'a> MeasuredFont<'a> {
    /// Parses face 0 of `data`.
    pub fn parse(data: &'a [u8]) -> (r: Result<MeasuredFont<'a>, FontError>)
        ensures
            r is Ok <==> ttf_parse_error(data@) is None,
            r matches Ok(f) ==> f@ == data@,
            r matches Err(e) ==> ttf_parse_error(data@) == Some(e),
    {
        match parse_face(data) {
            Ok(face) => Ok(MeasuredFont { data, face }),
            Err(e) => Err(e),
        }
    }

    /// The font file's bytes.
    pub fn data(&self) -> (d: &'a [u8])
        ensures
            d@ == self@,
    {
        self.data
    }

    /// Units per em of the face.
    ///
    /// Trusted: calls `ttf_parser::Face::units_per_em`; a face only parses
    /// when its `head` table gives a value in `16..=16384`.
    #[verifier::external_body]
    fn face_units_per_em(&self) -> (r: u16)
        ensures
            r == ttf_units_per_em(self@),
            16 <= r <= 16384,
    {
        self.face.units_per_em()
    }

    /// Units per em of the face, the unit of glyph advances.
    pub fn units_per_em(&self) -> (r: u16)
        ensures
            r == ttf_units_per_em(self@),
            16 <= r <= 16384,
    {
        self.face_units_per_em()
    }

    /// Glyph id of `c`, if the face maps it.
    ///
    /// Trusted: calls `ttf_parser::Face::glyph_index`; the result is a
    /// function of the font bytes and the character.
    #[verifier::external_body]
    fn glyph_index(&self, c: char) -> (r: Option<u16>)
        ensures
            r == ttf_glyph_index(self@, c),
    {
        match self.face.glyph_index(c) {
            Some(g) => Some(g.0),
            None => None,
        }
    }

    /// Horizontal advance of `glyph`, if the face has one.
    ///
    /// Trusted: calls `ttf_parser::Face::glyph_hor_advance`; the result is
    /// a function of the font bytes and the glyph id.
    #[verifier::external_body]
    fn glyph_advance(&self, glyph: u16) -> (r: Option<u16>)
        ensures
            r == ttf_glyph_advance(self@, glyph),
    {
        self.face.glyph_hor_advance(ttf_parser::GlyphId(glyph))
    }

    fn char_units(&self, c: char) -> (u: u16)
        ensures
            u as nat == char_units(self@, c),
    {
        match self.glyph_index(c) {
            Some(g) => match self.glyph_advance(g) {
                Some(a) => a,
                None => 0,
            },
            None => 0,
        }
    }

    /// Total advance of `chars` in font units.
    pub fn units_of(&self, chars: &[char]) -> (u: u128)
        ensures
            u == text_units(self@, chars@),
            u <= 65535 * chars@.len(),
    {
        let n = chars.len();
        let mut total: u128 = 0;
        for i in 0..n
            invariant
                n == chars@.len(),
                total == text_units(self@, chars@.take(i as int)),
                total <= 65535 * i,
        {
            proof {
                lemma_text_units_take(self@, chars@, i as int);
            }
            let u = self.char_units(chars[i]);
            total = total + u as u128;
        }
        proof {
            assert(chars@.take(n as int) =~= chars@);
        }
        total
    }

    /// Width of `text` in millipoints at `size` millipoints, rounded down.
    pub fn width(&self, text: &str, size: u32) -> (w: u128)
        ensures
            w == text_width(self@, text@, size as nat),
            w < 0x1_0000_0000_0000_0000_0000_0000_0000,
    {
        let chars = chars_of(text);
        let n = chars.len();
        let units = self.units_of(chars.as_slice());
        let upem = self.face_units_per_em();
        proof {
            let len = chars@.len();
            assert(len <= 0xffff_ffff_ffff_ffff);
            assert(units * (size as int) <= 65535 * len * 0xffff_ffff) by (nonlinear_arith)
                requires
                    units <= 65535 * len,
                    size <= 0xffff_ffff,
            ;
            assert(65535 * len * 0xffff_ffff <= 65535 * 0xffff_ffff_ffff_ffff * 0xffff_ffff)
                by (nonlinear_arith)
                requires
                    len <= 0xffff_ffff_ffff_ffff,
            ;
            assert(units * (size as int) / (upem as int) <= units * (size as int)) by (
            nonlinear_arith)
                requires
                    upem >= 16,
                    units * (size as int) >= 0,
            ;
        }
        units * (size as u128) / (upem as u128)
    }

    /// Whether `text` fits in `max_width` millipoints at `size`.
    pub fn fits(&self, text: &str, size: u32, max_width: i128) -> (b: bool)
        ensures
            b == fits(self@, size as nat, max_width as int, text@),
    {
        let w = self.width(text, size);
        (w as i128) <= max_width
    }

    /// The glyphs to draw for `text`, with their advances in font units.
    pub fn glyph_run(&self, text: &str) -> (run: Vec<Glyph>)
        ensures
            run@ == glyph_run_seq(self@, text@),
    {
        let chars = chars_of(text);
        let n = chars.len();
        let mut run: Vec<Glyph> = Vec::new();
        for i in 0..n
            invariant
                n == chars@.len(),
                chars@ == text@,
                run@ == glyph_run_seq(self@, chars@.take(i as int)),
        {
            proof {
                assert(chars@.take(i + 1).drop_last() =~= chars@.take(i as int));
            }
            match self.glyph_index(chars[i]) {
                Some(g) => {
                    let advance = match self.glyph_advance(g) {
                        Some(a) => a,
                        None => 0,
                    };
                    run.push(Glyph { id: g, advance, char_index: i });
                },
                None => {},
            }
        }
        proof {
            assert(chars@.take(n as int) =~= chars@);
        }
        run
    }
}

/// The glyph run of a text advances by exactly its width in font units.
pub proof fn lemma_run_advance(font: Seq<u8>, s: Seq<char>)
    ensures
        run_advance(glyph_run_seq(font, s)) == text_units(font, s),
    decreases s.len(),
{
    if s.len() > 0 {
        lemma_run_advance(font, s.drop_last());
        let prev = glyph_run_seq(font, s.drop_last());
        match ttf_glyph_index(font, s.last()) {
            Some(g) => {
                assert(glyph_run_seq(font, s).drop_last() =~= prev);
            },
            None => {},
        }
    }
}

// ---------- words ----------

/// Views of a sequence of strings.
pub open spec fn strs(v: Seq<String>) -> Seq<Seq<char>> {
    v.map_values(|s: String| s@)
}

/// The maximal runs of non-white-space characters of `s`, in order.
pub open spec fn words(s: Seq<char>) -> Seq<Seq<char>>
    decreases s.len(),
{
    if s.len() == 0 {
        seq![]
    } else {
        let prev = words(s.drop_last());
        let c = s.last();
        if is_white_space(c) {
            prev
        } else if s.len() >= 2 && !is_white_space(s[s.len() - 2]) {
            prev.update(prev.len() - 1, prev.last().push(c))
        } else {
            prev.push(seq![c])
        }
    }
}

/// Every word is non-empty and free of white space; a text ending in a
/// non-white-space character has at least one word.
pub proof fn lemma_words_shape(s: Seq<char>)
    ensures
        forall|i: int|
            0 <= i < words(s).len() ==> #[trigger] words(s)[i].len() > 0 && forall|j: int|
                0 <= j < words(s)[i].len() ==> !is_white_space(#[trigger] words(s)[i][j]),
        s.len() > 0 && !is_white_space(s.last()) ==> words(s).len() > 0,
    decreases s.len(),
{
    if s.len() > 0 {
        lemma_words_shape(s.drop_last());
        let prev = words(s.drop_last());
        let c = s.last();
        if !is_white_space(c) && s.len() >= 2 && !is_white_space(s[s.len() - 2]) {
            assert(s.drop_last().last() == s[s.len() - 2]);
            let w = words(s);
            assert forall|i: int| 0 <= i < w.len() implies #[trigger] w[i].len() > 0 && forall|
                j: int,
            |
                0 <= j < w[i].len() ==> !is_white_space(#[trigger] w[i][j]) by {
                if i == w.len() - 1 {
                    assert(w[i] == prev.last().push(c));
                    assert forall|j: int| 0 <= j < w[i].len() implies !is_white_space(
                        #[trigger] w[i][j],
                    ) by {
                        if j < prev.last().len() {
                            assert(w[i][j] == prev[prev.len() - 1][j]);
                        }
                    }
                } else {
                    assert(w[i] == prev[i]);
                }
            }
        }
    }
}

/// The words of white-space-only text: none.
pub proof fn lemma_blank_has_no_words(s: Seq<char>)
    requires
        is_blank_seq(s),
    ensures
        words(s).len() == 0,
    decreases s.len(),
{
    if s.len() > 0 {
        assert(is_white_space(s[s.len() - 1]));
        assert forall|i: int| 0 <= i < s.drop_last().len() implies is_white_space(
            #[trigger] s.drop_last()[i],
        ) by {
            assert(s.drop_last()[i] == s[i]);
        }
        lemma_blank_has_no_words(s.drop_last());
    }
}

proof fn lemma_strs_push(v: Seq<String>, s: String)
    ensures
        strs(v.push(s)) == strs(v).push(s@),
{
    assert(strs(v.push(s)) =~= strs(v).push(s@));
}

/// The words of `text`, in order.
pub fn split_words(text: &str) -> (ws: Vec<String>)
    ensures
        strs(ws@) == words(text@),
{
    let chars = chars_of(text);
    let n = chars.len();
    let mut done: Vec<String> = Vec::new();
    let mut cur = String::new();
    let mut in_word = false;
    for i in 0..n
        invariant
            n == chars@.len(),
            in_word == (i > 0 && !is_white_space(chars@[i - 1])),
            !in_word ==> cur@.len() == 0,
            words(chars@.take(i as int)) == if in_word {
                strs(done@).push(cur@)
            } else {
                strs(done@)
            },
    {
        let c = chars[i];
        let ghost t = chars@.take(i + 1);
        proof {
            assert(t.drop_last() =~= chars@.take(i as int));
            assert(t.last() == c);
            if i > 0 {
                assert(t[t.len() - 2] == chars@[i - 1]);
            }
        }
        if white_space(c) {
            if in_word {
                proof {
                    lemma_strs_push(done@, cur);
                }
                done.push(cur);
                cur = String::new();
                in_word = false;
            }
        } else if in_word {
            let ghost before = cur@;
            push_char(&mut cur, c);
            proof {
                let p = strs(done@).push(before);
                assert(p.update(p.len() - 1, p.last().push(c)) =~= strs(done@).push(cur@));
            }
        } else {
            push_char(&mut cur, c);
            in_word = true;
            proof {
                assert(cur@ =~= seq![c]);
            }
        }
    }
    if in_word {
        proof {
            lemma_strs_push(done@, cur);
        }
        done.push(cur);
    }
    proof {
        assert(chars@.take(n as int) =~= chars@);
    }
    done
}

// ---------- fit ----------

/// The ellipsis appended to truncated text.
pub open spec fn ellipsis() -> Seq<char> {
    seq!['.', '.', '.']
}

/// How many leading characters of `t` survive truncation: the largest
/// `j <= k` whose prefix followed by the ellipsis fits, or zero.
pub open spec fn fit_keep(font: Seq<u8>, size: nat, max_width: int, t: Seq<char>, k: nat) -> nat
    decreases k,
{
    if k == 0 {
        0
    } else if fits(font, size, max_width, t.take(k as int) + ellipsis()) {
        k
    } else {
        fit_keep(font, size, max_width, t, (k - 1) as nat)
    }
}

/// `t` truncated with an ellipsis to fit `max_width`: unchanged when it
/// fits, empty when not even the ellipsis fits with room to spare, and
/// otherwise its longest prefix that fits followed by the ellipsis.
pub open spec fn fit_text(font: Seq<u8>, size: nat, max_width: int, t: Seq<char>) -> Seq<char> {
    if fits(font, size, max_width, t) {
        t
    } else if text_width(font, ellipsis(), size) >= max_width {
        seq![]
    } else {
        t.take(fit_keep(font, size, max_width, t, t.len()) as int) + ellipsis()
    }
}

/// The kept length is at most `k`; unless it is zero, that prefix followed
/// by the ellipsis fits, and no longer prefix up to `k` characters does.
pub proof fn lemma_fit_keep(font: Seq<u8>, size: nat, max_width: int, t: Seq<char>, k: nat)
    requires
        k <= t.len(),
    ensures
        fit_keep(font, size, max_width, t, k) <= k,
        fit_keep(font, size, max_width, t, k) == 0 || fits(
            font,
            size,
            max_width,
            t.take(fit_keep(font, size, max_width, t, k) as int) + ellipsis(),
        ),
        forall|j: int|
            fit_keep(font, size, max_width, t, k) < j <= k ==> !fits(
                font,
                size,
                max_width,
                #[trigger] t.take(j) + ellipsis(),
            ),
    decreases k,
{
    if k > 0 {
        lemma_fit_keep(font, size, max_width, t, (k - 1) as nat);
    }
}

/// What `fit` returns fits whenever the width limit is not negative.
pub proof fn lemma_fit_text_fits(font: Seq<u8>, size: nat, max_width: int, t: Seq<char>)
    requires
        max_width >= 0,
    ensures
        fits(font, size, max_width, fit_text(font, size, max_width, t)),
{
    lemma_empty_width(font, size);
    lemma_fit_keep(font, size, max_width, t, t.len());
    assert(t.take(0) + ellipsis() =~= ellipsis());
}

/// Removes the last character of `s`, if any.
pub fn without_last_char(s: &str) -> (r: &str)
    ensures
        s@.len() == 0 ==> r@ == s@,
        s@.len() > 0 ==> r@ == s@.drop_last(),
{
    let n = s.unicode_len();
    if n == 0 {
        s
    } else {
        let r = s.substring_char(0, n - 1);
        proof {
            assert(r@ =~= s@.drop_last());
        }
        r
    }
}

/// Truncates `text` with an ellipsis so that it fits `max_width`.
pub fn fit(text: &str, font: &MeasuredFont, size: u32, max_width: i128) -> (r: String)
    ensures
        r@ == fit_text(font@, size as nat, max_width as int, text@),
        r@ == text@ || r@.len() == 0 || (exists|k: int|
            0 <= k < text@.len() && r@ == text@.take(k) + ellipsis()),
        max_width >= 0 ==> fits(font@, size as nat, max_width as int, r@),
{
    proof {
        reveal_strlit("...");
        assert("..."@ =~= ellipsis());
    }
    if font.fits(text, size, max_width) {
        return String::from_str(text);
    }
    let suffix = "...";
    proof {
        assert(suffix@ == ellipsis());
    }
    let suffix_width = font.width(suffix, size);
    if suffix_width as i128 >= max_width {
        proof {
            lemma_empty_width(font@, size as nat);
        }
        return String::new();
    }
    let ghost font_v = font@;
    let ghost t = text@;
    let mut fitted: &str = text;
    let ghost mut k: nat = t.len();
    loop
        invariant
            k <= t.len(),
            fitted@ == t.take(k as int),
            fit_keep(font_v, size as nat, max_width as int, t, t.len()) == fit_keep(
                font_v,
                size as nat,
                max_width as int,
                t,
                k,
            ),
            suffix@ == ellipsis(),
            font_v == font@,
        ensures
            k == 0 || fits(font_v, size as nat, max_width as int, t.take(k as int) + ellipsis()),
        decreases k,
    {
        if fitted.is_empty() {
            break ;
        }
        let candidate = join2(fitted, suffix);
        if font.fits(candidate.as_str(), size, max_width) {
            proof {
                assert(candidate@ == t.take(k as int) + ellipsis());
            }
            break ;
        }
        proof {
            assert(candidate@ == t.take(k as int) + ellipsis());
            assert(fit_keep(font_v, size as nat, max_width as int, t, k) == fit_keep(
                font_v,
                size as nat,
                max_width as int,
                t,
                (k - 1) as nat,
            ));
        }
        fitted = without_last_char(fitted);
        proof {
            assert(t.take(k as int).drop_last() =~= t.take(k - 1));
            k = (k - 1) as nat;
        }
    }
    proof {
        assert(t.take(t.len() as int) =~= t);
        lemma_fit_keep(font_v, size as nat, max_width as int, t, t.len());
        lemma_empty_width(font_v, size as nat);
        assert(t.take(0) + ellipsis() =~= ellipsis());
        lemma_width_append(font_v, t, ellipsis(), size as nat);
    }
    let ghost kept = fit_keep(font_v, size as nat, max_width as int, t, t.len());
    if fitted.is_empty() {
        proof {
            assert(kept == 0);
            assert(t.take(0) + ellipsis() =~= ellipsis());
        }
        String::from_str(suffix)
    } else {
        let r = join2(fitted, suffix);
        proof {
            assert(kept == k);
            if k == t.len() {
                assert(t.take(k as int) =~= t);
            }
            assert(k < t.len());
        }
        r
    }
}

// ---------- wrap ----------

/// One greedy step: `st` holds the finished lines and the line being
/// filled; `w` is the next word.
pub open spec fn wrap_step(
    font: Seq<u8>,
    size: nat,
    max_width: int,
    st: (Seq<Seq<char>>, Seq<char>),
    w: Seq<char>,
) -> (Seq<Seq<char>>, Seq<char>) {
    let lines = st.0;
    let line = st.1;
    let candidate = if line.len() == 0 {
        w
    } else {
        line + seq![' '] + w
    };
    if fits(font, size, max_width, candidate) {
        (lines, candidate)
    } else {
        let closed = if line.len() > 0 {
            lines.push(line)
        } else {
            lines
        };
        if fits(font, size, max_width, w) {
            (closed, w)
        } else {
            (closed.push(fit_text(font, size, max_width, w)), seq![])
        }
    }
}

/// The greedy state after placing the words `ws` in order.
pub open spec fn wrap_fold(font: Seq<u8>, size: nat, max_width: int, ws: Seq<Seq<char>>) -> (
    Seq<Seq<char>>,
    Seq<char>,
)
    decreases ws.len(),
{
    if ws.len() == 0 {
        (seq![], seq![])
    } else {
        wrap_step(font, size, max_width, wrap_fold(font, size, max_width, ws.drop_last()), ws.last())
    }
}

/// The lines of `text` wrapped greedily, word by word, to `max_width`: a
/// word joins the current line when the line with a space and the word
/// still fits; otherwise it opens a new line, truncated with `fit` when
/// even alone it is too wide.
pub open spec fn wrap_lines(font: Seq<u8>, size: nat, max_width: int, text: Seq<char>) -> Seq<
    Seq<char>,
> {
    let st = wrap_fold(font, size, max_width, words(text));
    if st.1.len() > 0 {
        st.0.push(st.1)
    } else {
        st.0
    }
}

/// Lines joined with single spaces.
pub open spec fn join_words(ws: Seq<Seq<char>>) -> Seq<char>
    decreases ws.len(),
{
    if ws.len() == 0 {
        seq![]
    } else if ws.len() == 1 {
        ws[0]
    } else {
        join_words(ws.drop_last()) + seq![' '] + ws.last()
    }
}

proof fn lemma_join_push(ws: Seq<Seq<char>>, x: Seq<char>)
    ensures
        join_words(ws.push(x)) == if ws.len() == 0 {
            x
        } else {
            join_words(ws) + seq![' '] + x
        },
{
    assert(ws.push(x).drop_last() =~= ws);
}

proof fn lemma_wrap_fold_fits(font: Seq<u8>, size: nat, max_width: int, ws: Seq<Seq<char>>)
    requires
        max_width >= 0,
    ensures
        forall|i: int|
            0 <= i < wrap_fold(font, size, max_width, ws).0.len() ==> fits(
                font,
                size,
                max_width,
                #[trigger] wrap_fold(font, size, max_width, ws).0[i],
            ),
        wrap_fold(font, size, max_width, ws).1.len() == 0 || fits(
            font,
            size,
            max_width,
            wrap_fold(font, size, max_width, ws).1,
        ),
    decreases ws.len(),
{
    if ws.len() > 0 {
        lemma_wrap_fold_fits(font, size, max_width, ws.drop_last());
        lemma_fit_text_fits(font, size, max_width, ws.last());
    }
}

proof fn lemma_wrap_fold_join(font: Seq<u8>, size: nat, max_width: int, ws: Seq<Seq<char>>)
    requires
        forall|i: int| 0 <= i < ws.len() ==> fits(font, size, max_width, #[trigger] ws[i]),
        forall|i: int| 0 <= i < ws.len() ==> (#[trigger] ws[i]).len() > 0,
    ensures
        ws.len() == 0 ==> wrap_fold(font, size, max_width, ws) == (
            Seq::<Seq<char>>::empty(),
            Seq::<char>::empty(),
        ),
        ws.len() > 0 ==> wrap_fold(font, size, max_width, ws).1.len() > 0 && join_words(
            wrap_fold(font, size, max_width, ws).0.push(wrap_fold(font, size, max_width, ws).1),
        ) == join_words(ws),
    decreases ws.len(),
{
    if ws.len() > 0 {
        let rest = ws.drop_last();
        let w = ws.last();
        assert(fits(font, size, max_width, ws[ws.len() - 1]));
        assert(ws[ws.len() - 1].len() > 0);
        lemma_wrap_fold_join(font, size, max_width, rest);
        let prev = wrap_fold(font, size, max_width, rest);
        lemma_join_push(rest, w);
        assert(rest.push(w) =~= ws);
        if rest.len() == 0 {
            assert(join_words(seq![w]) == w);
            assert(seq![w] =~= Seq::<Seq<char>>::empty().push(w));
        } else {
            let cand = prev.1 + seq![' '] + w;
            lemma_join_push(prev.0, prev.1);
            if fits(font, size, max_width, cand) {
                lemma_join_push(prev.0, cand);
                if prev.0.len() == 0 {
                    assert(cand == join_words(rest) + seq![' '] + w);
                } else {
                    assert(join_words(prev.0) + seq![' '] + cand =~= join_words(prev.0) + seq![
                        ' ',
                    ] + prev.1 + seq![' '] + w);
                }
            } else {
                lemma_join_push(prev.0.push(prev.1), w);
            }
        }
    }
}

/// Wrapped lines fit: with a non-negative limit, every line of
/// `wrap_lines` fits the limit.
pub proof fn lemma_wrap_lines_fit(font: Seq<u8>, size: nat, max_width: int, text: Seq<char>)
    requires
        max_width >= 0,
    ensures
        forall|i: int|
            0 <= i < wrap_lines(font, size, max_width, text).len() ==> fits(
                font,
                size,
                max_width,
                #[trigger] wrap_lines(font, size, max_width, text)[i],
            ),
{
    let st = wrap_fold(font, size, max_width, words(text));
    lemma_wrap_fold_fits(font, size, max_width, words(text));
    let lines = wrap_lines(font, size, max_width, text);
    assert forall|i: int| 0 <= i < lines.len() implies fits(
        font,
        size,
        max_width,
        #[trigger] lines[i],
    ) by {
        if i < st.0.len() {
            assert(lines[i] == st.0[i]);
        } else {
            assert(lines[i] == st.1);
        }
    }
}

/// Wrapping keeps the words: when every word fits the limit on its own,
/// the lines joined by single spaces are the words joined by single spaces.
pub proof fn lemma_wrap_lines_keep_words(
    font: Seq<u8>,
    size: nat,
    max_width: int,
    text: Seq<char>,
)
    requires
        forall|i: int|
            0 <= i < words(text).len() ==> fits(font, size, max_width, #[trigger] words(text)[i]),
    ensures
        join_words(wrap_lines(font, size, max_width, text)) == join_words(words(text)),
{
    lemma_words_shape(text);
    lemma_wrap_fold_join(font, size, max_width, words(text));
}

/// Text without words wraps to no lines, and text with words to some.
pub proof fn lemma_wrap_lines_empty(font: Seq<u8>, size: nat, max_width: int, text: Seq<char>)
    ensures
        (wrap_lines(font, size, max_width, text).len() == 0) == (words(text).len() == 0),
{
    lemma_words_shape(text);
    lemma_wrap_fold_nonempty(font, size, max_width, words(text));
}

proof fn lemma_wrap_fold_nonempty(font: Seq<u8>, size: nat, max_width: int, ws: Seq<Seq<char>>)
    requires
        forall|i: int| 0 <= i < ws.len() ==> (#[trigger] ws[i]).len() > 0,
    ensures
        ws.len() == 0 ==> wrap_fold(font, size, max_width, ws).0.len() == 0 && wrap_fold(
            font,
            size,
            max_width,
            ws,
        ).1.len() == 0,
        ws.len() > 0 ==> wrap_fold(font, size, max_width, ws).0.len() > 0 || wrap_fold(
            font,
            size,
            max_width,
            ws,
        ).1.len() > 0,
    decreases ws.len(),
{
    if ws.len() > 0 {
        assert(ws[ws.len() - 1].len() > 0);
        lemma_wrap_fold_nonempty(font, size, max_width, ws.drop_last());
    }
}

/// Text made of no words is white space only.
pub proof fn lemma_no_words_blank(s: Seq<char>)
    requires
        words(s).len() == 0,
    ensures
        is_blank_seq(s),
    decreases s.len(),
{
    if s.len() > 0 {
        lemma_words_shape(s);
        assert(is_white_space(s.last()));
        let prev = words(s.drop_last());
        assert(prev.len() == 0);
        lemma_no_words_blank(s.drop_last());
        assert forall|i: int| 0 <= i < s.len() implies is_white_space(#[trigger] s[i]) by {
            if i < s.len() - 1 {
                assert(s[i] == s.drop_last()[i]);
            }
        }
    }
}

/// Splits `text` into lines of at most `max_width` millipoints at `size`,
/// greedily by words (white space runs collapse to one space).
pub fn wrap(text: &str, font: &MeasuredFont, size: u32, max_width: i128) -> (lines: Vec<String>)
    ensures
        strs(lines@) == wrap_lines(font@, size as nat, max_width as int, text@),
        max_width >= 0 ==> forall|i: int|
            0 <= i < lines@.len() ==> fits(font@, size as nat, max_width as int, #[trigger] lines@[i]@),
        (forall|i: int|
            0 <= i < words(text@).len() ==> fits(font@, size as nat, max_width as int, #[trigger] words(text@)[i]))
            ==> join_words(strs(lines@)) == join_words(words(text@)),
        is_blank_seq(text@) ==> lines@.len() == 0,
{
    proof {
        reveal_strlit(" ");
        assert(" "@ =~= seq![' ']);
    }
    let ws = split_words(text);
    let ghost font_v = font@;
    let ghost all = words(text@);
    let mut lines: Vec<String> = Vec::new();
    let mut line = String::new();
    let n = ws.len();
    for j in 0..n
        invariant
            n == ws@.len(),
            strs(ws@) == all,
            font_v == font@,
            " "@ == seq![' '],
            (strs(lines@), line@) == wrap_fold(font_v, size as nat, max_width as int, all.take(j as int)),
    {
        let word = &ws[j];
        proof {
            assert(all.take(j + 1).drop_last() =~= all.take(j as int));
            assert(word@ == all[j as int]);
        }
        let candidate = if line.as_str().is_empty() {
            word.clone()
        } else {
            join3(line.as_str(), " ", word.as_str())
        };
        if font.fits(candidate.as_str(), size, max_width) {
            line = candidate;
        } else {
            if !line.as_str().is_empty() {
                proof {
                    lemma_strs_push(lines@, line);
                }
                lines.push(line);
                line = String::new();
            }
            if font.fits(word.as_str(), size, max_width) {
                line = word.clone();
            } else {
                let fitted = fit(word.as_str(), font, size, max_width);
                proof {
                    lemma_strs_push(lines@, fitted);
                }
                lines.push(fitted);
            }
        }
    }
    if !line.as_str().is_empty() {
        proof {
            lemma_strs_push(lines@, line);
        }
        lines.push(line);
    }
    proof {
        assert(all.take(n as int) =~= all);
        assert(strs(lines@) =~= wrap_lines(font_v, size as nat, max_width as int, text@));
        if max_width >= 0 {
            lemma_wrap_lines_fit(font_v, size as nat, max_width as int, text@);
            assert forall|i: int| 0 <= i < lines@.len() implies fits(
                font_v,
                size as nat,
                max_width as int,
                #[trigger] lines@[i]@,
            ) by {
                assert(strs(lines@)[i] == lines@[i]@);
            }
        }
        if forall|i: int|
            0 <= i < all.len() ==> fits(font_v, size as nat, max_width as int, #[trigger] all[i]) {
            lemma_wrap_lines_keep_words(font_v, size as nat, max_width as int, text@);
        }
        if is_blank_seq(text@) {
            lemma_blank_has_no_words(text@);
        }
    }
    lines
}

/// The wrapped lines of `text` clamped to `max_lines`: when there are more,
/// the last kept line holds the remaining lines joined by spaces, truncated
/// with `fit`.
pub open spec fn limited_lines(
    font: Seq<u8>,
    size: nat,
    max_width: int,
    text: Seq<char>,
    max_lines: nat,
) -> Seq<Seq<char>> {
    let lines = wrap_lines(font, size, max_width, text);
    if lines.len() <= max_lines {
        lines
    } else if max_lines == 0 {
        seq![]
    } else {
        lines.take(max_lines - 1).push(
            fit_text(font, size, max_width, join_words(lines.skip(max_lines - 1))),
        )
    }
}

/// Wraps `text` like `wrap`, in at most `max_lines` lines.
pub fn limited_wrap(
    text: &str,
    font: &MeasuredFont,
    size: u32,
    max_width: i128,
    max_lines: usize,
) -> (lines: Vec<String>)
    ensures
        strs(lines@) == limited_lines(font@, size as nat, max_width as int, text@, max_lines as nat),
        lines@.len() <= max_lines,
        max_width >= 0 ==> forall|i: int|
            0 <= i < lines@.len() ==> fits(font@, size as nat, max_width as int, #[trigger] lines@[i]@),
{
    proof {
        reveal_strlit(" ");
        assert(" "@ =~= seq![' ']);
    }
    let mut lines = wrap(text, font, size, max_width);
    let ghost all = strs(lines@);
    if lines.len() <= max_lines {
        return lines;
    }
    if max_lines == 0 {
        return Vec::new();
    }
    let keep = max_lines - 1;
    let total = lines.len();
    let mut rest = lines[keep].clone();
    proof {
        assert(all.subrange(keep as int, keep + 1) =~= seq![all[keep as int]]);
    }
    for j in keep + 1..total
        invariant
            keep < total,
            total == lines@.len(),
            all == strs(lines@),
            " "@ == seq![' '],
            rest@ == join_words(all.subrange(keep as int, j as int)),
    {
        proof {
            assert(all.subrange(keep as int, j + 1) =~= all.subrange(keep as int, j as int).push(
                all[j as int],
            ));
            lemma_join_push(all.subrange(keep as int, j as int), all[j as int]);
        }
        rest = join3(rest.as_str(), " ", lines[j].as_str());
    }
    let last = fit(rest.as_str(), font, size, max_width);
    lines.truncate(keep);
    proof {
        assert(all.subrange(keep as int, total as int) =~= all.skip(keep as int));
        assert(strs(lines@) =~= all.take(keep as int));
        lemma_strs_push(lines@, last);
    }
    lines.push(last);
    proof {
        if max_width >= 0 {
            assert forall|i: int| 0 <= i < lines@.len() implies fits(
                font@,
                size as nat,
                max_width as int,
                #[trigger] lines@[i]@,
            ) by {
                if i < keep {
                    assert(lines@[i]@ == strs(lines@)[i]);
                    assert(strs(lines@)[i] == all[i]);
                }
            }
        }
    }
    lines
}

/// The regular and bold faces of one family.
pub struct FontPair<'a> {
    pub family: Family,
    pub regular: MeasuredFont<'a>,
    pub bold: MeasuredFont<'a>,
}

impl<'a> FontPair<'a> {
    /// Parses both faces of a family from their files' bytes; `*_path`
    /// only names the file in the error.
    pub fn load(
        family: Family,
        regular_data: &'a [u8],
        regular_path: &str,
        bold_data: &'a [u8],
        bold_path: &str,
    ) -> (r: Result<FontPair<'a>, ManifestError>)
        ensures
            r is Ok <==> ttf_parse_error(regular_data@) is None && ttf_parse_error(bold_data@) is None,
            r matches Ok(p) ==> p.regular@ == regular_data@ && p.bold@ == bold_data@ && p.family
                == family,
            r matches Err(e) ==> e.0@ == match ttf_parse_error(regular_data@) {
                Some(k) => font_error_text(regular_path@, k),
                None => font_error_text(bold_path@, ttf_parse_error(bold_data@)->0),
            },
    {
        let regular = match MeasuredFont::parse(regular_data) {
            Ok(f) => f,
            Err(e) => {
                return Err(font_error(regular_path, e));
            },
        };
        let bold = match MeasuredFont::parse(bold_data) {
            Ok(f) => f,
            Err(e) => {
                return Err(font_error(bold_path, e));
            },
        };
        Ok(FontPair { family, regular, bold })
    }

    /// The bold face when `bold`, the regular one otherwise.
    pub fn pick(&self, bold: bool) -> (f: &MeasuredFont<'a>)
        ensures
            f@ == if bold {
                self.bold@
            } else {
                self.regular@
            },
    {
        if bold {
            &self.bold
        } else {
            &self.regular
        }
    }
}

/// The text of the manifest error for a font file that does not parse.
pub open spec fn font_error_text(path: Seq<char>, e: FontError) -> Seq<char> {
    "assets: fuente inválida "@ + path + ": "@ + e.message_spec()
}

fn font_error(path: &str, e: FontError) -> (r: ManifestError)
    ensures
        r.0@ == font_error_text(path@, e),
{
    let head = join3("assets: fuente inválida ", path, ": ");
    let detail = e.message();
    ManifestError(join2(head.as_str(), detail.as_str()))
}

/// The two families the documents use: monospaced for tickets, sans-serif
/// for A4 reports and cards.
pub struct Fonts<'a> {
    pub mono: FontPair<'a>,
    pub sans: FontPair<'a>,
}

} // verus!
