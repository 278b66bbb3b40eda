//! A resolved font: four style variants that share one grid cell size.
use vstd::prelude::*;
use crate::descriptor::Xft;

verus! {

/// How many characters the measuring sample holds: printable ASCII,
/// `0x20` to `0x7E`.
pub const SAMPLE_LEN: usize = 95;

/// The characters whose total advance gives the cell width.
pub fn sample() -> (r: Vec<u8>)
    ensures
        r@.len() == SAMPLE_LEN,
        forall|i: int| 0 <= i < r@.len() ==> r@[i] == 0x20 + i,
{
    let mut r: Vec<u8> = Vec::new();
    let mut c: u8 = 0x20;
    while c < 0x7F
        invariant
            0x20 <= c <= 0x7F,
            r@.len() == c - 0x20,
            forall|i: int| 0 <= i < r@.len() ==> r@[i] == 0x20 + i,
        decreases 0x7F - c,
    {
        r.push(c);
        c = c + 1;
    }
    r
}

/// What is measured on the regular variant: the total horizontal advance of
/// the sample, and the font's ascent and descent, in pixels.
#[derive(Clone, Copy, PartialEq, Eq, Structural)]
pub struct Metrics {
    pub advance: usize,
    pub ascent: u16,
    pub descent: u16,
}

/// The average advance of one sample character, rounded up.
pub open spec fn cell_width_of(advance: nat) -> nat {
    ((advance + SAMPLE_LEN - 1) / (SAMPLE_LEN as int)) as nat
}

pub open spec fn cell_height_of(m: Metrics) -> nat {
    (m.ascent + m.descent) as nat
}

/// Cell width and height for the given measurements.
pub fn cell_size(m: Metrics) -> (r: (usize, usize))
    ensures
        r.0 == cell_width_of(m.advance as nat),
        r.1 == cell_height_of(m),
{
    let q = m.advance / SAMPLE_LEN;
    let width = if m.advance % SAMPLE_LEN != 0 { q + 1 } else { q };
    let height = m.ascent as usize + m.descent as usize;
    (width, height)
}

/// The style attributes of a glyph.
#[derive(Clone, Copy, PartialEq, Eq, Structural)]
pub struct GlyphAttr {
    pub bold: bool,
    pub italic: bool,
}

impl GlyphAttr {
    /// The attribute set as a two-bit mask: bold is the high bit, italic the
    /// low one.
    pub fn mask(&self) -> (r: usize)
        ensures
            r == (if self.bold { 2usize } else { 0usize }) + (if self.italic { 1usize } else { 0usize }),
    {
        (if self.bold { 2 } else { 0 }) + (if self.italic { 1 } else { 0 })
    }
}

/// What a resolved font holds.
pub struct FontView<H> {
    pub name: Seq<char>,
    pub size: nat,
    pub width: nat,
    pub height: nat,
    pub ascent: nat,
    pub regular: H,
    pub bold: H,
    pub italic: H,
    pub bold_italic: H,
}

impl<H> FontView<H> {
    /// The variant for a glyph with these attributes.
    pub open spec fn select(self, attr: GlyphAttr) -> H {
        if attr.bold && attr.italic {
            self.bold_italic
        } else if attr.bold {
            self.bold
        } else if attr.italic {
            self.italic
        } else {
            self.regular
        }
    }
}

/// The size after a resize by `increment`; a result that is not positive
/// leaves the size as it was.
pub open spec fn resized_size(size: int, increment: int) -> int {
    if size + increment > 0 {
        size + increment
    } else {
        size
    }
}

/// Four variants of one family at one size (regular, bold, italic,
/// bold-italic) with the cell size measured on the regular one. Created
/// whole, never changed.
pub struct Font<H> {
    xft: Xft,
    height: usize,
    width: usize,
    ascent: usize,
    font: H,
    bfont: H,
    ifont: H,
    ibfont: H,
}

impl<H> View for Font<H> {
    type V = FontView<H>;

    closed spec fn view(&self) -> FontView<H> {
        FontView {
            name: self.xft.name@,
            size: self.xft.size as nat,
            width: self.width as nat,
            height: self.height as nat,
            ascent: self.ascent as nat,
            regular: self.font,
            bold: self.bfont,
            italic: self.ifont,
            bold_italic: self.ibfont,
        }
    }
}

impl<H: Copy> Font<H> {
    /// Bundles four opened variants of `xft` with the measurements of the
    /// regular one.
    pub fn new(xft: Xft, regular: H, bold: H, italic: H, bold_italic: H, m: Metrics) -> (r: Font<
        H,
    >)
        ensures
            r@.name == xft.name@,
            r@.size == xft.size,
            r@.width == cell_width_of(m.advance as nat),
            r@.height == cell_height_of(m),
            r@.ascent == m.ascent,
            r@.regular == regular,
            r@.bold == bold,
            r@.italic == italic,
            r@.bold_italic == bold_italic,
    {
        let (width, height) = cell_size(m);
        Font {
            xft,
            height,
            width,
            ascent: m.ascent as usize,
            font: regular,
            bfont: bold,
            ifont: italic,
            ibfont: bold_italic,
        }
    }

    /// The variant to draw a glyph with: bold-italic before bold before
    /// italic before regular.
    pub fn get(&self, attr: GlyphAttr) -> (r: H)
        ensures
            r == self@.select(attr),
    {
        match attr.mask() {
            0 => self.font,
            1 => self.ifont,
            2 => self.bfont,
            _ => self.ibfont,
        }
    }

    /// Cell width and height.
    pub fn size(&self) -> (r: (usize, usize))
        ensures
            r.0 == self@.width,
            r.1 == self@.height,
    {
        (self.width, self.height)
    }

    /// The regular variant's ascent.
    pub fn ascent(&self) -> (r: usize)
        ensures
            r == self@.ascent,
    {
        self.ascent
    }

    /// The descriptor these variants were resolved from.
    pub fn descriptor(&self) -> (r: &Xft)
        ensures
            r.name@ == self@.name,
            r.size == self@.size,
    {
        &self.xft
    }

    /// The descriptor to resolve for a zoom by `increment` points: the same
    /// base name, the size moved by `increment` unless that would leave it
    /// below one.
    pub fn get_resized(&self, increment: i32) -> (r: Xft)
        requires
            self@.size + increment <= usize::MAX,
        ensures
            r.name@ == self@.name,
            r.size == resized_size(self@.size as int, increment as int),
    {
        let size = self.xft.size;
        let new_size = if increment >= 0 {
            size + increment as usize
        } else {
            let down = (0 - (increment as i64)) as usize;
            if down < size {
                size - down
            } else {
                size
            }
        };
        Xft { name: self.xft.name.clone(), size: new_size }
    }
}

/// Each attribute set has exactly one variant, and with four distinct
/// handles, bold-italic glyphs never share a variant with the other three
/// attribute sets.
pub proof fn lemma_select_distinct<H>(f: FontView<H>)
    requires
        f.regular != f.bold,
        f.regular != f.italic,
        f.regular != f.bold_italic,
        f.bold != f.italic,
        f.bold != f.bold_italic,
        f.italic != f.bold_italic,
    ensures
        f.select(GlyphAttr { bold: true, italic: true }) == f.bold_italic,
        f.select(GlyphAttr { bold: true, italic: false }) == f.bold,
        f.select(GlyphAttr { bold: false, italic: true }) == f.italic,
        f.select(GlyphAttr { bold: false, italic: false }) == f.regular,
        f.select(GlyphAttr { bold: true, italic: true }) != f.select(
            GlyphAttr { bold: true, italic: false },
        ),
        f.select(GlyphAttr { bold: true, italic: true }) != f.select(
            GlyphAttr { bold: false, italic: true },
        ),
        f.select(GlyphAttr { bold: true, italic: true }) != f.select(
            GlyphAttr { bold: false, italic: false },
        ),
{
}

/// Measurements with some advance and some height give a cell at least one
/// pixel wide and one pixel high.
pub proof fn lemma_cell_positive(m: Metrics)
    requires
        m.advance >= 1,
        m.ascent + m.descent >= 1,
    ensures
        cell_width_of(m.advance as nat) >= 1,
        cell_height_of(m) >= 1,
{
}

} // verus!
