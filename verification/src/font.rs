//! The fixed bitmap font: a list of glyphs searched by character.  The
//! glyph bitmaps themselves come from the caller (the binary reads them
//! from an image); the library only looks characters up and blits.
//! Unknown characters contribute nothing and draw nothing.

use vstd::prelude::*;

use crate::display::Pixel;

verus! {

/// One glyph: its character, pixel size, and row-major pixel data.
pub struct Glyph {
    pub ch: char,
    pub width: u32,
    pub height: u32,
    pub pixels: Vec<Pixel>,
}

impl Glyph {
    /// A glyph is a small, non-empty rectangle with one pixel per cell.
    pub open spec fn wf(self) -> bool {
        &&& self.pixels@.len() == self.width as int * self.height as int
        &&& 1 <= self.width <= 16
        &&& 1 <= self.height <= 8
    }

    /// The glyph pixel at column `gx`, row `gy`.
    pub open spec fn pix(self, gx: int, gy: int) -> Pixel
        recommends
            0 <= gx < self.width,
            0 <= gy < self.height,
    {
        self.pixels@[gy * self.width as int + gx]
    }
}

/// The index of the first glyph for `c`, or `-1` when the font has none.
pub open spec fn first_glyph(s: Seq<Glyph>, c: char) -> int
    decreases s.len(),
{
    if s.len() == 0 {
        -1
    } else if s[0].ch == c {
        0
    } else {
        let r = first_glyph(s.drop_first(), c);
        if r < 0 {
            -1
        } else {
            r + 1
        }
    }
}

/// `first_glyph` returns either `-1` or a valid index bearing `c`, with
/// no earlier glyph bearing it.
pub proof fn lemma_first_glyph(s: Seq<Glyph>, c: char)
    ensures
        first_glyph(s, c) == -1 || (0 <= first_glyph(s, c) < s.len() && s[first_glyph(s, c)].ch
            == c),
        first_glyph(s, c) == -1 ==> forall|i: int| 0 <= i < s.len() ==> (#[trigger] s[i]).ch != c,
        forall|i: int|
            0 <= i < first_glyph(s, c) ==> (#[trigger] s[i]).ch != c,
    decreases s.len(),
{
    if s.len() > 0 && s[0].ch != c {
        lemma_first_glyph(s.drop_first(), c);
        assert(forall|i: int|
            1 <= i < s.len() ==> (#[trigger] s[i]) == s.drop_first()[i - 1]);
    }
}

/// The five-pixel-tall display font.
pub struct Font5 {
    pub faces: Vec<Glyph>,
}

impl Font5 {
    /// Every glyph in the font is well formed.
    pub open spec fn wf(self) -> bool {
        forall|i: int| 0 <= i < self.faces@.len() ==> (#[trigger] self.faces@[i]).wf()
    }

    /// Whether the font knows a glyph for `c`.
    pub open spec fn has_glyph(self, c: char) -> bool {
        first_glyph(self.faces@, c) >= 0
    }

    /// The first glyph for `c`.
    pub open spec fn glyph_of(self, c: char) -> Glyph
        recommends
            self.has_glyph(c),
    {
        self.faces@[first_glyph(self.faces@, c)]
    }

    /// An empty font: every character is unknown, nothing is drawn.
    pub fn new() -> (r: Font5)
        ensures
            r.wf(),
            r.faces@.len() == 0,
    {
        Font5 { faces: Vec::new() }
    }

    /// Runtime check of [`Font5::wf`], for callers outside verified code.
    pub fn check_wf(&self) -> (r: bool)
        ensures
            r == self.wf(),
    {
        let mut i: usize = 0;
        while i < self.faces.len()
            invariant
                0 <= i <= self.faces@.len(),
                forall|k: int| 0 <= k < i ==> (#[trigger] self.faces@[k]).wf(),
            decreases self.faces@.len() - i,
        {
            let g = &self.faces[i];
            if g.width < 1 || g.width > 16 || g.height < 1 || g.height > 8 {
                return false;
            }
            assert(g.width as int * g.height as int <= 128) by (nonlinear_arith)
                requires
                    1 <= g.width as int <= 16,
                    1 <= g.height as int <= 8,
            ;
            if g.pixels.len() != (g.width as usize) * (g.height as usize) {
                return false;
            }
            i = i + 1;
        }
        true
    }

    /// Look `c` up: the first glyph bearing it, or `None` for an unknown
    /// character.
    pub fn get(&self, c: char) -> (r: Option<&Glyph>)
        ensures
            r is Some <==> self.has_glyph(c),
            r matches Some(g) ==> *g == self.glyph_of(c),
    {
        proof {
            lemma_first_glyph(self.faces@, c);
        }
        let mut i: usize = 0;
        while i < self.faces.len()
            invariant
                0 <= i <= self.faces@.len(),
                forall|k: int| 0 <= k < i ==> (#[trigger] self.faces@[k]).ch != c,
            decreases self.faces@.len() - i,
        {
            if self.faces[i].ch == c {
                proof {
                    lemma_first_glyph_at(self.faces@, c, i as int);
                }
                return Some(&self.faces[i]);
            }
            i = i + 1;
        }
        None
    }
}

/// If `c` first appears at `i`, `first_glyph` finds exactly `i`.
proof fn lemma_first_glyph_at(s: Seq<Glyph>, c: char, i: int)
    requires
        0 <= i < s.len(),
        s[i].ch == c,
        forall|j: int| 0 <= j < i ==> (#[trigger] s[j]).ch != c,
    ensures
        first_glyph(s, c) == i,
    decreases i,
{
    if i > 0 {
        assert(forall|j: int|
            1 <= j < s.len() ==> (#[trigger] s.drop_first()[j - 1]) == s[j]);
        lemma_first_glyph_at(s.drop_first(), c, i - 1);
    }
}

} // verus!
