//! Monochrome rendering onto the fixed 128x32 canvas: the waveform
//! silhouette with its erase-the-past erosion pass, the dashed play head,
//! extreme-time labels with underline and descender, and the water-mark
//! gauge.  Every write lands inside the canvas; coordinates that fall
//! outside are skipped, never an error.

use vstd::prelude::*;

use crate::clock::format_hm;
use crate::clock::hm_chars;
use crate::clock::local_hm_or_zero;
use crate::font::Font5;
use crate::font::Glyph;
use crate::tides::TideExtremeGraphData;
use crate::tides::TideModel;
use crate::tides::TideModelWindow;
use crate::tides::is_current_norm_height;
use crate::maths::Frac;
use crate::maths::lerp;
use crate::maths::lerp_spec;

verus! {

/// Logical canvas width in pixels.
pub const SCREEN_WIDTH: u32 = 128;

/// Logical canvas height in pixels.
pub const SCREEN_HEIGHT: u32 = 32;

/// One canvas pixel.  The intent is binary — black or white — carried in
/// three equal channels for portability.
#[derive(Clone, Copy, PartialEq, Eq, Structural, Debug)]
pub struct Pixel {
    pub r: u8,
    pub g: u8,
    pub b: u8,
}

/// Foreground.
pub open spec fn white() -> Pixel {
    Pixel { r: 255u8, g: 255u8, b: 255u8 }
}

/// Background.
pub open spec fn black() -> Pixel {
    Pixel { r: 0u8, g: 0u8, b: 0u8 }
}

/// Foreground, as a value.
pub fn pixel_white() -> (p: Pixel)
    ensures
        p == white(),
{
    Pixel { r: 255, g: 255, b: 255 }
}

/// Background, as a value.
pub fn pixel_black() -> (p: Pixel)
    ensures
        p == black(),
{
    Pixel { r: 0, g: 0, b: 0 }
}

/// A canvas coordinate.
#[derive(Clone, Copy, PartialEq, Eq, Structural, Debug)]
pub struct Position {
    pub x: u32,
    pub y: u32,
}

/// A width and height in pixels.
#[derive(Clone, Copy, PartialEq, Eq, Structural, Debug)]
pub struct Bounds {
    pub w: u32,
    pub h: u32,
}

/// A canvas of nothing but background.
pub open spec fn blank_frame() -> Seq<Pixel> {
    Seq::new(4096, |idx: int| black())
}

/// The fixed 128x32 pixel canvas, row-major.
pub struct PixelBuffer {
    pub data: Vec<Pixel>,
}

impl PixelBuffer {
    /// The buffer holds exactly one pixel per canvas cell.
    pub open spec fn wf(self) -> bool {
        self.data@.len() == 4096
    }

    /// The pixel at column `x`, row `y` (row 0 on top).
    pub open spec fn pix(self, x: int, y: int) -> Pixel
        recommends
            0 <= x < 128,
            0 <= y < 32,
    {
        self.data@[y * 128 + x]
    }

    /// A canvas cleared to background.
    pub fn new() -> (r: PixelBuffer)
        ensures
            r.wf(),
            r.data@ == blank_frame(),
            forall|x: int, y: int| 0 <= x < 128 && 0 <= y < 32 ==> #[trigger] r.pix(x, y) == black(),
    {
        let mut data: Vec<Pixel> = Vec::new();
        let mut i: usize = 0;
        while i < 4096
            invariant
                0 <= i <= 4096,
                data@.len() == i,
                forall|k: int| 0 <= k < i ==> #[trigger] data@[k] == black(),
            decreases 4096 - i,
        {
            data.push(Pixel { r: 0, g: 0, b: 0 });
            i = i + 1;
        }
        proof {
            assert(data@ =~= blank_frame());
        }
        PixelBuffer { data }
    }

    /// Write one pixel.  The coordinate must lie on the canvas; callers
    /// drop out-of-bounds coordinates instead.
    pub fn put_pixel(&mut self, x: u32, y: u32, p: Pixel)
        requires
            old(self).wf(),
            x < 128,
            y < 32,
        ensures
            final(self).wf(),
            final(self).data@ == old(self).data@.update(y as int * 128 + x as int, p),
            final(self).pix(x as int, y as int) == p,
            forall|a: int, b: int|
                0 <= a < 128 && 0 <= b < 32 && !(a == x as int && b == y as int)
                    ==> #[trigger] final(self).pix(a, b) == old(self).pix(a, b),
    {
        let idx: usize = (y as usize) * 128 + (x as usize);
        self.data.set(idx, p);
        proof {
            assert forall|a: int, b: int|
                0 <= a < 128 && 0 <= b < 32 && !(a == x as int && b == y as int)
                    implies #[trigger] self.pix(a, b) == old(self).pix(a, b) by {
                assert(b * 128 + a != y as int * 128 + x as int);
            }
        }
    }

    /// Read one pixel.
    pub fn get_pixel(&self, x: u32, y: u32) -> (r: Pixel)
        requires
            self.wf(),
            x < 128,
            y < 32,
        ensures
            r == self.pix(x as int, y as int),
    {
        self.data[(y as usize) * 128 + (x as usize)]
    }
}

/// A sink that accepts one finished frame.  The library draws into a
/// [`PixelBuffer`]; what receives it — a display controller, a file
/// writer — is the caller's concern.
pub trait RenderDevice {
    /// Accept a fully formed canvas.
    fn render(&mut self, buffer: &PixelBuffer)
        requires
            buffer.wf(),
    ;
}

/// The row at which the waveform surface sits in column `x`: rows at or
/// below it (numerically greater or equal) are filled.
pub open spec fn wave_row(hs: Seq<Frac>, h: int, x: int) -> int
    recommends
        0 <= x < hs.len(),
{
    h - lerp_spec(hs[x], 0, h)
}

/// The filled predicate of the waveform silhouette: columns outside the
/// series count as solid, and inside a column every row from the wave
/// surface down is solid.  `1` for filled, `0` for empty.
pub open spec fn filled_spec(hs: Seq<Frac>, h: int, x: int, y: int) -> u32 {
    if x < 0 || x >= hs.len() {
        1u32
    } else if y >= wave_row(hs, h, x) {
        1u32
    } else {
        0u32
    }
}

/// Whether column `x`, row `y` of a `bounds.h`-tall graph region is part
/// of the waveform silhouette.  Out-of-series columns count as filled so
/// the series edges never erode falsely.
pub fn calculate_pixel(normalized_heights: &Vec<Frac>, bounds: &Bounds, x: i32, y: i32) -> (r: u32)
    requires
        forall|i: int|
            0 <= i < normalized_heights@.len() ==> (#[trigger] normalized_heights@[i]).inv(),
        normalized_heights@.len() <= i32::MAX as int,
        bounds.h <= i32::MAX as u32,
    ensures
        r == filled_spec(normalized_heights@, bounds.h as int, x as int, y as int),
        r == 0 || r == 1,
{
    if x < 0 || x >= normalized_heights.len() as i32 {
        return 1;
    }
    let height = normalized_heights[x as usize];
    let px_height = lerp(height, 0, bounds.h as i32) as u32;
    let y_pos = bounds.h - px_height;
    if y >= y_pos as i32 {
        1
    } else {
        0
    }
}

/// The neighborhood survives the mask when no position demanded by the
/// mask is empty in the kernel: for every index, masking the kernel bit
/// and xoring the mask bit back does not leave a one.
pub open spec fn survives_mask(kernel: Seq<u32>, mask: Seq<u32>) -> bool {
    forall|i: int| 0 <= i < 9 ==> (((kernel[i] & #[trigger] mask[i]) ^ mask[i]) != 1)
}

/// The erosion test on a 3x3 neighborhood (row-major).  True when the
/// kernel carries every bit the mask demands — the pixel survives the
/// past-erase pass; false when a demanded bit is missing, and the pass
/// erases the pixel.
pub fn should_erase(kernel: [u32; 9], mask: &[u32; 9]) -> (r: bool)
    ensures
        r == survives_mask(kernel@, mask@),
{
    let mut i: usize = 0;
    while i < 9
        invariant
            0 <= i <= 9,
            forall|j: int| 0 <= j < i ==> (((kernel@[j] & #[trigger] mask@[j]) ^ mask@[j]) != 1),
        decreases 9 - i,
    {
        let result = kernel[i] & mask[i];
        if result ^ mask[i] == 1 {
            assert(((kernel@[i as int] & mask@[i as int]) ^ mask@[i as int]) == 1);
            return false;
        }
        i = i + 1;
    }
    true
}

/// The fixed 3x3 structuring mask of the past-erase pass (row-major):
/// every position except the two upper corners must be filled for a
/// pixel to survive.
pub open spec fn flood_mask_spec() -> Seq<u32> {
    seq![0u32, 1u32, 0u32, 1u32, 1u32, 1u32, 1u32, 1u32, 1u32]
}

/// The fixed 3x3 structuring mask, as a value.
pub fn flood_fill_mask() -> (r: [u32; 9])
    ensures
        r@ == flood_mask_spec(),
{
    let m: [u32; 9] = [0, 1, 0, 1, 1, 1, 1, 1, 1];
    proof {
        assert(m@ =~= flood_mask_spec());
    }
    m
}

/// The 3x3 neighborhood of the filled predicate centered on `(x, y)`,
/// row-major.
pub open spec fn kernel_at(hs: Seq<Frac>, h: int, x: int, y: int) -> Seq<u32> {
    seq![
        filled_spec(hs, h, x - 1, y - 1),
        filled_spec(hs, h, x, y - 1),
        filled_spec(hs, h, x + 1, y - 1),
        filled_spec(hs, h, x - 1, y),
        filled_spec(hs, h, x, y),
        filled_spec(hs, h, x + 1, y),
        filled_spec(hs, h, x - 1, y + 1),
        filled_spec(hs, h, x, y + 1),
        filled_spec(hs, h, x + 1, y + 1),
    ]
}

/// The past-erase rule: a pixel left of the play head is erased exactly
/// when its 3x3 neighborhood fails the erosion test.
pub open spec fn erased_at(hs: Seq<Frac>, h: int, x: int, y: int) -> bool {
    !survives_mask(kernel_at(hs, h, x, y), flood_mask_spec())
}

/// Whether `(dx, dy)` lies inside a `w` by `h` rectangle at the origin.
pub open spec fn in_rect(dx: int, dy: int, w: int, h: int) -> bool {
    0 <= dx < w && 0 <= dy < h
}

/// The canvas after one glyph is copied onto it with its top-left corner
/// at `(ox, oy)`; cells falling off the canvas are clipped.
pub open spec fn blit_glyph_spec(s: Seq<Pixel>, g: Glyph, ox: int, oy: int) -> Seq<Pixel> {
    Seq::new(
        s.len(),
        |idx: int|
            if in_rect(idx % 128 - ox, idx / 128 - oy, g.width as int, g.height as int) {
                g.pix(idx % 128 - ox, idx / 128 - oy)
            } else {
                s[idx]
            },
    )
}

/// The canvas after `text` is drawn left to right from `(ox, oy)`: each
/// known glyph is copied and the caret advances by its width plus one;
/// unknown characters are skipped silently.
pub open spec fn paint_text(s: Seq<Pixel>, font: Font5, text: Seq<char>, ox: int, oy: int) -> Seq<
    Pixel,
>
    decreases text.len(),
{
    if text.len() == 0 {
        s
    } else if font.has_glyph(text[0]) {
        let g = font.glyph_of(text[0]);
        paint_text(
            blit_glyph_spec(s, g, ox, oy),
            font,
            text.drop_first(),
            ox + g.width as int + 1,
            oy,
        )
    } else {
        paint_text(s, font, text.drop_first(), ox, oy)
    }
}

/// How far the caret advances for `c`: the glyph width plus one, or
/// nothing for an unknown character.
pub open spec fn glyph_advance(font: Font5, c: char) -> int {
    if font.has_glyph(c) {
        font.glyph_of(c).width as int + 1
    } else {
        0
    }
}

/// The pixel width of `text`: the sum of its glyph advances.
pub open spec fn text_width(font: Font5, text: Seq<char>) -> int
    decreases text.len(),
{
    if text.len() == 0 {
        0
    } else {
        text_width(font, text.drop_last()) + glyph_advance(font, text.last())
    }
}

/// The height `c` contributes: its glyph height, or nothing.
pub open spec fn glyph_rise(font: Font5, c: char) -> int {
    if font.has_glyph(c) {
        font.glyph_of(c).height as int
    } else {
        0
    }
}

/// The pixel height of `text`: the tallest of its glyph heights.
pub open spec fn text_height(font: Font5, text: Seq<char>) -> int
    decreases text.len(),
{
    if text.len() == 0 {
        0
    } else {
        let h = text_height(font, text.drop_last());
        if glyph_rise(font, text.last()) > h {
            glyph_rise(font, text.last())
        } else {
            h
        }
    }
}

/// Every prefix of a text is at most as wide as the text, and text width
/// is never negative.
pub proof fn lemma_text_width_prefix(font: Font5, text: Seq<char>, i: int)
    requires
        0 <= i <= text.len(),
    ensures
        0 <= text_width(font, text.subrange(0, i)) <= text_width(font, text),
    decreases text.len() - i,
{
    if i == text.len() {
        assert(text.subrange(0, i) =~= text);
        lemma_text_width_nonneg(font, text);
    } else {
        lemma_text_width_prefix(font, text, i + 1);
        let a = text.subrange(0, i);
        let b = text.subrange(0, i + 1);
        assert(b.drop_last() =~= a);
        assert(b.last() == text[i]);
        lemma_text_width_nonneg(font, a);
    }
}

/// Text width is a sum of non-negative advances.
pub proof fn lemma_text_width_nonneg(font: Font5, text: Seq<char>)
    ensures
        text_width(font, text) >= 0,
    decreases text.len(),
{
    if text.len() > 0 {
        lemma_text_width_nonneg(font, text.drop_last());
    }
}

/// With a well-formed font no character advances the caret by more than
/// 17 pixels, so a text is at most 17 times its length wide.
pub proof fn lemma_text_width_bound(font: Font5, text: Seq<char>)
    requires
        font.wf(),
    ensures
        text_width(font, text) <= 17 * text.len(),
    decreases text.len(),
{
    if text.len() > 0 {
        lemma_text_width_bound(font, text.drop_last());
        if font.has_glyph(text.last()) {
            crate::font::lemma_first_glyph(font.faces@, text.last());
        }
    }
}

/// Copy one glyph onto the canvas with its top-left corner at
/// `(ox, oy)`, clipping whatever falls outside.
fn blit_glyph_at(buffer: &mut PixelBuffer, g: &Glyph, ox: u64, oy: u64)
    requires
        old(buffer).wf(),
        g.wf(),
        ox <= 0x200000000u64,
        oy <= 0x200000000u64,
    ensures
        final(buffer).wf(),
        final(buffer).data@ == blit_glyph_spec(old(buffer).data@, *g, ox as int, oy as int),
{
    let mut gy: u32 = 0;
    while gy < g.height
        invariant
            buffer.wf(),
            g.wf(),
            ox <= 0x200000000u64,
            oy <= 0x200000000u64,
            0 <= gy <= g.height,
            forall|idx: int|
                0 <= idx < 4096 ==> #[trigger] buffer.data@[idx] == (if in_rect(
                    idx % 128 - ox as int,
                    idx / 128 - oy as int,
                    g.width as int,
                    g.height as int,
                ) && (idx / 128 - oy as int) < gy as int {
                    g.pix(idx % 128 - ox as int, idx / 128 - oy as int)
                } else {
                    old(buffer).data@[idx]
                }),
        decreases g.height - gy,
    {
        let mut gx: u32 = 0;
        while gx < g.width
            invariant
                buffer.wf(),
                g.wf(),
                ox <= 0x200000000u64,
                oy <= 0x200000000u64,
                0 <= gy < g.height,
                0 <= gx <= g.width,
                forall|idx: int|
                    0 <= idx < 4096 ==> #[trigger] buffer.data@[idx] == (if in_rect(
                        idx % 128 - ox as int,
                        idx / 128 - oy as int,
                        g.width as int,
                        g.height as int,
                    ) && ((idx / 128 - oy as int) < gy as int || ((idx / 128 - oy as int)
                        == gy as int && (idx % 128 - ox as int) < gx as int)) {
                        g.pix(idx % 128 - ox as int, idx / 128 - oy as int)
                    } else {
                        old(buffer).data@[idx]
                    }),
            decreases g.width - gx,
        {
            let x: u64 = ox + gx as u64;
            let y: u64 = oy + gy as u64;
            if x < 128 && y < 32 {
                proof {
                    assert(g.width as int * g.height as int <= 128) by (nonlinear_arith)
                        requires
                            1 <= g.width as int <= 16,
                            1 <= g.height as int <= 8,
                    ;
                    assert((gy as int * g.width as int + gx as int) < (g.width as int
                        * g.height as int)) by (nonlinear_arith)
                        requires
                            0 <= gx as int && (gx as int) < (g.width as int),
                            0 <= gy as int && (gy as int) < (g.height as int),
                    ;
                }
                let p = g.pixels[(gy as usize) * (g.width as usize) + (gx as usize)];
                buffer.put_pixel(x as u32, y as u32, p);
                proof {
                    let x0 = x as int;
                    let y0 = y as int;
                    assert((y0 * 128 + x0) % 128 == x0 && (y0 * 128 + x0) / 128 == y0) by (
                    nonlinear_arith)
                        requires
                            0 <= x0 < 128,
                            0 <= y0 < 32,
                    ;
                    assert(p == g.pix(x0 - ox as int, y0 - oy as int));
                    assert forall|idx: int| 0 <= idx < 4096 implies #[trigger] buffer.data@[idx]
                        == (if in_rect(
                        idx % 128 - ox as int,
                        idx / 128 - oy as int,
                        g.width as int,
                        g.height as int,
                    ) && ((idx / 128 - oy as int) < gy as int || ((idx / 128 - oy as int)
                        == gy as int && (idx % 128 - ox as int) < gx as int + 1)) {
                        g.pix(idx % 128 - ox as int, idx / 128 - oy as int)
                    } else {
                        old(buffer).data@[idx]
                    }) by {
                        assert(idx == (idx / 128) * 128 + idx % 128 && 0 <= idx % 128 < 128) by (
                        nonlinear_arith)
                            requires
                                0 <= idx < 4096,
                        ;
                    }
                }
            } else {
                proof {
                    assert forall|idx: int| 0 <= idx < 4096 implies #[trigger] buffer.data@[idx]
                        == (if in_rect(
                        idx % 128 - ox as int,
                        idx / 128 - oy as int,
                        g.width as int,
                        g.height as int,
                    ) && ((idx / 128 - oy as int) < gy as int || ((idx / 128 - oy as int)
                        == gy as int && (idx % 128 - ox as int) < gx as int + 1)) {
                        g.pix(idx % 128 - ox as int, idx / 128 - oy as int)
                    } else {
                        old(buffer).data@[idx]
                    }) by {
                        assert(0 <= idx % 128 < 128 && 0 <= idx / 128 < 32) by (nonlinear_arith)
                            requires
                                0 <= idx < 4096,
                        ;
                    }
                }
            }
            gx = gx + 1;
        }
        gy = gy + 1;
    }
    proof {
        assert(buffer.data@ =~= blit_glyph_spec(old(buffer).data@, *g, ox as int, oy as int));
    }
}

/// Draw `text` left to right from `(ox, oy)`, clipping at the canvas
/// edges; unknown characters draw nothing and take no room.
fn blit_text(buffer: &mut PixelBuffer, font: &Font5, text: &Vec<char>, ox: u64, oy: u64)
    requires
        old(buffer).wf(),
        font.wf(),
        ox <= u32::MAX as u64,
        oy <= u32::MAX as u64,
        text_width(*font, text@) <= u32::MAX as int,
    ensures
        final(buffer).wf(),
        final(buffer).data@ == paint_text(old(buffer).data@, *font, text@, ox as int, oy as int),
{
    proof {
        assert(text@.skip(0) =~= text@);
    }
    let mut caret: u64 = 0;
    let mut i: usize = 0;
    while i < text.len()
        invariant
            buffer.wf(),
            font.wf(),
            0 <= i <= text@.len(),
            text_width(*font, text@) <= u32::MAX as int,
            caret as int == text_width(*font, text@.subrange(0, i as int)),
            ox <= u32::MAX as u64,
            oy <= u32::MAX as u64,
            paint_text(buffer.data@, *font, text@.skip(i as int), ox as int + caret as int, oy as int)
                == paint_text(old(buffer).data@, *font, text@, ox as int, oy as int),
        decreases text@.len() - i,
    {
        proof {
            lemma_text_width_prefix(*font, text@, i + 1);
            let a = text@.subrange(0, i as int);
            let b = text@.subrange(0, i + 1);
            assert(b.drop_last() =~= a);
            assert(b.last() == text@[i as int]);
            assert(text@.skip(i as int).drop_first() =~= text@.skip(i + 1));
            assert(text@.skip(i as int)[0] == text@[i as int]);
        }
        let c = text[i];
        proof {
            crate::font::lemma_first_glyph(font.faces@, c);
        }
        match font.get(c) {
            Some(g) => {
                let gw = g.width;
                blit_glyph_at(buffer, g, ox + caret, oy);
                caret = caret + gw as u64 + 1;
            },
            None => {},
        }
        i = i + 1;
    }
    proof {
        assert(text@.skip(text@.len() as int) =~= Seq::<char>::empty());
        assert(text@.subrange(0, text@.len() as int) =~= text@);
    }
}

/// A run of text at a fixed position, measured against the font it will
/// be drawn with.
pub struct TextField {
    pub text: Vec<char>,
    pub pos: Position,
    pub bounds: Bounds,
}

impl TextField {
    /// The cached bounds match what `font` measures for the text.
    pub open spec fn wf(self, font: Font5) -> bool {
        &&& self.bounds.w as int == text_width(font, self.text@)
        &&& self.bounds.h as int == text_height(font, self.text@)
    }

    /// A text field at `(x, y)`, measured against `font`.
    pub fn new(text: Vec<char>, font: &Font5, x: u32, y: u32) -> (r: TextField)
        requires
            text_width(*font, text@) <= u32::MAX as int,
        ensures
            r.wf(*font),
            r.text@ == text@,
            r.pos.x == x,
            r.pos.y == y,
    {
        let mut tf = TextField {
            text: Vec::new(),
            pos: Position { x, y },
            bounds: Bounds { w: 0, h: 0 },
        };
        proof {
            assert(tf.text@ =~= Seq::<char>::empty());
        }
        tf.set_text(text, font);
        tf
    }

    /// Replace the text and re-measure its pixel bounds: the width is
    /// the sum of glyph advances, the height the tallest glyph; unknown
    /// characters contribute nothing.
    pub fn set_text(&mut self, text: Vec<char>, font: &Font5)
        requires
            text_width(*font, text@) <= u32::MAX as int,
        ensures
            final(self).wf(*font),
            final(self).text@ == text@,
            final(self).pos == old(self).pos,
    {
        let mut width: u32 = 0;
        let mut height: u32 = 0;
        let mut i: usize = 0;
        while i < text.len()
            invariant
                0 <= i <= text@.len(),
                text_width(*font, text@) <= u32::MAX as int,
                width as int == text_width(*font, text@.subrange(0, i as int)),
                height as int == text_height(*font, text@.subrange(0, i as int)),
            decreases text@.len() - i,
        {
            proof {
                lemma_text_width_prefix(*font, text@, i + 1);
                let a = text@.subrange(0, i as int);
                let b = text@.subrange(0, i + 1);
                assert(b.drop_last() =~= a);
                assert(b.last() == text@[i as int]);
            }
            match font.get(text[i]) {
                Some(g) => {
                    width = width + g.width + 1;
                    if g.height > height {
                        height = g.height;
                    }
                },
                None => {},
            }
            i = i + 1;
        }
        proof {
            assert(text@.subrange(0, text@.len() as int) =~= text@);
        }
        self.text = text;
        self.bounds = Bounds { w: width, h: height };
    }

    /// Draw the text at its position; glyph cells outside the canvas are
    /// clipped.
    pub fn paint(&self, buffer: &mut PixelBuffer, font: &Font5)
        requires
            old(buffer).wf(),
            font.wf(),
            self.wf(*font),
        ensures
            final(buffer).wf(),
            final(buffer).data@ == paint_text(
                old(buffer).data@,
                *font,
                self.text@,
                self.pos.x as int,
                self.pos.y as int,
            ),
    {
        blit_text(buffer, font, &self.text, self.pos.x as u64, self.pos.y as u64);
    }
}

/// The canvas after the underline of a label of width `w` is drawn at
/// row `y`, spanning the label width minus one from `x0`.
pub open spec fn apply_underline(s: Seq<Pixel>, x0: int, y: int, w: int) -> Seq<Pixel> {
    Seq::new(
        s.len(),
        |idx: int|
            if idx / 128 == y && x0 <= idx % 128 < x0 + w - 1 {
                white()
            } else {
                s[idx]
            },
    )
}

/// The row found by scanning column `x` upward from row `y`: the first
/// (that is, largest) row whose pixel is background, or `0` when every
/// row from `y` down to the top is foreground.
pub open spec fn scan_dark(s: Seq<Pixel>, x: int, y: int) -> int
    recommends
        0 <= x < 128,
        s.len() == 4096,
    decreases y + 1,
{
    if y < 0 {
        0
    } else if s[y * 128 + x].r == 0 {
        y
    } else {
        scan_dark(s, x, y - 1)
    }
}

/// The canvas after a descender is drawn in column `x` from row `y0`
/// down to one row short of `highest`; an empty or inverted range draws
/// nothing.
pub open spec fn apply_descender(s: Seq<Pixel>, x: int, y0: int, highest: int) -> Seq<Pixel> {
    Seq::new(
        s.len(),
        |idx: int|
            if idx % 128 == x && y0 <= idx / 128 < highest - 1 {
                white()
            } else {
                s[idx]
            },
    )
}

/// The canvas after one extreme label is painted: its text, the
/// underline two rows below the glyphs, and the descender from the
/// underline row down to just above the first background row found
/// scanning the label column up from the bottom.
pub open spec fn label_painted(s: Seq<Pixel>, font: Font5, tf: TextField) -> Seq<Pixel> {
    let s1 = paint_text(s, font, tf.text@, tf.pos.x as int, tf.pos.y as int);
    let baseline = tf.pos.y as int + tf.bounds.h as int + 2;
    let s2 = apply_underline(s1, tf.pos.x as int, baseline, tf.bounds.w as int);
    if tf.pos.x < 128 {
        apply_descender(s2, tf.pos.x as int, baseline, scan_dark(s2, tf.pos.x as int, 31))
    } else {
        s2
    }
}

/// A time label for one extreme event, placed with its left edge at the
/// extreme's column.
pub struct ExtremeLabel {
    pub text_field: TextField,
}

impl ExtremeLabel {
    /// A label reading the extreme's local wall-clock time as `HH:MM`,
    /// at the top of the canvas in the extreme's window column.
    pub fn new(
        font: &Font5,
        data: &TideExtremeGraphData,
        data_index: u32,
        canvas_pos: &Position,
    ) -> (r: ExtremeLabel)
        requires
            font.wf(),
            canvas_pos.x as int + data_index as int <= u32::MAX as int,
        ensures
            r.text_field.wf(*font),
            r.text_field.pos.x == canvas_pos.x + data_index,
            r.text_field.pos.y == 0,
            exists|h: int, m: int|
                0 <= h < 24 && 0 <= m < 60 && r.text_field.text@ == #[trigger] hm_chars(h, m, ':'),
    {
        let hm = local_hm_or_zero(data.date());
        let text = format_hm(hm.0, hm.1, ':');
        proof {
            lemma_text_width_bound(*font, text@);
        }
        ExtremeLabel { text_field: TextField::new(text, font, canvas_pos.x + data_index, 0) }
    }

    /// Paint the label, its underline, and its descender.  The descender
    /// reads pixels already on the canvas, so the waveform must be drawn
    /// first; when the scan finds foreground all the way up, or the
    /// underline sits at or below it, the descender draws nothing.
    pub fn paint(&self, buffer: &mut PixelBuffer, font: &Font5)
        requires
            old(buffer).wf(),
            font.wf(),
            self.text_field.wf(*font),
        ensures
            final(buffer).wf(),
            final(buffer).data@ == label_painted(old(buffer).data@, *font, self.text_field),
    {
        self.text_field.paint(buffer, font);
        let ghost s1 = buffer.data@;

        let x0: u64 = self.text_field.pos.x as u64;
        let baseline: u64 = self.text_field.pos.y as u64 + self.text_field.bounds.h as u64 + 2;
        if self.text_field.bounds.w >= 1 {
            let mut i: u32 = 0;
            while i < self.text_field.bounds.w - 1
                invariant
                    buffer.wf(),
                    s1.len() == 4096,
                    0 <= i <= self.text_field.bounds.w - 1,
                    x0 == self.text_field.pos.x as u64,
                    baseline == self.text_field.pos.y as u64 + self.text_field.bounds.h as u64
                        + 2,
                    forall|idx: int|
                        0 <= idx < 4096 ==> #[trigger] buffer.data@[idx] == (if idx / 128
                            == baseline as int && x0 as int <= idx % 128 < x0 as int + i as int {
                            white()
                        } else {
                            s1[idx]
                        }),
                decreases self.text_field.bounds.w - 1 - i,
            {
                let x: u64 = x0 + i as u64;
                let y: u64 = baseline;
                if x < 128 && y < 32 {
                    buffer.put_pixel(x as u32, y as u32, pixel_white());
                    proof {
                        lemma_screen_divmod(x as int, y as int);
                        assert forall|idx: int| 0 <= idx < 4096 implies #[trigger] buffer.data@[idx]
                            == (if idx / 128 == baseline as int && x0 as int <= idx % 128
                            < x0 as int + i as int + 1 {
                            white()
                        } else {
                            s1[idx]
                        }) by {
                            lemma_idx_divmod(idx);
                        }
                    }
                } else {
                    proof {
                        assert forall|idx: int| 0 <= idx < 4096 implies #[trigger] buffer.data@[idx]
                            == (if idx / 128 == baseline as int && x0 as int <= idx % 128
                            < x0 as int + i as int + 1 {
                            white()
                        } else {
                            s1[idx]
                        }) by {
                            lemma_idx_divmod(idx);
                        }
                    }
                }
                i = i + 1;
            }
        }
        proof {
            assert forall|idx: int| 0 <= idx < 4096 implies buffer.data@[idx] == #[trigger] apply_underline(
                s1,
                x0 as int,
                baseline as int,
                self.text_field.bounds.w as int,
            )[idx] by {
                lemma_idx_divmod(idx);
            }
            assert(buffer.data@ =~= apply_underline(
                s1,
                x0 as int,
                baseline as int,
                self.text_field.bounds.w as int,
            ));
        }
        let ghost s2 = buffer.data@;

        let x = self.text_field.pos.x;
        if x < 128 {
            let mut highest: u32 = 0;
            let mut found = false;
            let mut y: i32 = 31;
            while y >= 0 && !found
                invariant
                    buffer.wf(),
                    buffer.data@ == s2,
                    s2.len() == 4096,
                    x < 128,
                    -1 <= y <= 31,
                    !found ==> scan_dark(s2, x as int, 31) == scan_dark(s2, x as int, y as int),
                    found ==> highest as int == scan_dark(s2, x as int, 31),
                    found ==> highest <= 31,
                    !found ==> highest == 0,
                decreases (if found {
                    0int
                } else {
                    y + 1
                }),
            {
                let px = buffer.get_pixel(x, y as u32);
                if px.r == 0 {
                    highest = y as u32;
                    found = true;
                } else {
                    y = y - 1;
                }
            }
            proof {
                assert(highest as int == scan_dark(s2, x as int, 31));
            }
            if highest >= 1 {
                let end: u32 = highest - 1;
                let mut yy: u64 = baseline;
                while yy < end as u64
                    invariant
                        buffer.wf(),
                        s2.len() == 4096,
                        x < 128,
                        end <= 30,
                        baseline <= yy,
                        yy <= (if baseline > end as u64 {
                            baseline
                        } else {
                            end as u64
                        }),
                        forall|idx: int|
                            0 <= idx < 4096 ==> #[trigger] buffer.data@[idx] == (if idx % 128
                                == x as int && baseline as int <= idx / 128 < yy as int {
                                white()
                            } else {
                                s2[idx]
                            }),
                    decreases end as u64 - yy,
                {
                    buffer.put_pixel(x, yy as u32, pixel_white());
                    proof {
                        lemma_screen_divmod(x as int, yy as int);
                        assert forall|idx: int| 0 <= idx < 4096 implies #[trigger] buffer.data@[idx]
                            == (if idx % 128 == x as int && baseline as int <= idx / 128 < yy as int
                            + 1 {
                            white()
                        } else {
                            s2[idx]
                        }) by {
                            lemma_idx_divmod(idx);
                        }
                    }
                    yy = yy + 1;
                }
            }
            proof {
                assert forall|idx: int| 0 <= idx < 4096 implies buffer.data@[idx]
                    == #[trigger] apply_descender(
                    s2,
                    x as int,
                    baseline as int,
                    scan_dark(s2, x as int, 31),
                )[idx] by {
                    lemma_idx_divmod(idx);
                }
                assert(buffer.data@ =~= apply_descender(
                    s2,
                    x as int,
                    baseline as int,
                    scan_dark(s2, x as int, 31),
                ));
            }
        }
    }
}

/// Row-major index arithmetic: a canvas index decomposes into its column
/// and row.
proof fn lemma_idx_divmod(idx: int)
    requires
        0 <= idx < 4096,
    ensures
        idx == (idx / 128) * 128 + idx % 128,
        0 <= idx % 128 < 128,
        0 <= idx / 128 < 32,
{
    assert(idx == (idx / 128) * 128 + idx % 128 && 0 <= idx % 128 < 128 && 0 <= idx / 128 < 32)
        by (nonlinear_arith)
        requires
            0 <= idx < 4096,
    ;
}

/// A canvas coordinate maps to the index that decomposes back into it.
proof fn lemma_screen_divmod(x: int, y: int)
    requires
        0 <= x < 128,
        0 <= y < 32,
    ensures
        (y * 128 + x) % 128 == x,
        (y * 128 + x) / 128 == y,
        0 <= y * 128 + x < 4096,
{
    assert((y * 128 + x) % 128 == x && (y * 128 + x) / 128 == y) by (nonlinear_arith)
        requires
            0 <= x < 128,
            0 <= y < 32,
    ;
}

/// The cells the water-mark gauge paints: the two end-cap notches, the
/// two-pixel-wide bar's right column, and the level mark.
pub open spec fn wm_target(
    pos: Position,
    bounds: Bounds,
    mark_x: int,
    mark_y: int,
    x: int,
    y: int,
) -> bool {
    ||| (x == pos.x as int && (y == pos.y as int || y == pos.y as int + bounds.h as int - 1))
    ||| (x == pos.x as int + 1 && pos.y as int <= y < pos.y as int + bounds.h as int)
    ||| (x == mark_x && y == mark_y)
}

/// The canvas after the gauge is painted for normalized height `t`: the
/// mark row interpolates between the bar's bottom and top, and a mark
/// landing on an end cap is offset one pixel to the left.
pub open spec fn watermark_painted(s: Seq<Pixel>, pos: Position, bounds: Bounds, t: Frac) -> Seq<
    Pixel,
> {
    let bottom = pos.y as int + bounds.h as int - 1;
    let mark_y = lerp_spec(t, bottom, pos.y as int);
    let mark_x = if mark_y == pos.y as int || mark_y == bottom {
        pos.x as int - 1
    } else {
        pos.x as int
    };
    Seq::new(
        s.len(),
        |idx: int|
            if wm_target(pos, bounds, mark_x, mark_y, idx % 128, idx / 128) {
                white()
            } else {
                s[idx]
            },
    )
}

/// The water-mark gauge: a vertical two-pixel bar with end caps and a
/// mark at the model's current normalized height.
pub struct WaterMark {
    pub pos: Position,
    pub bounds: Bounds,
}

impl WaterMark {
    /// A gauge occupying a `w` by `h` box at `(x, y)`.
    pub fn new(x: u32, y: u32, w: u32, h: u32) -> (r: WaterMark)
        ensures
            r.pos == (Position { x, y }),
            r.bounds == (Bounds { w, h }),
    {
        WaterMark { pos: Position { x, y }, bounds: Bounds { w, h } }
    }

    /// Paint the gauge.  The mark row comes from interpolating the
    /// current normalized height between the bar's bottom and top rows
    /// (height increasing upward); the empty-series sentinel saturates
    /// to the bottom.
    pub fn paint(&self, buffer: &mut PixelBuffer, tide_model: &TideModel, now: i64)
        requires
            old(buffer).wf(),
            tide_model.wf(),
            tide_model.dates@.len() <= u32::MAX as int,
            1 <= self.pos.x,
            self.pos.x as int + 1 < 128,
            1 <= self.bounds.h,
            self.pos.y as int + self.bounds.h as int <= 32,
        ensures
            final(buffer).wf(),
            exists|t: Frac|
                #[trigger] is_current_norm_height(*tide_model, now as int, t)
                    && final(buffer).data@ == watermark_painted(
                    old(buffer).data@,
                    self.pos,
                    self.bounds,
                    t,
                ),
    {
        buffer.put_pixel(self.pos.x, self.pos.y, pixel_white());
        buffer.put_pixel(self.pos.x, self.pos.y + self.bounds.h - 1, pixel_white());

        let mut row: u32 = 0;
        while row < self.bounds.h
            invariant
                buffer.wf(),
                old(buffer).wf(),
                0 <= row <= self.bounds.h,
                1 <= self.pos.x,
                self.pos.x as int + 1 < 128,
                1 <= self.bounds.h,
                self.pos.y as int + self.bounds.h as int <= 32,
                forall|idx: int|
                    0 <= idx < 4096 ==> #[trigger] buffer.data@[idx] == (if (idx % 128
                        == self.pos.x as int && (idx / 128 == self.pos.y as int || idx / 128
                        == self.pos.y as int + self.bounds.h as int - 1)) || (idx % 128
                        == self.pos.x as int + 1 && self.pos.y as int <= idx / 128
                        < self.pos.y as int + row as int) {
                        white()
                    } else {
                        old(buffer).data@[idx]
                    }),
            decreases self.bounds.h - row,
        {
            buffer.put_pixel(self.pos.x + 1, self.pos.y + row, pixel_white());
            proof {
                lemma_screen_divmod(self.pos.x as int + 1, self.pos.y as int + row as int);
                assert forall|idx: int| 0 <= idx < 4096 implies #[trigger] buffer.data@[idx] == (if (
                idx % 128 == self.pos.x as int && (idx / 128 == self.pos.y as int || idx / 128
                    == self.pos.y as int + self.bounds.h as int - 1)) || (idx % 128
                    == self.pos.x as int + 1 && self.pos.y as int <= idx / 128 < self.pos.y as int
                    + row as int + 1) {
                    white()
                } else {
                    old(buffer).data@[idx]
                }) by {
                    lemma_idx_divmod(idx);
                }
            }
            row = row + 1;
        }

        let t = tide_model.get_current_norm_height(now);
        let y_pos: u32 = lerp(t, (self.pos.y + self.bounds.h - 1) as i32, self.pos.y as i32)
            as u32;
        let mark_y = y_pos;
        let mark_x: u32 = if mark_y == self.pos.y || mark_y == self.pos.y + self.bounds.h - 1 {
            self.pos.x - 1
        } else {
            self.pos.x
        };
        buffer.put_pixel(mark_x, mark_y, pixel_white());
        proof {
            lemma_screen_divmod(mark_x as int, mark_y as int);
            assert forall|idx: int| 0 <= idx < 4096 implies buffer.data@[idx]
                == #[trigger] watermark_painted(old(buffer).data@, self.pos, self.bounds, t)[idx] by {
                lemma_idx_divmod(idx);
            }
            assert(buffer.data@ =~= watermark_painted(old(buffer).data@, self.pos, self.bounds, t));
        }
    }
}

/// The canvas after the waveform silhouette is rasterized into the
/// region at `pos`: inside it, filled cells are white and the rest
/// black; outside it nothing changes.
pub open spec fn wave_painted(s: Seq<Pixel>, hs: Seq<Frac>, pos: Position, bounds: Bounds) -> Seq<
    Pixel,
> {
    Seq::new(
        s.len(),
        |idx: int|
            if pos.x as int <= idx % 128 < pos.x as int + bounds.w as int && pos.y as int <= idx
                / 128 < pos.y as int + bounds.h as int {
                if filled_spec(
                    hs,
                    bounds.h as int,
                    idx % 128 - pos.x as int,
                    idx / 128 - pos.y as int,
                ) == 1 {
                    white()
                } else {
                    black()
                }
            } else {
                s[idx]
            },
    )
}

/// Rasterize the waveform silhouette into the region at `pos`.
fn draw_waveform(buffer: &mut PixelBuffer, heights: &Vec<Frac>, pos: Position, bounds: Bounds)
    requires
        old(buffer).wf(),
        forall|i: int| 0 <= i < heights@.len() ==> (#[trigger] heights@[i]).inv(),
        heights@.len() <= i32::MAX as int,
        pos.x as int + bounds.w as int <= 128,
        pos.y as int + bounds.h as int <= 32,
    ensures
        final(buffer).wf(),
        final(buffer).data@ == wave_painted(old(buffer).data@, heights@, pos, bounds),
{
    let mut col: u32 = 0;
    while col < bounds.w
        invariant
            buffer.wf(),
            forall|i: int| 0 <= i < heights@.len() ==> (#[trigger] heights@[i]).inv(),
            heights@.len() <= i32::MAX as int,
            pos.x as int + bounds.w as int <= 128,
            pos.y as int + bounds.h as int <= 32,
            0 <= col <= bounds.w,
            forall|idx: int|
                0 <= idx < 4096 ==> #[trigger] buffer.data@[idx] == (if pos.x as int <= idx % 128
                    < pos.x as int + col as int && pos.y as int <= idx / 128 < pos.y as int
                    + bounds.h as int {
                    if filled_spec(
                        heights@,
                        bounds.h as int,
                        idx % 128 - pos.x as int,
                        idx / 128 - pos.y as int,
                    ) == 1 {
                        white()
                    } else {
                        black()
                    }
                } else {
                    old(buffer).data@[idx]
                }),
        decreases bounds.w - col,
    {
        let mut row: u32 = 0;
        while row < bounds.h
            invariant
                buffer.wf(),
                forall|i: int| 0 <= i < heights@.len() ==> (#[trigger] heights@[i]).inv(),
                heights@.len() <= i32::MAX as int,
                pos.x as int + bounds.w as int <= 128,
                pos.y as int + bounds.h as int <= 32,
                0 <= col < bounds.w,
                0 <= row <= bounds.h,
                forall|idx: int|
                    0 <= idx < 4096 ==> #[trigger] buffer.data@[idx] == (if (pos.x as int <= idx
                        % 128 < pos.x as int + col as int && pos.y as int <= idx / 128
                        < pos.y as int + bounds.h as int) || (idx % 128 == pos.x as int
                        + col as int && pos.y as int <= idx / 128 < pos.y as int + row as int) {
                        if filled_spec(
                            heights@,
                            bounds.h as int,
                            idx % 128 - pos.x as int,
                            idx / 128 - pos.y as int,
                        ) == 1 {
                            white()
                        } else {
                            black()
                        }
                    } else {
                        old(buffer).data@[idx]
                    }),
            decreases bounds.h - row,
        {
            let raw = calculate_pixel(heights, &bounds, col as i32, row as i32);
            let pixel = if raw == 1 {
                pixel_white()
            } else {
                pixel_black()
            };
            buffer.put_pixel(pos.x + col, pos.y + row, pixel);
            proof {
                lemma_screen_divmod(pos.x as int + col as int, pos.y as int + row as int);
                assert forall|idx: int| 0 <= idx < 4096 implies #[trigger] buffer.data@[idx] == (if (
                pos.x as int <= idx % 128 < pos.x as int + col as int && pos.y as int <= idx / 128
                    < pos.y as int + bounds.h as int) || (idx % 128 == pos.x as int + col as int
                    && pos.y as int <= idx / 128 < pos.y as int + row as int + 1) {
                    if filled_spec(
                        heights@,
                        bounds.h as int,
                        idx % 128 - pos.x as int,
                        idx / 128 - pos.y as int,
                    ) == 1 {
                        white()
                    } else {
                        black()
                    }
                } else {
                    old(buffer).data@[idx]
                }) by {
                    lemma_idx_divmod(idx);
                }
            }
            row = row + 1;
        }
        col = col + 1;
    }
    proof {
        assert forall|idx: int| 0 <= idx < 4096 implies buffer.data@[idx]
            == #[trigger] wave_painted(old(buffer).data@, heights@, pos, bounds)[idx] by {
            lemma_idx_divmod(idx);
        }
        assert(buffer.data@ =~= wave_painted(old(buffer).data@, heights@, pos, bounds));
    }
}

/// The canvas after the dashed play head is drawn: column `x` over the
/// full device height, white on even rows, black on odd.
pub open spec fn playhead_painted(s: Seq<Pixel>, x: int) -> Seq<Pixel> {
    Seq::new(
        s.len(),
        |idx: int|
            if idx % 128 == x {
                if (idx / 128) % 2 == 0 {
                    white()
                } else {
                    black()
                }
            } else {
                s[idx]
            },
    )
}

/// Draw the dashed play head in column `x`, spanning the full device
/// height, not just the graph region.
fn draw_playhead(buffer: &mut PixelBuffer, x: u32)
    requires
        old(buffer).wf(),
        x < 128,
    ensures
        final(buffer).wf(),
        final(buffer).data@ == playhead_painted(old(buffer).data@, x as int),
{
    let mut y: u32 = 0;
    while y < 32
        invariant
            buffer.wf(),
            x < 128,
            0 <= y <= 32,
            forall|idx: int|
                0 <= idx < 4096 ==> #[trigger] buffer.data@[idx] == (if idx % 128 == x as int
                    && idx / 128 < y as int {
                    if (idx / 128) % 2 == 0 {
                        white()
                    } else {
                        black()
                    }
                } else {
                    old(buffer).data@[idx]
                }),
        decreases 32 - y,
    {
        let px = if y % 2 == 0 {
            pixel_white()
        } else {
            pixel_black()
        };
        buffer.put_pixel(x, y, px);
        proof {
            lemma_screen_divmod(x as int, y as int);
            assert forall|idx: int| 0 <= idx < 4096 implies #[trigger] buffer.data@[idx] == (if idx
                % 128 == x as int && idx / 128 < y as int + 1 {
                if (idx / 128) % 2 == 0 {
                    white()
                } else {
                    black()
                }
            } else {
                old(buffer).data@[idx]
            }) by {
                lemma_idx_divmod(idx);
            }
        }
        y = y + 1;
    }
    proof {
        assert forall|idx: int| 0 <= idx < 4096 implies buffer.data@[idx]
            == #[trigger] playhead_painted(old(buffer).data@, x as int)[idx] by {
            lemma_idx_divmod(idx);
        }
        assert(buffer.data@ =~= playhead_painted(old(buffer).data@, x as int));
    }
}

/// The canvas after the past-erase pass: inside the graph region, in
/// every column strictly left of the play head, each cell whose 3x3
/// neighborhood fails the erosion test is forced to background.
pub open spec fn erase_painted(
    s: Seq<Pixel>,
    hs: Seq<Frac>,
    pos: Position,
    bounds: Bounds,
    upto: int,
) -> Seq<Pixel> {
    Seq::new(
        s.len(),
        |idx: int|
            if pos.x as int <= idx % 128 < pos.x as int + upto && pos.y as int <= idx / 128
                < pos.y as int + bounds.h as int && erased_at(
                hs,
                bounds.h as int,
                idx % 128 - pos.x as int,
                idx / 128 - pos.y as int,
            ) {
                black()
            } else {
                s[idx]
            },
    )
}

/// Run the past-erase pass over columns `0..upto` of the graph region,
/// skipping cells that fall off the canvas.
fn erase_past(buffer: &mut PixelBuffer, heights: &Vec<Frac>, pos: Position, bounds: Bounds, upto: u32)
    requires
        old(buffer).wf(),
        forall|i: int| 0 <= i < heights@.len() ==> (#[trigger] heights@[i]).inv(),
        heights@.len() <= i32::MAX as int,
        upto <= i32::MAX as u32,
        bounds.h <= 32,
    ensures
        final(buffer).wf(),
        final(buffer).data@ == erase_painted(old(buffer).data@, heights@, pos, bounds, upto as int),
{
    let mask = flood_fill_mask();
    let mut col: u32 = 0;
    while col < upto
        invariant
            buffer.wf(),
            forall|i: int| 0 <= i < heights@.len() ==> (#[trigger] heights@[i]).inv(),
            heights@.len() <= i32::MAX as int,
            upto <= i32::MAX as u32,
            bounds.h <= 32,
            mask@ == flood_mask_spec(),
            0 <= col <= upto,
            forall|idx: int|
                0 <= idx < 4096 ==> #[trigger] buffer.data@[idx] == (if pos.x as int <= idx % 128
                    < pos.x as int + col as int && pos.y as int <= idx / 128 < pos.y as int
                    + bounds.h as int && erased_at(
                    heights@,
                    bounds.h as int,
                    idx % 128 - pos.x as int,
                    idx / 128 - pos.y as int,
                ) {
                    black()
                } else {
                    old(buffer).data@[idx]
                }),
        decreases upto - col,
    {
        let mut row: u32 = 0;
        while row < bounds.h
            invariant
                buffer.wf(),
                forall|i: int| 0 <= i < heights@.len() ==> (#[trigger] heights@[i]).inv(),
                heights@.len() <= i32::MAX as int,
                upto <= i32::MAX as u32,
                bounds.h <= 32,
                mask@ == flood_mask_spec(),
                0 <= col < upto,
                0 <= row <= bounds.h,
                forall|idx: int|
                    0 <= idx < 4096 ==> #[trigger] buffer.data@[idx] == (if (pos.x as int <= idx
                        % 128 < pos.x as int + col as int && pos.y as int <= idx / 128
                        < pos.y as int + bounds.h as int && erased_at(
                        heights@,
                        bounds.h as int,
                        idx % 128 - pos.x as int,
                        idx / 128 - pos.y as int,
                    )) || (idx % 128 == pos.x as int + col as int && pos.y as int <= idx / 128
                        < pos.y as int + row as int && erased_at(
                        heights@,
                        bounds.h as int,
                        col as int,
                        idx / 128 - pos.y as int,
                    )) {
                        black()
                    } else {
                        old(buffer).data@[idx]
                    }),
            decreases bounds.h - row,
        {
            let x: i32 = col as i32;
            let y: i32 = row as i32;
            let kernel: [u32; 9] = [
                calculate_pixel(heights, &bounds, x - 1, y - 1),
                calculate_pixel(heights, &bounds, x, y - 1),
                calculate_pixel(heights, &bounds, x + 1, y - 1),
                calculate_pixel(heights, &bounds, x - 1, y),
                calculate_pixel(heights, &bounds, x, y),
                calculate_pixel(heights, &bounds, x + 1, y),
                calculate_pixel(heights, &bounds, x - 1, y + 1),
                calculate_pixel(heights, &bounds, x, y + 1),
                calculate_pixel(heights, &bounds, x + 1, y + 1),
            ];
            proof {
                assert(kernel@ =~= kernel_at(heights@, bounds.h as int, x as int, y as int));
            }
            let erase_here = !should_erase(kernel, &mask);
            assert(erase_here == erased_at(heights@, bounds.h as int, col as int, row as int));
            let screen_x: u64 = pos.x as u64 + col as u64;
            let screen_y: u64 = pos.y as u64 + row as u64;
            if erase_here && screen_x < 128 && screen_y < 32 {
                buffer.put_pixel(screen_x as u32, screen_y as u32, pixel_black());
                proof {
                    lemma_screen_divmod(screen_x as int, screen_y as int);
                    assert forall|idx: int| 0 <= idx < 4096 implies #[trigger] buffer.data@[idx]
                        == (if (pos.x as int <= idx % 128 < pos.x as int + col as int
                        && pos.y as int <= idx / 128 < pos.y as int + bounds.h as int && erased_at(
                        heights@,
                        bounds.h as int,
                        idx % 128 - pos.x as int,
                        idx / 128 - pos.y as int,
                    )) || (idx % 128 == pos.x as int + col as int && pos.y as int <= idx / 128
                        < pos.y as int + row as int + 1 && erased_at(
                        heights@,
                        bounds.h as int,
                        col as int,
                        idx / 128 - pos.y as int,
                    )) {
                        black()
                    } else {
                        old(buffer).data@[idx]
                    }) by {
                        lemma_idx_divmod(idx);
                    }
                }
            } else {
                proof {
                    assert forall|idx: int| 0 <= idx < 4096 implies #[trigger] buffer.data@[idx]
                        == (if (pos.x as int <= idx % 128 < pos.x as int + col as int
                        && pos.y as int <= idx / 128 < pos.y as int + bounds.h as int && erased_at(
                        heights@,
                        bounds.h as int,
                        idx % 128 - pos.x as int,
                        idx / 128 - pos.y as int,
                    )) || (idx % 128 == pos.x as int + col as int && pos.y as int <= idx / 128
                        < pos.y as int + row as int + 1 && erased_at(
                        heights@,
                        bounds.h as int,
                        col as int,
                        idx / 128 - pos.y as int,
                    )) {
                        black()
                    } else {
                        old(buffer).data@[idx]
                    }) by {
                        lemma_idx_divmod(idx);
                    }
                }
            }
            row = row + 1;
        }
        col = col + 1;
    }
    proof {
        assert forall|idx: int| 0 <= idx < 4096 implies buffer.data@[idx] == #[trigger] erase_painted(
            old(buffer).data@,
            heights@,
            pos,
            bounds,
            upto as int,
        )[idx] by {
            lemma_idx_divmod(idx);
        }
        assert(buffer.data@ =~= erase_painted(
            old(buffer).data@,
            heights@,
            pos,
            bounds,
            upto as int,
        ));
    }
}

/// The canvas after a list of extreme labels is painted left to right.
pub open spec fn labels_painted(s: Seq<Pixel>, font: Font5, lbls: Seq<TextField>) -> Seq<Pixel>
    decreases lbls.len(),
{
    if lbls.len() == 0 {
        s
    } else {
        labels_painted(label_painted(s, font, lbls[0]), font, lbls.drop_first())
    }
}

/// Painting one more label extends the fold on the right.
proof fn lemma_labels_painted_push(s: Seq<Pixel>, font: Font5, lbls: Seq<TextField>, tf: TextField)
    ensures
        labels_painted(s, font, lbls.push(tf)) == label_painted(
            labels_painted(s, font, lbls),
            font,
            tf,
        ),
    decreases lbls.len(),
{
    let pushed = lbls.push(tf);
    assert(pushed.len() == lbls.len() + 1);
    if lbls.len() == 0 {
        assert(pushed[0] == tf);
        assert(pushed.drop_first() =~= Seq::<TextField>::empty());
        assert(labels_painted(s, font, pushed) == labels_painted(
            label_painted(s, font, tf),
            font,
            pushed.drop_first(),
        ));
        assert(labels_painted(label_painted(s, font, tf), font, Seq::<TextField>::empty())
            == label_painted(s, font, tf));
        assert(labels_painted(s, font, lbls) == s);
    } else {
        assert(pushed[0] == lbls[0]);
        assert(pushed.drop_first() =~= lbls.drop_first().push(tf));
        assert(labels_painted(s, font, pushed) == labels_painted(
            label_painted(s, font, lbls[0]),
            font,
            lbls.drop_first().push(tf),
        ));
        lemma_labels_painted_push(label_painted(s, font, lbls[0]), font, lbls.drop_first(), tf);
        assert(labels_painted(s, font, lbls) == labels_painted(
            label_painted(s, font, lbls[0]),
            font,
            lbls.drop_first(),
        ));
    }
}

/// The labels a frame paints correspond one for one to the extremes that
/// fall inside the window: one label per filtered extreme, placed at its
/// window column along the top, reading a well-formed `HH:MM` clock text.
pub open spec fn graph_labels_wf(
    lbls: Seq<TextField>,
    font: Font5,
    data: TideModelWindow,
    pos: Position,
) -> bool {
    let ex = data.extremes@.filter(crate::tides::in_window_pred(data.start_index));
    &&& lbls.len() == ex.len()
    &&& forall|k: int|
        0 <= k < lbls.len() ==> {
            &&& (#[trigger] lbls[k]).wf(font)
            &&& lbls[k].pos.x as int == pos.x as int + ex[k].index as int
                - data.start_index as int
            &&& lbls[k].pos.y == 0
            &&& exists|h: int, m: int|
                0 <= h < 24 && 0 <= m < 60 && lbls[k].text@ == #[trigger] hm_chars(h, m, ':')
        }
}

/// The canvas after one whole graph frame, given the labels it painted:
/// the waveform, the labels, the play head at the sample nearest `now`
/// (when its column is on the canvas), and the past-erase pass left of
/// it.
pub open spec fn graph_painted(
    s: Seq<Pixel>,
    data: TideModelWindow,
    font: Font5,
    pos: Position,
    bounds: Bounds,
    lbls: Seq<TextField>,
    now: int,
) -> Seq<Pixel> {
    let s1 = wave_painted(s, data.normalised_heights@, pos, bounds);
    let s2 = labels_painted(s1, font, lbls);
    if data.dates@.len() > 0 {
        let i = choose|i: int|
            crate::tides::earliest_nearest(crate::tides::date_ints(data.dates@), now, i);
        let s3 = if pos.x as int + i < 128 {
            playhead_painted(s2, pos.x as int + i)
        } else {
            s2
        };
        erase_painted(s3, data.normalised_heights@, pos, bounds, i)
    } else {
        erase_painted(s2, data.normalised_heights@, pos, bounds, 0)
    }
}

/// The graph region of one frame: waveform, labels, play head and
/// past-erase pass, rendered from a tide window.
pub struct GraphCanvas {
    pub pos: Position,
    pub bounds: Bounds,
}

impl GraphCanvas {
    /// A graph region occupying a `w` by `h` box at `(x, y)`.
    pub fn new(x: u32, y: u32, w: u32, h: u32) -> (r: GraphCanvas)
        ensures
            r.pos == (Position { x, y }),
            r.bounds == (Bounds { w, h }),
    {
        GraphCanvas { pos: Position { x, y }, bounds: Bounds { w, h } }
    }

    /// Paint one frame of the graph region, in order: the waveform
    /// silhouette; the extreme labels, whose descenders read the
    /// waveform just drawn; the dashed play head at the sample nearest
    /// `now`, spanning the full device height (not just the graph
    /// region) and drawn only when its column is on the canvas; and the
    /// past-erase pass over every column strictly left of the play head.
    /// The result is exactly [`graph_painted`], for labels whose clock
    /// texts came from the wall clock ([`graph_labels_wf`]).
    pub fn paint(&self, buffer: &mut PixelBuffer, data: &TideModelWindow, font: &Font5, now: i64)
        requires
            old(buffer).wf(),
            font.wf(),
            data.wf(),
            data.normalised_heights@.len() <= i32::MAX as int,
            data.dates@.len() <= u32::MAX as int,
            self.pos.x as int + self.bounds.w as int <= 128,
            self.pos.y as int + self.bounds.h as int <= 32,
        ensures
            final(buffer).wf(),
            exists|lbls: Seq<TextField>|
                #[trigger] graph_labels_wf(lbls, *font, *data, self.pos)
                    && final(buffer).data@ == graph_painted(
                    old(buffer).data@,
                    *data,
                    *font,
                    self.pos,
                    self.bounds,
                    lbls,
                    now as int,
                ),
    {
        draw_waveform(buffer, &data.normalised_heights, self.pos, self.bounds);
        let ghost s1 = buffer.data@;

        // Labels depend on drawn wave data to draw descenders.
        let ex = data.extremes();
        proof {
            assert forall|j: int| 0 <= j < ex@.len() implies ((#[trigger] ex@[j]).index as int) < (
            data.start_index as int + data.normalised_heights@.len()) by {
                assert(data.extremes@.contains(ex@[j]));
                let i = choose|i: int|
                    0 <= i < data.extremes@.len() && data.extremes@[i] == ex@[j];
                assert((data.extremes@[i].index as int) < (data.start_index as int
                    + data.normalised_heights@.len()));
            }
        }
        let ghost fex = data.extremes@.filter(crate::tides::in_window_pred(data.start_index));
        let ghost mut lbls: Seq<TextField> = Seq::empty();
        let mut k: usize = 0;
        while k < ex.len()
            invariant
                buffer.wf(),
                font.wf(),
                ex@ == fex,
                forall|j: int| 0 <= j < ex@.len() ==> (#[trigger] ex@[j]).index >= data.start_index,
                forall|j: int|
                    0 <= j < ex@.len() ==> ((#[trigger] ex@[j]).index as int) < (
                    data.start_index as int + data.normalised_heights@.len()),
                data.normalised_heights@.len() <= i32::MAX as int,
                self.pos.x as int + self.bounds.w as int <= 128,
                0 <= k <= ex@.len(),
                lbls.len() == k,
                buffer.data@ == labels_painted(s1, *font, lbls),
                s1.len() == 4096,
                forall|j: int|
                    0 <= j < k ==> {
                        &&& (#[trigger] lbls[j]).wf(*font)
                        &&& lbls[j].pos.x as int == self.pos.x as int + ex@[j].index as int
                            - data.start_index as int
                        &&& lbls[j].pos.y == 0
                        &&& exists|h: int, m: int|
                            0 <= h < 24 && 0 <= m < 60 && lbls[j].text@ == #[trigger] hm_chars(
                                h,
                                m,
                                ':',
                            )
                    },
            decreases ex@.len() - k,
        {
            let e = ex[k];
            let data_index_in_window = data.get_extreme_index_in_window(e.index());
            let label = ExtremeLabel::new(font, &e, data_index_in_window, &self.pos);
            label.paint(buffer, font);
            proof {
                lemma_labels_painted_push(s1, *font, lbls, label.text_field);
                lbls = lbls.push(label.text_field);
            }
            k = k + 1;
        }
        proof {
            assert(graph_labels_wf(lbls, *font, *data, self.pos));
        }
        let ghost s2 = buffer.data@;

        // Draw play head.
        let mut current_index: u32 = 0;
        match TideModel::find_time_index(&data.dates, now) {
            Some(index) => {
                current_index = index;
                let x: u64 = self.pos.x as u64 + index as u64;
                if x < 128 {
                    draw_playhead(buffer, x as u32);
                }
            },
            None => {},
        }
        let ghost s3 = buffer.data@;

        // Erase the waveform silhouette in the past, left of the play head.
        erase_past(buffer, &data.normalised_heights, self.pos, self.bounds, current_index);

        proof {
            if data.dates@.len() > 0 {
                let chosen = choose|i: int|
                    crate::tides::earliest_nearest(
                        crate::tides::date_ints(data.dates@),
                        now as int,
                        i,
                    );
                crate::tides::lemma_earliest_nearest_unique(
                    crate::tides::date_ints(data.dates@),
                    now as int,
                    chosen,
                    current_index as int,
                );
            }
            assert(buffer.data@ == graph_painted(
                old(buffer).data@,
                *data,
                *font,
                self.pos,
                self.bounds,
                lbls,
                now as int,
            ));
        }
    }
}

/// Draw `text` horizontally centered on the canvas, at the fixed banner
/// row.
pub fn render(text: &Vec<char>, font: &Font5, backbuffer: &mut PixelBuffer)
    requires
        old(backbuffer).wf(),
        font.wf(),
        text_width(*font, text@) <= 128,
    ensures
        final(backbuffer).wf(),
        final(backbuffer).data@ == paint_text(
            old(backbuffer).data@,
            *font,
            text@,
            64 - text_width(*font, text@) / 2,
            13,
        ),
{
    let mut width: u32 = 0;
    let mut i: usize = 0;
    while i < text.len()
        invariant
            font.wf(),
            0 <= i <= text@.len(),
            text_width(*font, text@) <= 128,
            width as int == text_width(*font, text@.subrange(0, i as int)),
        decreases text@.len() - i,
    {
        proof {
            lemma_text_width_prefix(*font, text@, i + 1);
            let a = text@.subrange(0, i as int);
            let b = text@.subrange(0, i + 1);
            assert(b.drop_last() =~= a);
            assert(b.last() == text@[i as int]);
        }
        match font.get(text[i]) {
            Some(g) => {
                width = width + g.width + 1;
            },
            None => {},
        }
        i = i + 1;
    }
    proof {
        assert(text@.subrange(0, text@.len() as int) =~= text@);
    }
    let caret: u32 = 128 / 2 - width / 2;
    blit_text(backbuffer, font, text, caret as u64, 13);
}

/// The whole frame as pixels, given the wall-clock reading `(h, m)`,
/// the gauge height `t` and the labels the graph painted: onto a fresh
/// canvas, the clock text at the top left (separator `_` on odd
/// seconds, `:` otherwise), the high and low water labels, the
/// water-mark gauge, and the graph region.
pub open spec fn frame_painted(
    font: Font5,
    data: TideModelWindow,
    h: int,
    m: int,
    t: Frac,
    lbls: Seq<TextField>,
    now: i64,
) -> Seq<Pixel> {
    let sep = if (now & 1) == 1 {
        '_'
    } else {
        ':'
    };
    let s1 = paint_text(blank_frame(), font, hm_chars(h, m, sep), 0, 0);
    let s2 = paint_text(
        s1,
        font,
        crate::clock::height_label_chars(data.water_mark.high_water as int),
        0,
        8,
    );
    let s3 = paint_text(
        s2,
        font,
        crate::clock::height_label_chars(data.water_mark.low_water as int),
        0,
        27,
    );
    let s4 = watermark_painted(
        s3,
        Position { x: 17u32, y: 10u32 },
        Bounds { w: 2u32, h: 22u32 },
        t,
    );
    graph_painted(
        s4,
        data,
        font,
        Position { x: 21u32, y: 10u32 },
        Bounds { w: 107u32, h: 22u32 },
        lbls,
        now as int,
    )
}

/// Compose one full frame: the clock text (separator alternating
/// between `:` and `_` by the parity of the second), the high and low
/// water-mark labels, the water-mark gauge, and the graph region, drawn
/// into a fresh canvas.  The result is exactly [`frame_painted`], for
/// some wall-clock reading, gauge height and graph labels as the
/// existential states them.
pub fn compose_frame(
    font: &Font5,
    tide_model: &TideModel,
    tide_window: &TideModelWindow,
    local_time: i64,
) -> (r: PixelBuffer)
    requires
        font.wf(),
        tide_model.wf(),
        tide_window.wf(),
        tide_model.dates@.len() <= u32::MAX as int,
        tide_window.normalised_heights@.len() <= i32::MAX as int,
        tide_window.dates@.len() <= u32::MAX as int,
    ensures
        r.wf(),
        exists|h: int, m: int, t: Frac, lbls: Seq<TextField>|
            {
                &&& 0 <= h < 24
                &&& 0 <= m < 60
                &&& is_current_norm_height(*tide_model, local_time as int, t)
                &&& graph_labels_wf(lbls, *font, *tide_window, (Position { x: 21u32, y: 10u32 }))
                &&& r.data@ == #[trigger] frame_painted(
                    *font,
                    *tide_window,
                    h,
                    m,
                    t,
                    lbls,
                    local_time,
                )
            },
{
    let empty_text: Vec<char> = Vec::new();
    proof {
        assert(empty_text@ =~= Seq::<char>::empty());
    }
    let mut time_text = TextField::new(empty_text, font, 0, 0);
    let empty_text2: Vec<char> = Vec::new();
    proof {
        assert(empty_text2@ =~= Seq::<char>::empty());
    }
    let mut high_water_text = TextField::new(empty_text2, font, 0, 8);
    let empty_text3: Vec<char> = Vec::new();
    proof {
        assert(empty_text3@ =~= Seq::<char>::empty());
    }
    let mut low_water_text = TextField::new(empty_text3, font, 0, 27);

    let graph = GraphCanvas::new(21, 10, 107, 22);
    let water_mark = WaterMark::new(17, 10, 2, 22);

    let mut img = PixelBuffer::new();

    // '_' stands in for the colon on odd seconds, so the separator
    // appears to blink.
    let sep: char = if (local_time & 1) == 1 {
        '_'
    } else {
        ':'
    };
    let hm = local_hm_or_zero(local_time);
    let time_chars = format_hm(hm.0, hm.1, sep);
    proof {
        lemma_text_width_bound(*font, time_chars@);
    }
    time_text.set_text(time_chars, font);

    let high_chars = crate::clock::format_height_label(tide_window.water_mark().high_water);
    proof {
        crate::clock::lemma_dec_digits_len(
            ((if tide_window.water_mark.high_water >= 0 {
                tide_window.water_mark.high_water as int
            } else {
                -(tide_window.water_mark.high_water as int)
            }) + 50) / 100 / 10,
        );
        lemma_text_width_bound(*font, high_chars@);
    }
    high_water_text.set_text(high_chars, font);

    let low_chars = crate::clock::format_height_label(tide_window.water_mark().low_water);
    proof {
        crate::clock::lemma_dec_digits_len(
            ((if tide_window.water_mark.low_water >= 0 {
                tide_window.water_mark.low_water as int
            } else {
                -(tide_window.water_mark.low_water as int)
            }) + 50) / 100 / 10,
        );
        lemma_text_width_bound(*font, low_chars@);
    }
    low_water_text.set_text(low_chars, font);

    time_text.paint(&mut img, font);
    let ghost g1 = img.data@;
    high_water_text.paint(&mut img, font);
    let ghost g2 = img.data@;
    low_water_text.paint(&mut img, font);
    let ghost g3 = img.data@;

    water_mark.paint(&mut img, tide_model, local_time);
    let ghost g4 = img.data@;
    graph.paint(&mut img, tide_window, font, local_time);

    proof {
        let t = choose|t: Frac|
            #![auto]
            is_current_norm_height(*tide_model, local_time as int, t) && g4 == watermark_painted(
                g3,
                water_mark.pos,
                water_mark.bounds,
                t,
            );
        let lbls = choose|lbls: Seq<TextField>|
            #![auto]
            graph_labels_wf(lbls, *font, *tide_window, graph.pos) && img.data@ == graph_painted(
                g4,
                *tide_window,
                *font,
                graph.pos,
                graph.bounds,
                lbls,
                local_time as int,
            );
        assert(img.data@ == frame_painted(
            *font,
            *tide_window,
            hm.0 as int,
            hm.1 as int,
            t,
            lbls,
            local_time,
        ));
    }
    img
}

/// Compose one full frame and hand it to the render device.  What the
/// frame holds is pinned by [`compose_frame`]'s contract; the sink is
/// the caller's collaborator and promises nothing.
pub fn paint<D: RenderDevice>(
    render_device: &mut D,
    font: &Font5,
    tide_model: &TideModel,
    tide_window: &TideModelWindow,
    local_time: i64,
)
    requires
        font.wf(),
        tide_model.wf(),
        tide_window.wf(),
        tide_model.dates@.len() <= u32::MAX as int,
        tide_window.normalised_heights@.len() <= i32::MAX as int,
        tide_window.dates@.len() <= u32::MAX as int,
{
    let img = compose_frame(font, tide_model, tide_window, local_time);
    render_device.render(&img);
}

} // verus!
