//! The RGB frame buffer and its drawing primitives.
//!
//! A frame is a row-major grid of pixels, three bytes each. Every drawing
//! operation is stated as a function on the frame's value: which bytes of the
//! new frame come from the thing drawn, and that all others are the old ones.

use vstd::prelude::*;
use vstd::arithmetic::div_mod::{lemma_fundamental_div_mod, lemma_fundamental_div_mod_converse};
use vstd::arithmetic::div_mod::lemma_mod_bound;
use crate::colors::Rgb;
use crate::fonts::{
    bitmap_view, lemma_char_width_bounds, lemma_sum_widths_bounds, lemma_text_extent,
    text_extent_fits, CharBitmap, FontView, IconPixel, MtaFont, RouteIcon,
};

verus! {

/// Width of the sign in pixels.
pub const DISPLAY_WIDTH: usize = 192;

/// Height of the sign in pixels.
pub const DISPLAY_HEIGHT: usize = 32;

/// Something to draw: a grid of cells, each a colour or nothing. Rows may
/// differ in length.
pub type Sprite = Seq<Seq<Option<Rgb>>>;

/// The cell of a sprite at column `cx` of row `cy`, nothing outside it.
pub open spec fn sprite_at(sprite: Sprite, cx: int, cy: int) -> Option<Rgb> {
    if 0 <= cy < sprite.len() && 0 <= cx < sprite[cy].len() {
        sprite[cy][cx]
    } else {
        None
    }
}

/// The sprite of a glyph in one colour: a cell for each lit pixel.
pub open spec fn char_sprite(bitmap: Seq<Seq<bool>>, color: Rgb) -> Sprite {
    Seq::new(
        bitmap.len(),
        |r: int|
            Seq::new(
                bitmap[r].len(),
                |c: int|
                    if bitmap[r][c] {
                        Some(color)
                    } else {
                        None
                    },
            ),
    )
}

/// The sprite of an icon: a cell for each pixel whose alpha is not zero, in
/// that pixel's own colour.
pub open spec fn icon_sprite(pixels: Seq<Seq<IconPixel>>) -> Sprite {
    Seq::new(
        pixels.len(),
        |r: int|
            Seq::new(
                pixels[r].len(),
                |c: int|
                    if pixels[r][c].3 > 0 {
                        Some((pixels[r][c].0, pixels[r][c].1, pixels[r][c].2))
                    } else {
                        None
                    },
            ),
    )
}

/// The sprite of a frame: a cell for each pixel that is not black.
pub open spec fn frame_sprite(src: FrameView) -> Sprite {
    Seq::new(
        src.height,
        |r: int|
            Seq::new(
                src.width,
                |c: int|
                    if src.pixel(c, r) != (0u8, 0u8, 0u8) {
                        Some(src.pixel(c, r))
                    } else {
                        None
                    },
            ),
    )
}

/// One of the three bytes of a colour.
pub open spec fn channel(color: Rgb, ch: int) -> u8 {
    if ch == 0 {
        color.0
    } else if ch == 1 {
        color.1
    } else {
        color.2
    }
}

/// The mathematical value of a [`FrameBuffer`].
pub struct FrameView {
    pub width: nat,
    pub height: nat,
    /// Row-major, three bytes per pixel.
    pub pixels: Seq<u8>,
}

impl FrameView {
    /// The buffer holds three bytes for each pixel of the grid.
    pub open spec fn wf(self) -> bool {
        self.pixels.len() == self.width * self.height * 3
    }

    /// Whether a point lies on the frame.
    pub open spec fn in_bounds(self, x: int, y: int) -> bool {
        0 <= x < self.width && 0 <= y < self.height
    }

    /// The column of the pixel that byte `k` belongs to.
    pub open spec fn byte_x(self, k: int) -> int {
        (k / 3) % (self.width as int)
    }

    /// The row of the pixel that byte `k` belongs to.
    pub open spec fn byte_y(self, k: int) -> int {
        (k / 3) / (self.width as int)
    }

    /// The colour at a coordinate, black outside the grid.
    pub open spec fn pixel(self, x: int, y: int) -> Rgb {
        if self.in_bounds(x, y) {
            let i = (y * self.width + x) * 3;
            (self.pixels[i], self.pixels[i + 1], self.pixels[i + 2])
        } else {
            (0u8, 0u8, 0u8)
        }
    }

    /// A black frame of a given size.
    pub open spec fn blank(width: nat, height: nat) -> FrameView {
        FrameView { width, height, pixels: Seq::new(width * height * 3, |k: int| 0u8) }
    }

    /// The frame with every pixel black.
    pub open spec fn cleared(self) -> FrameView {
        FrameView { pixels: Seq::new(self.pixels.len(), |k: int| 0u8), ..self }
    }

    /// The frame with one pixel set. A coordinate outside the grid belongs
    /// to no byte, so nothing changes there.
    pub open spec fn paint(self, x: int, y: int, color: Rgb) -> FrameView {
        FrameView {
            pixels: Seq::new(
                self.pixels.len(),
                |k: int|
                    if self.byte_x(k) == x && self.byte_y(k) == y {
                        channel(color, k % 3)
                    } else {
                        self.pixels[k]
                    },
            ),
            ..self
        }
    }

    /// The frame with a sprite drawn with its top left corner at `(x, y)`:
    /// a pixel under a cell that holds a colour takes that colour, every
    /// other pixel stays.
    pub open spec fn blit(self, sprite: Sprite, x: int, y: int) -> FrameView {
        FrameView {
            pixels: Seq::new(
                self.pixels.len(),
                |k: int|
                    match sprite_at(sprite, self.byte_x(k) - x, self.byte_y(k) - y) {
                        Some(color) => channel(color, k % 3),
                        None => self.pixels[k],
                    },
            ),
            ..self
        }
    }

    /// The frame with the cells of a sprite drawn that come before column
    /// `cols` of row `rows` in row-major order.
    pub open spec fn blit_partial(self, sprite: Sprite, x: int, y: int, rows: int, cols: int) -> FrameView {
        FrameView {
            pixels: Seq::new(
                self.pixels.len(),
                |k: int|
                    {
                        let cx = self.byte_x(k) - x;
                        let cy = self.byte_y(k) - y;
                        if cy < rows || (cy == rows && cx < cols) {
                            match sprite_at(sprite, cx, cy) {
                                Some(color) => channel(color, k % 3),
                                None => self.pixels[k],
                            }
                        } else {
                            self.pixels[k]
                        }
                    },
            ),
            ..self
        }
    }
}

/// The distance by which a text moves the cursor: for each character its
/// width and the spacing.
pub open spec fn text_advance(font: FontView, text: Seq<char>, spacing: int, italic: bool) -> int {
    font.sum_widths(text, italic) + spacing * text.len()
}

impl FrameView {
    /// The frame with a text drawn from `(x, y)`: each character's glyph at
    /// the place that the characters before it have moved the cursor to. A
    /// character without a glyph draws nothing and still moves the cursor.
    pub open spec fn draw_text(
        self,
        font: FontView,
        text: Seq<char>,
        x: int,
        y: int,
        color: Rgb,
        italic: bool,
        spacing: int,
    ) -> FrameView
        decreases text.len(),
    {
        if text.len() == 0 {
            self
        } else {
            let before = self.draw_text(font, text.drop_last(), x, y, color, italic, spacing);
            let at = x + text_advance(font, text.drop_last(), spacing, italic);
            match font.char_bitmap(text.last(), italic) {
                Some(bitmap) => before.blit(char_sprite(bitmap, color), at, y),
                None => before,
            }
        }
    }
}

/// Drawing keeps the size of a frame and its well-formedness.
pub proof fn lemma_draw_text_keeps_size(
    v: FrameView,
    font: FontView,
    text: Seq<char>,
    x: int,
    y: int,
    color: Rgb,
    italic: bool,
    spacing: int,
)
    ensures
        v.draw_text(font, text, x, y, color, italic, spacing).width == v.width,
        v.draw_text(font, text, x, y, color, italic, spacing).height == v.height,
        v.draw_text(font, text, x, y, color, italic, spacing).pixels.len() == v.pixels.len(),
    decreases text.len(),
{
    if text.len() > 0 {
        lemma_draw_text_keeps_size(v, font, text.drop_last(), x, y, color, italic, spacing);
    }
}

/// Where the three bytes of an in-bounds pixel lie.
pub proof fn lemma_byte_of_pixel(v: FrameView, x: int, y: int, ch: int)
    requires
        v.wf(),
        v.in_bounds(x, y),
        0 <= ch < 3,
    ensures
        0 <= (y * v.width + x) * 3 + ch < v.pixels.len(),
        v.byte_x((y * v.width + x) * 3 + ch) == x,
        v.byte_y((y * v.width + x) * 3 + ch) == y,
        ((y * v.width + x) * 3 + ch) % 3 == ch,
{
    let w = v.width as int;
    let h = v.height as int;
    let p = y * w + x;
    assert(0 <= p < w * h) by (nonlinear_arith)
        requires
            p == y * w + x,
            0 <= x < w,
            0 <= y < h,
    ;
    let k = p * 3 + ch;
    lemma_fundamental_div_mod_converse(k, 3, p, ch);
    lemma_fundamental_div_mod_converse(p, w, y, x);
    assert(w * h * 3 == v.width * v.height * 3);
}

/// Every byte of a frame belongs to one in-bounds pixel.
pub proof fn lemma_pixel_of_byte(v: FrameView, k: int)
    requires
        v.wf(),
        0 <= k < v.pixels.len(),
    ensures
        v.in_bounds(v.byte_x(k), v.byte_y(k)),
        k == (v.byte_y(k) * v.width + v.byte_x(k)) * 3 + k % 3,
        0 <= k % 3 < 3,
{
    let w = v.width as int;
    let h = v.height as int;
    assert(w > 0 && h > 0) by (nonlinear_arith)
        requires
            w >= 0,
            h >= 0,
            w * h * 3 > 0,
    ;
    let p = k / 3;
    lemma_fundamental_div_mod(k, 3);
    lemma_fundamental_div_mod(p, w);
    lemma_mod_bound(p, w);
    let bx = p % w;
    let by = p / w;
    assert(p == w * by + bx);
    assert(w * by == by * w) by (nonlinear_arith);
    assert(0 <= by < h) by (nonlinear_arith)
        requires
            p == by * w + bx,
            0 <= bx < w,
            0 <= p,
            p * 3 < w * h * 3,
    ;
}

/// Painting outside the grid changes nothing.
pub proof fn lemma_paint_outside(v: FrameView, x: int, y: int, color: Rgb)
    requires
        v.wf(),
        !v.in_bounds(x, y),
    ensures
        v.paint(x, y, color) == v,
{
    assert forall|k: int| 0 <= k < v.pixels.len() implies v.paint(x, y, color).pixels[k]
        == v.pixels[k] by {
        lemma_pixel_of_byte(v, k);
    }
    assert(v.paint(x, y, color).pixels =~= v.pixels);
}

/// What painting one pixel does to every pixel of the grid: the painted
/// pixel takes the colour, all others keep theirs.
pub proof fn lemma_pixel_of_paint(v: FrameView, x: int, y: int, color: Rgb, px: int, py: int)
    requires
        v.wf(),
    ensures
        v.paint(x, y, color).pixel(px, py) == if px == x && py == y && v.in_bounds(x, y) {
            color
        } else {
            v.pixel(px, py)
        },
{
    if v.in_bounds(px, py) {
        lemma_byte_of_pixel(v, px, py, 0);
        lemma_byte_of_pixel(v, px, py, 1);
        lemma_byte_of_pixel(v, px, py, 2);
    }
}

/// What drawing a sprite does to every pixel of the grid: a pixel under a
/// cell that holds a colour becomes exactly that colour, and every other
/// pixel is left as it was. Nothing is blended.
pub proof fn lemma_pixel_of_blit(v: FrameView, sprite: Sprite, x: int, y: int, px: int, py: int)
    requires
        v.wf(),
        v.in_bounds(px, py),
    ensures
        v.blit(sprite, x, y).pixel(px, py) == match sprite_at(sprite, px - x, py - y) {
            Some(color) => color,
            None => v.pixel(px, py),
        },
{
    lemma_byte_of_pixel(v, px, py, 0);
    lemma_byte_of_pixel(v, px, py, 1);
    lemma_byte_of_pixel(v, px, py, 2);
}

/// Drawing an icon never blends: a pixel of the frame under an icon pixel
/// whose alpha is not zero becomes exactly that pixel's colour, and every
/// other pixel of the frame is left untouched.
pub proof fn lemma_blit_icon_is_hard_cut(
    v: FrameView,
    pixels: Seq<Seq<IconPixel>>,
    x: int,
    y: int,
    px: int,
    py: int,
)
    requires
        v.wf(),
        v.in_bounds(px, py),
    ensures
        ({
            let cx = px - x;
            let cy = py - y;
            let drawn = v.blit(icon_sprite(pixels), x, y).pixel(px, py);
            if 0 <= cy < pixels.len() && 0 <= cx < pixels[cy].len() && pixels[cy][cx].3 > 0 {
                drawn == (pixels[cy][cx].0, pixels[cy][cx].1, pixels[cy][cx].2)
            } else {
                drawn == v.pixel(px, py)
            }
        }),
{
    lemma_pixel_of_blit(v, icon_sprite(pixels), x, y, px, py);
}

/// Setting a pixel at a coordinate outside the grid leaves every pixel of
/// the grid as it was.
pub proof fn lemma_set_outside_keeps_pixels(
    v: FrameView,
    x: int,
    y: int,
    color: Rgb,
    px: int,
    py: int,
)
    requires
        v.wf(),
        !v.in_bounds(x, y),
    ensures
        v.paint(x, y, color).pixel(px, py) == v.pixel(px, py),
{
    lemma_paint_outside(v, x, y, color);
}

/// A fixed-size RGB pixel grid.
pub struct FrameBuffer {
    pixels: Vec<u8>,
    width: usize,
    height: usize,
}

impl View for FrameBuffer {
    type V = FrameView;

    closed spec fn view(&self) -> FrameView {
        FrameView {
            width: self.width as nat,
            height: self.height as nat,
            pixels: self.pixels@,
        }
    }
}

impl FrameBuffer {
    /// Every frame buffer holds three bytes for each pixel of its grid.
    #[verifier::type_invariant]
    pub open spec fn inv(self) -> bool {
        self@.wf()
    }

    /// A black frame of the size of the sign.
    pub fn new() -> (fb: FrameBuffer)
        ensures
            fb@ == FrameView::blank(DISPLAY_WIDTH as nat, DISPLAY_HEIGHT as nat),
            fb@.wf(),
    {
        FrameBuffer::with_size(DISPLAY_WIDTH, DISPLAY_HEIGHT)
    }

    /// A black frame of a given size.
    pub fn with_size(width: usize, height: usize) -> (fb: FrameBuffer)
        requires
            width * height * 3 <= usize::MAX,
        ensures
            fb@ == FrameView::blank(width as nat, height as nat),
            fb@.wf(),
    {
        assert(width * height <= usize::MAX) by (nonlinear_arith)
            requires
                width * height * 3 <= usize::MAX,
        ;
        let len: usize = width * height * 3;
        let mut pixels: Vec<u8> = Vec::with_capacity(len);
        let mut i: usize = 0;
        while i < len
            invariant
                i <= len,
                pixels@.len() == i,
                forall|k: int| 0 <= k < i ==> pixels@[k] == 0u8,
            decreases len - i,
        {
            pixels.push(0u8);
            i += 1;
        }
        let fb = FrameBuffer { pixels, width, height };
        assert(fb@.pixels =~= FrameView::blank(width as nat, height as nat).pixels);
        fb
    }

    /// The width of the frame in pixels.
    pub fn width(&self) -> (w: usize)
        ensures
            w == self@.width,
    {
        self.width
    }

    /// The height of the frame in pixels.
    pub fn height(&self) -> (h: usize)
        ensures
            h == self@.height,
    {
        self.height
    }

    /// Sets every pixel to black.
    pub fn clear(&mut self)
        ensures
            final(self)@ == old(self)@.cleared(),
    {
        proof {
            use_type_invariant(&*self);
        }
        let len = self.pixels.len();
        let mut i: usize = 0;
        while i < len
            invariant
                i <= len,
                len == self.pixels@.len(),
                self.width == old(self).width,
                self.height == old(self).height,
                self.pixels@.len() == old(self).pixels@.len(),
                self.pixels@.len() == self.width * self.height * 3,
                forall|k: int| 0 <= k < i ==> self.pixels@[k] == 0u8,
            decreases len - i,
        {
            self.pixels[i] = 0u8;
            i += 1;
        }
        assert(self@.pixels =~= old(self)@.cleared().pixels);
    }

    /// Sets the pixel at a coordinate given as wide integers.
    fn put(&mut self, x: i128, y: i128, color: Rgb)
        ensures
            final(self)@ == old(self)@.paint(x as int, y as int, color),
    {
        proof {
            use_type_invariant(&*self);
        }
        let ghost before = self@;
        let len = self.pixels.len();
        if x >= 0 && y >= 0 && x < self.width as i128 && y < self.height as i128 {
            let ux = x as usize;
            let uy = y as usize;
            proof {
                lemma_byte_of_pixel(before, x as int, y as int, 0);
                lemma_byte_of_pixel(before, x as int, y as int, 2);
                assert(before.width == self.width as nat);
                assert((y as int) * before.width == uy * self.width) by (nonlinear_arith)
                    requires
                        y as int == uy as int,
                        before.width as int == self.width as int,
                ;
                assert(uy * self.width >= 0) by (nonlinear_arith)
                    requires
                        uy >= 0,
                        self.width >= 0,
                ;
            }
            let idx: usize = (uy * self.width + ux) * 3;
            self.pixels[idx] = color.0;
            self.pixels[idx + 1] = color.1;
            self.pixels[idx + 2] = color.2;
            proof {
                assert forall|k: int| 0 <= k < before.pixels.len() implies self.pixels@[k]
                    == before.paint(x as int, y as int, color).pixels[k] by {
                    lemma_pixel_of_byte(before, k);
                    lemma_byte_of_pixel(before, x as int, y as int, 0);
                    lemma_byte_of_pixel(before, x as int, y as int, 1);
                    lemma_byte_of_pixel(before, x as int, y as int, 2);
                }
                assert(self@.pixels =~= before.paint(x as int, y as int, color).pixels);
            }
        } else {
            proof {
                lemma_paint_outside(before, x as int, y as int, color);
            }
        }
    }

    /// Draws a glyph with its top left corner at a coordinate given as wide
    /// integers.
    fn blit_char_at(&mut self, bitmap: &CharBitmap, x: i128, y: i128, color: Rgb)
        requires
            -0x1_0000_0000_0000_0000 <= x <= 0x1_0000_0000_0000_0000,
            -0x1_0000_0000_0000_0000 <= y <= 0x1_0000_0000_0000_0000,
        ensures
            final(self)@ == old(self)@.blit(
                char_sprite(bitmap_view(bitmap), color),
                x as int,
                y as int,
            ),
    {
        let ghost before = self@;
        let ghost sprite = char_sprite(bitmap_view(bitmap), color);
        assert(self@.pixels =~= before.blit_partial(sprite, x as int, y as int, 0, 0).pixels);
        let mut r: usize = 0;
        while r < bitmap.len()
            invariant
                r <= bitmap@.len(),
                sprite == char_sprite(bitmap_view(bitmap), color),
                -0x1_0000_0000_0000_0000 <= x <= 0x1_0000_0000_0000_0000,
                -0x1_0000_0000_0000_0000 <= y <= 0x1_0000_0000_0000_0000,
                self@ == before.blit_partial(sprite, x as int, y as int, r as int, 0),
            decreases bitmap@.len() - r,
        {
            let row = &bitmap[r];
            let mut c: usize = 0;
            while c < row.len()
                invariant
                    r < bitmap@.len(),
                    c <= row@.len(),
                    row@ == bitmap@[r as int]@,
                    sprite == char_sprite(bitmap_view(bitmap), color),
                    -0x1_0000_0000_0000_0000 <= x <= 0x1_0000_0000_0000_0000,
                    -0x1_0000_0000_0000_0000 <= y <= 0x1_0000_0000_0000_0000,
                    self@ == before.blit_partial(sprite, x as int, y as int, r as int, c as int),
                decreases row@.len() - c,
            {
                if row[c] {
                    self.put(x + c as i128, y + r as i128, color);
                }
                assert(self@.pixels =~= before.blit_partial(
                    sprite,
                    x as int,
                    y as int,
                    r as int,
                    c + 1,
                ).pixels);
                c += 1;
            }
            assert(self@.pixels =~= before.blit_partial(sprite, x as int, y as int, r + 1, 0).pixels);
            r += 1;
        }
        assert(self@.pixels =~= before.blit(sprite, x as int, y as int).pixels);
    }

    /// Draws a glyph in one colour with its top left corner at `(x, y)`.
    /// Unlit pixels of the glyph leave the frame as it is.
    pub fn blit_char(&mut self, bitmap: &CharBitmap, x: i32, y: i32, color: Rgb)
        ensures
            final(self)@ == old(self)@.blit(
                char_sprite(bitmap_view(bitmap), color),
                x as int,
                y as int,
            ),
    {
        self.blit_char_at(bitmap, x as i128, y as i128, color);
    }

    /// Draws an icon with its top left corner at a coordinate given as wide
    /// integers.
    pub fn blit_icon_at(&mut self, icon: &RouteIcon, x: i64, y: i64)
        ensures
            final(self)@ == old(self)@.blit(icon_sprite(icon@.pixels), x as int, y as int),
    {
        let ghost before = self@;
        let ghost sprite = icon_sprite(icon@.pixels);
        assert(self@.pixels =~= before.blit_partial(sprite, x as int, y as int, 0, 0).pixels);
        let mut r: usize = 0;
        while r < icon.pixels.len()
            invariant
                r <= icon.pixels@.len(),
                sprite == icon_sprite(icon@.pixels),
                self@ == before.blit_partial(sprite, x as int, y as int, r as int, 0),
            decreases icon.pixels@.len() - r,
        {
            let row = &icon.pixels[r];
            let mut c: usize = 0;
            while c < row.len()
                invariant
                    r < icon.pixels@.len(),
                    c <= row@.len(),
                    row@ == icon.pixels@[r as int]@,
                    sprite == icon_sprite(icon@.pixels),
                    self@ == before.blit_partial(sprite, x as int, y as int, r as int, c as int),
                decreases row@.len() - c,
            {
                let cell = row[c];
                if cell.3 > 0 {
                    self.put(x as i128 + c as i128, y as i128 + r as i128, (cell.0, cell.1, cell.2));
                }
                assert(self@.pixels =~= before.blit_partial(
                    sprite,
                    x as int,
                    y as int,
                    r as int,
                    c + 1,
                ).pixels);
                c += 1;
            }
            assert(self@.pixels =~= before.blit_partial(sprite, x as int, y as int, r + 1, 0).pixels);
            r += 1;
        }
        assert(self@.pixels =~= before.blit(sprite, x as int, y as int).pixels);
    }

    /// Draws an icon with its top left corner at `(x, y)`. A pixel of the
    /// frame is overwritten where the icon's alpha is not zero and only
    /// there; nothing is blended.
    pub fn blit_icon(&mut self, icon: &RouteIcon, x: i32, y: i32)
        ensures
            final(self)@ == old(self)@.blit(icon_sprite(icon@.pixels), x as int, y as int),
    {
        self.blit_icon_at(icon, x as i64, y as i64);
    }

    /// Draws another frame with its top left corner at `(x, y)`. The pixels
    /// of the other frame that are not black overwrite; its black pixels
    /// leave this frame as it is.
    pub fn blit_frame(&mut self, src: &FrameBuffer, x: i64, y: i64)
        ensures
            final(self)@ == old(self)@.blit(frame_sprite(src@), x as int, y as int),
    {
        let ghost before = self@;
        let ghost sprite = frame_sprite(src@);
        assert(self@.pixels =~= before.blit_partial(sprite, x as int, y as int, 0, 0).pixels);
        let height = src.height();
        let width = src.width();
        let mut r: usize = 0;
        while r < height
            invariant
                r <= height,
                height == src@.height,
                width == src@.width,
                sprite == frame_sprite(src@),
                self@ == before.blit_partial(sprite, x as int, y as int, r as int, 0),
            decreases height - r,
        {
            let mut c: usize = 0;
            while c < width
                invariant
                    r < height,
                    c <= width,
                    height == src@.height,
                    width == src@.width,
                    sprite == frame_sprite(src@),
                    self@ == before.blit_partial(sprite, x as int, y as int, r as int, c as int),
                decreases width - c,
            {
                let cell = src.get_pixel(c, r);
                if cell.0 != 0 || cell.1 != 0 || cell.2 != 0 {
                    self.put(x as i128 + c as i128, y as i128 + r as i128, cell);
                }
                assert(self@.pixels =~= before.blit_partial(
                    sprite,
                    x as int,
                    y as int,
                    r as int,
                    c + 1,
                ).pixels);
                c += 1;
            }
            assert(self@.pixels =~= before.blit_partial(sprite, x as int, y as int, r + 1, 0).pixels);
            r += 1;
        }
        assert(self@.pixels =~= before.blit(sprite, x as int, y as int).pixels);
    }

    /// Draws a text from `(x, y)` and returns the distance by which it moved
    /// the cursor, zero where that distance is negative.
    pub fn draw_text(
        &mut self,
        font: &MtaFont,
        text: &str,
        x: i32,
        y: i32,
        color: Rgb,
        italic: bool,
        spacing: i32,
    ) -> (advanced: usize)
        requires
            text_extent_fits(text@.len(), spacing as int),
        ensures
            final(self)@ == old(self)@.draw_text(
                font@,
                text@,
                x as int,
                y as int,
                color,
                italic,
                spacing as int,
            ),
            advanced == (if text_advance(font@, text@, spacing as int, italic) < 0 {
                0
            } else {
                text_advance(font@, text@, spacing as int, italic)
            }),
            advanced <= i32::MAX,
    {
        let ghost before = self@;
        let mut x_offset: i64 = 0;
        assert(text@.take(0) =~= Seq::<char>::empty());
        assert((spacing as int) * 0 == 0);
        for ch in it: text.chars()
            invariant
                it.seq() == text@,
                text_extent_fits(text@.len(), spacing as int),
                x_offset == text_advance(font@, text@.take(it.index() as int), spacing as int, italic),
                -(i32::MAX as int) <= x_offset <= i32::MAX,
                self@ == before.draw_text(
                    font@,
                    text@.take(it.index() as int),
                    x as int,
                    y as int,
                    color,
                    italic,
                    spacing as int,
                ),
        {
            let ghost i = it.index() as int;
            let ghost done = text@.take(i);
            let ghost next = text@.take(i + 1);
            proof {
                assert(next.drop_last() =~= done);
                assert(next.last() == text@[i]);
                lemma_sum_widths_bounds(font@, next, italic);
                lemma_char_width_bounds(font@, ch, italic);
                lemma_text_extent(text@.len(), spacing as int, (i + 1) as nat);
                assert((spacing as int) * (i + 1) == (spacing as int) * i + spacing) by (nonlinear_arith);
            }
            match font.get_char_bitmap(ch, italic) {
                Some(bitmap) => {
                    self.blit_char_at(&bitmap, x as i128 + x_offset as i128, y as i128, color);
                },
                None => {},
            }
            x_offset = x_offset + font.get_char_width(ch, italic) as i64 + spacing as i64;
        }
        assert(text@.take(text@.len() as int) =~= text@);
        if x_offset < 0 {
            0
        } else {
            x_offset as usize
        }
    }

    /// Sets one pixel. A coordinate outside the grid is ignored.
    pub fn set_pixel(&mut self, x: i32, y: i32, color: Rgb)
        ensures
            final(self)@ == old(self)@.paint(x as int, y as int, color),
            !old(self)@.in_bounds(x as int, y as int) ==> final(self)@ == old(self)@,
    {
        proof {
            use_type_invariant(&*self);
            if !self@.in_bounds(x as int, y as int) {
                lemma_paint_outside(self@, x as int, y as int, color);
            }
        }
        self.put(x as i128, y as i128, color);
    }

    /// The colour of one pixel, black outside the grid.
    pub fn get_pixel(&self, x: usize, y: usize) -> (color: Rgb)
        ensures
            color == self@.pixel(x as int, y as int),
    {
        proof {
            use_type_invariant(self);
        }
        let len = self.pixels.len();
        if x < self.width && y < self.height {
            proof {
                lemma_byte_of_pixel(self@, x as int, y as int, 0);
                lemma_byte_of_pixel(self@, x as int, y as int, 2);
                assert((y as int) * self@.width == y * self.width) by (nonlinear_arith)
                    requires
                        self@.width as int == self.width as int,
                ;
                assert(y * self.width >= 0) by (nonlinear_arith)
                    requires
                        y >= 0,
                        self.width >= 0,
                ;
            }
            let idx: usize = (y * self.width + x) * 3;
            (self.pixels[idx], self.pixels[idx + 1], self.pixels[idx + 2])
        } else {
            (0, 0, 0)
        }
    }

    /// The bytes of the frame, row-major, three per pixel.
    pub fn raw_pixels(&self) -> (bytes: &[u8])
        ensures
            bytes@ == self@.pixels,
            bytes@.len() == self@.width * self@.height * 3,
    {
        proof {
            use_type_invariant(self);
        }
        self.pixels.as_slice()
    }
}

} // verus!
