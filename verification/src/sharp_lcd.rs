//! The Sharp memory LCD (160 x 68, one bit per pixel, active low): the frame
//! buffer, the decision whether a flush has to be sent, the byte framing of the
//! write and VCOM commands, and the status screen.

use vstd::prelude::*;
use embedded_graphics::geometry::{Point, Size};
use embedded_graphics::pixelcolor::BinaryColor;
use embedded_graphics::primitives::{PrimitiveStyle, Rectangle, Styled};

verus! {

pub const WIDTH: usize = 160;

pub const WIDTH_BYTES: usize = 20;

pub const HEIGHT: usize = 68;

pub const FRAMEBUFFER_SIZE: usize = 1360;

pub const WRITE_COMMAND: u8 = 0x01;

pub const VCOM_BIT: u8 = 0x02;

pub const CLEAR_COMMAND: u8 = 0x04;

/// Length of one line as sent: line number, 20 data bytes, a dummy byte.
pub const LINE_LENGTH: usize = 22;

pub open spec fn in_bounds(x: int, y: int) -> bool {
    0 <= x < WIDTH && 0 <= y < HEIGHT
}

/// Byte of the frame buffer that holds pixel `(x, y)`.
pub open spec fn pixel_index(x: int, y: int) -> int {
    y * WIDTH_BYTES + x / 8
}

/// Bit of that byte that holds pixel `(x, y)`; the leftmost pixel is bit 0.
pub open spec fn pixel_bit(x: int) -> u8 {
    (x % 8) as u8
}

/// Whether pixel `(x, y)` is dark.  The panel is active low: a cleared bit is
/// a dark pixel.
pub open spec fn pixel_on(fb: Seq<u8>, x: int, y: int) -> bool {
    (fb[pixel_index(x, y)] >> pixel_bit(x)) & 1u8 == 0u8
}

/// The byte `b` with bit `bit` cleared for a dark pixel or set for a light one.
pub open spec fn paint_byte(b: u8, bit: u8, on: bool) -> u8 {
    if on {
        b & !(1u8 << bit)
    } else {
        b | (1u8 << bit)
    }
}

/// The frame buffer after drawing one pixel; pixels outside the panel are ignored.
pub open spec fn paint_pixel(fb: Seq<u8>, x: int, y: int, on: bool) -> Seq<u8> {
    if in_bounds(x, y) {
        fb.update(pixel_index(x, y), paint_byte(fb[pixel_index(x, y)], pixel_bit(x), on))
    } else {
        fb
    }
}

/// The frame buffer after drawing pixels in order.
pub open spec fn paint_pixels(fb: Seq<u8>, pixels: Seq<(i32, i32, bool)>) -> Seq<u8>
    decreases pixels.len(),
{
    if pixels.len() == 0 {
        fb
    } else {
        let p = pixels.last();
        paint_pixel(paint_pixels(fb, pixels.drop_last()), p.0 as int, p.1 as int, p.2)
    }
}

/// A frame buffer of one colour.
pub open spec fn uniform_frame(on: bool) -> Seq<u8> {
    Seq::new(FRAMEBUFFER_SIZE as nat, |i: int| if on { 0x00u8 } else { 0xffu8 })
}

/// Frame buffer and flush bookkeeping of the display.
pub struct SharpDisplay {
    framebuffer: [u8; FRAMEBUFFER_SIZE],
    last_framebuffer: [u8; FRAMEBUFFER_SIZE],
    flushed_once: bool,
}

impl SharpDisplay {
    /// The frame being drawn.
    pub closed spec fn frame(self) -> Seq<u8> {
        self.framebuffer@
    }

    /// The frame last sent to the panel.
    pub closed spec fn sent_frame(self) -> Seq<u8> {
        self.last_framebuffer@
    }

    /// Whether a frame was ever sent.
    pub closed spec fn flushed_once(self) -> bool {
        self.flushed_once
    }

    /// A white display that has sent nothing yet.
    pub fn new() -> (d: Self)
        ensures
            d.frame() == uniform_frame(false),
            d.sent_frame() == uniform_frame(false),
            !d.flushed_once(),
    {
        let d = SharpDisplay {
            framebuffer: [0xffu8; FRAMEBUFFER_SIZE],
            last_framebuffer: [0xffu8; FRAMEBUFFER_SIZE],
            flushed_once: false,
        };
        assert(d.framebuffer@ =~= uniform_frame(false));
        assert(d.last_framebuffer@ =~= uniform_frame(false));
        d
    }

    /// Panel size in pixels.
    pub fn size(&self) -> (r: (u32, u32))
        ensures
            r == (160u32, 68u32),
    {
        (WIDTH as u32, HEIGHT as u32)
    }

    /// Draws one pixel; pixels outside the panel are ignored.
    pub fn draw_pixel(&mut self, x: i32, y: i32, on: bool)
        ensures
            final(self).frame() == paint_pixel(old(self).frame(), x as int, y as int, on),
            final(self).frame().len() == FRAMEBUFFER_SIZE,
            forall|px: int, py: int| #![trigger pixel_on(final(self).frame(), px, py)]
                in_bounds(px, py) ==> pixel_on(final(self).frame(), px, py) == (if px == x && py == y {
                    on
                } else {
                    pixel_on(old(self).frame(), px, py)
                }),
            final(self).sent_frame() == old(self).sent_frame(),
            final(self).flushed_once() == old(self).flushed_once(),
    {
        proof {
            assert forall|px: int, py: int| #![trigger pixel_on(paint_pixel(self.frame(), x as int, y as int, on), px, py)]
                in_bounds(px, py) implies pixel_on(paint_pixel(self.frame(), x as int, y as int, on), px, py) == (
            if px == x && py == y {
                on
            } else {
                pixel_on(self.frame(), px, py)
            }) by {
                if in_bounds(x as int, y as int) {
                    lemma_paint_pixel_touches_one_pixel(self.frame(), x as int, y as int, on, px, py);
                }
            }
        }
        if x < 0 || y < 0 || x >= WIDTH as i32 || y >= HEIGHT as i32 {
            return;
        }
        let x = x as usize;
        let index = y as usize * WIDTH_BYTES + x / 8;
        let bit = (x % 8) as u8;
        let mask: u8 = 1u8 << bit;
        if on {
            self.framebuffer[index] = self.framebuffer[index] & !mask;
        } else {
            self.framebuffer[index] = self.framebuffer[index] | mask;
        }
    }

    /// Draws pixels in order.
    pub fn draw_pixels(&mut self, pixels: &[(i32, i32, bool)])
        ensures
            final(self).frame() == paint_pixels(old(self).frame(), pixels@),
            final(self).sent_frame() == old(self).sent_frame(),
            final(self).flushed_once() == old(self).flushed_once(),
    {
        let mut i: usize = 0;
        while i < pixels.len()
            invariant
                i <= pixels@.len(),
                self.frame() == paint_pixels(old(self).frame(), pixels@.take(i as int)),
                self.sent_frame() == old(self).sent_frame(),
                self.flushed_once() == old(self).flushed_once(),
            decreases pixels@.len() - i,
        {
            let (x, y, on) = pixels[i];
            proof {
                assert(pixels@.take(i as int + 1).drop_last() =~= pixels@.take(i as int));
            }
            self.draw_pixel(x, y, on);
            i = i + 1;
        }
        proof {
            assert(pixels@.take(i as int) =~= pixels@);
        }
    }

    /// Fills the whole frame with one colour.
    pub fn clear(&mut self, on: bool)
        ensures
            final(self).frame() == uniform_frame(on),
            final(self).sent_frame() == old(self).sent_frame(),
            final(self).flushed_once() == old(self).flushed_once(),
    {
        let byte: u8 = if on {
            0x00
        } else {
            0xff
        };
        let mut i: usize = 0;
        while i < FRAMEBUFFER_SIZE
            invariant
                i <= FRAMEBUFFER_SIZE,
                self.framebuffer@.len() == FRAMEBUFFER_SIZE,
                forall|j: int| 0 <= j < i ==> self.framebuffer@[j] == byte,
                self.sent_frame() == old(self).sent_frame(),
                self.flushed_once() == old(self).flushed_once(),
            decreases FRAMEBUFFER_SIZE - i,
        {
            self.framebuffer[i] = byte;
            i = i + 1;
        }
        assert(self.framebuffer@ =~= uniform_frame(on));
    }

    /// Whether the frame differs from the one last sent.
    fn frame_changed(&self) -> (r: bool)
        ensures
            r == (self.frame() != self.sent_frame()),
    {
        let mut i: usize = 0;
        while i < FRAMEBUFFER_SIZE
            invariant
                i <= FRAMEBUFFER_SIZE,
                self.framebuffer@.len() == FRAMEBUFFER_SIZE,
                self.last_framebuffer@.len() == FRAMEBUFFER_SIZE,
                forall|j: int| 0 <= j < i ==> self.framebuffer@[j] == self.last_framebuffer@[j],
            decreases FRAMEBUFFER_SIZE - i,
        {
            if self.framebuffer[i] != self.last_framebuffer[i] {
                return true;
            }
            i = i + 1;
        }
        assert(self.framebuffer@ =~= self.last_framebuffer@);
        false
    }

    /// Decides whether a flush has to send the frame: always the first time,
    /// afterwards only when the frame changed since it was last sent.  When it
    /// has to, the frame is recorded as sent.
    pub fn begin_flush(&mut self) -> (send: bool)
        ensures
            send == (!old(self).flushed_once() || old(self).frame() != old(self).sent_frame()),
            final(self).frame() == old(self).frame(),
            send ==> final(self).sent_frame() == old(self).frame() && final(self).flushed_once(),
            !send ==> final(self).sent_frame() == old(self).sent_frame() && final(self).flushed_once()
                == old(self).flushed_once(),
    {
        if self.flushed_once && !self.frame_changed() {
            return false;
        }
        self.last_framebuffer = self.framebuffer;
        self.flushed_once = true;
        true
    }

    /// Line `y` of the frame as sent to the panel: the 1-based line number,
    /// the line's 20 bytes, and a dummy byte.
    pub fn frame_line(&self, y: usize) -> (line: [u8; LINE_LENGTH])
        requires
            y < HEIGHT,
        ensures
            line@ == seq![(y + 1) as u8] + self.frame().subrange(y * WIDTH_BYTES, (y + 1) * WIDTH_BYTES)
                + seq![0u8],
    {
        let mut line = [0u8; LINE_LENGTH];
        line[0] = (y + 1) as u8;
        let mut i: usize = 0;
        while i < WIDTH_BYTES
            invariant
                y < HEIGHT,
                i <= WIDTH_BYTES,
                self.framebuffer@.len() == FRAMEBUFFER_SIZE,
                line@.len() == LINE_LENGTH,
                line@[0] == (y + 1) as u8,
                line@[LINE_LENGTH - 1] == 0u8,
                line@.subrange(1, 1 + i as int) =~= self.framebuffer@.subrange(
                    y * WIDTH_BYTES as int,
                    y * WIDTH_BYTES + i as int,
                ),
            decreases WIDTH_BYTES - i,
        {
            line[1 + i] = self.framebuffer[y * WIDTH_BYTES + i];
            i = i + 1;
        }
        assert(line@ =~= seq![(y + 1) as u8] + self.frame().subrange(y * WIDTH_BYTES, (y + 1) * WIDTH_BYTES)
            + seq![0u8]);
        line
    }
}

/// VCOM polarity of the panel bus; the panel needs it inverted periodically.
pub struct SharpBus {
    vcom_high: bool,
}

impl SharpBus {
    pub closed spec fn vcom_high(self) -> bool {
        self.vcom_high
    }

    pub fn new() -> (b: Self)
        ensures
            !b.vcom_high(),
    {
        SharpBus { vcom_high: false }
    }

    /// Inverts VCOM and returns the VCOM bit for the new polarity.
    pub fn toggle_vcom(&mut self) -> (bit: u8)
        ensures
            final(self).vcom_high() == !old(self).vcom_high(),
            bit == (if final(self).vcom_high() { VCOM_BIT } else { 0u8 }),
    {
        self.vcom_high = !self.vcom_high;
        if self.vcom_high {
            VCOM_BIT
        } else {
            0
        }
    }

    /// The command byte that starts a frame write, with VCOM inverted.
    pub fn write_command(&mut self) -> (command: u8)
        ensures
            final(self).vcom_high() == !old(self).vcom_high(),
            command == (if final(self).vcom_high() { WRITE_COMMAND | VCOM_BIT } else { WRITE_COMMAND }),
    {
        let bit = self.toggle_vcom();
        proof {
            assert(WRITE_COMMAND | VCOM_BIT == 0x03u8) by (bit_vector);
            assert(WRITE_COMMAND | 0u8 == WRITE_COMMAND) by (bit_vector);
        }
        WRITE_COMMAND | bit
    }

    /// The two bytes of a VCOM inversion, with VCOM inverted.
    pub fn invert_vcom_command(&mut self) -> (command: [u8; 2])
        ensures
            final(self).vcom_high() == !old(self).vcom_high(),
            command@ == seq![if final(self).vcom_high() { VCOM_BIT } else { 0u8 }, 0u8],
    {
        let bit = self.toggle_vcom();
        let command = [bit, 0];
        assert(command@ =~= seq![bit, 0u8]);
        command
    }
}

/// The two bytes that clear the panel.
pub fn clear_command() -> (command: [u8; 2])
    ensures
        command@ == seq![CLEAR_COMMAND, 0u8],
{
    let command = [CLEAR_COMMAND, 0];
    assert(command@ =~= seq![CLEAR_COMMAND, 0u8]);
    command
}

// ---------------------------------------------------------------------------
// Laws
// ---------------------------------------------------------------------------

proof fn lemma_paint_byte_bits(b: u8, bit: u8, k: u8, on: bool)
    requires
        bit < 8,
        k < 8,
    ensures
        ((paint_byte(b, bit, on) >> k) & 1u8 == 0u8) == (if k == bit { on } else { (b >> k) & 1u8 == 0u8 }),
{
    if on {
        assert(((b & !(1u8 << bit)) >> k) & 1u8 == (if k == bit { 0u8 } else { (b >> k) & 1u8 }))
            by (bit_vector)
            requires
                bit < 8,
                k < 8,
        ;
    } else {
        assert(((b | (1u8 << bit)) >> k) & 1u8 == (if k == bit { 1u8 } else { (b >> k) & 1u8 }))
            by (bit_vector)
            requires
                bit < 8,
                k < 8,
        ;
    }
}

/// Drawing a pixel on the panel sets exactly that pixel and leaves every
/// other pixel as it was.
pub proof fn lemma_paint_pixel_touches_one_pixel(fb: Seq<u8>, x: int, y: int, on: bool, px: int, py: int)
    requires
        fb.len() == FRAMEBUFFER_SIZE,
        in_bounds(x, y),
        in_bounds(px, py),
    ensures
        paint_pixel(fb, x, y, on).len() == FRAMEBUFFER_SIZE,
        pixel_on(paint_pixel(fb, x, y, on), px, py) == (if px == x && py == y {
            on
        } else {
            pixel_on(fb, px, py)
        }),
{
    let i = pixel_index(x, y);
    let j = pixel_index(px, py);
    assert(0 <= i < FRAMEBUFFER_SIZE);
    assert(0 <= j < FRAMEBUFFER_SIZE);
    let g = paint_pixel(fb, x, y, on);
    if j == i {
        assert(py == y && px / 8 == x / 8);
        lemma_paint_byte_bits(fb[i], pixel_bit(x), pixel_bit(px), on);
        if px != x {
            assert(pixel_bit(px) != pixel_bit(x));
        }
    } else {
        assert(g[j] == fb[j]);
    }
}

/// Pixels outside the panel leave the frame unchanged.
pub proof fn lemma_paint_outside_is_ignored(fb: Seq<u8>, x: int, y: int, on: bool)
    requires
        !in_bounds(x, y),
    ensures
        paint_pixel(fb, x, y, on) == fb,
{
}

/// After clearing, every pixel has the clearing colour.
pub proof fn lemma_uniform_frame_pixels(on: bool, x: int, y: int)
    requires
        in_bounds(x, y),
    ensures
        pixel_on(uniform_frame(on), x, y) == on,
{
    let b = uniform_frame(on)[pixel_index(x, y)];
    let k = pixel_bit(x);
    assert((0x00u8 >> k) & 1u8 == 0u8) by (bit_vector)
        requires
            k < 8,
    ;
    assert((0xffu8 >> k) & 1u8 == 1u8) by (bit_vector)
        requires
            k < 8,
    ;
}

// ---------------------------------------------------------------------------
// Status screen
// ---------------------------------------------------------------------------

/// Whether `(px, py)` lies in the `w` x `h` rectangle whose top-left corner is `(left, top)`.
pub open spec fn in_rect(left: int, top: int, w: int, h: int, px: int, py: int) -> bool {
    left <= px < left + w && top <= py < top + h
}

/// Whether `(px, py)` lies on the outline of width `s` centred on the border
/// of the `w` x `h` rectangle at `(x, y)`: `s / 2` outside it, `(s + 1) / 2` inside.
pub open spec fn on_centred_outline(x: int, y: int, w: int, h: int, s: int, px: int, py: int) -> bool {
    &&& in_rect(x - s / 2, y - s / 2, w + 2 * (s / 2), h + 2 * (s / 2), px, py)
    &&& !in_rect(x + (s + 1) / 2, y + (s + 1) / 2, w - 2 * ((s + 1) / 2), h - 2 * ((s + 1) / 2), px, py)
}

/// A non-empty rectangle with coordinates and stroke far from `i32` overflow.
pub open spec fn moderate_rect(x: int, y: int, w: int, h: int, s: int) -> bool {
    &&& -0x10_0000 <= x <= 0x10_0000
    &&& -0x10_0000 <= y <= 0x10_0000
    &&& 1 <= w <= 0x10_0000
    &&& 1 <= h <= 0x10_0000
    &&& 0 <= s <= 0x10_0000
}

/// The pixels, in drawing order, of a rectangle outlined in the dark colour
/// with a stroke of the given width, as embedded-graphics generates them.
pub uninterp spec fn stroked_rectangle_pixels(x: i32, y: i32, w: u32, h: u32, stroke_width: u32) -> Seq<(i32, i32, bool)>;

/// The pixels, in drawing order, of a rectangle filled with the dark colour,
/// as embedded-graphics generates them.
pub uninterp spec fn filled_rectangle_pixels(x: i32, y: i32, w: u32, h: u32) -> Seq<(i32, i32, bool)>;

/// Pixels of `Rectangle::new((x, y), (w, h))` styled with
/// `PrimitiveStyle::with_stroke(BinaryColor::On, stroke_width)`, from
/// embedded-graphics' `Styled::pixels`, for a non-empty rectangle away from
/// overflow (the rectangle arithmetic there is unchecked).  Claimed: every
/// pixel is dark, and a position occurs exactly when it lies on the centred
/// outline (embedded-graphics' default stroke alignment).  The order of the
/// pixels is left to the name.
#[verifier::external_body]
fn stroked_rectangle(x: i32, y: i32, w: u32, h: u32, stroke_width: u32) -> (pixels: Vec<(i32, i32, bool)>)
    requires
        moderate_rect(x as int, y as int, w as int, h as int, stroke_width as int),
    ensures
        pixels@ == stroked_rectangle_pixels(x, y, w, h, stroke_width),
        forall|i: int| 0 <= i < pixels@.len() ==> (#[trigger] pixels@[i]).2,
        forall|px: i32, py: i32|
            (exists|i: int| 0 <= i < pixels@.len() && #[trigger] pixels@[i] == (px, py, true))
                <==> on_centred_outline(x as int, y as int, w as int, h as int, stroke_width as int, px as int, py as int),
{
    Styled::new(
        Rectangle::new(Point::new(x, y), Size::new(w, h)),
        PrimitiveStyle::with_stroke(BinaryColor::On, stroke_width),
    ).pixels().map(|p| (p.0.x, p.0.y, p.1.is_on())).collect()
}

/// Pixels of `Rectangle::new((x, y), (w, h))` styled with
/// `PrimitiveStyle::with_fill(BinaryColor::On)`, from embedded-graphics'
/// `Styled::pixels`, for a non-empty rectangle away from overflow.  Claimed:
/// every pixel is dark, and a position occurs exactly when it lies in the
/// rectangle.  The order of the pixels is left to the name.
#[verifier::external_body]
fn filled_rectangle(x: i32, y: i32, w: u32, h: u32) -> (pixels: Vec<(i32, i32, bool)>)
    requires
        moderate_rect(x as int, y as int, w as int, h as int, 0),
    ensures
        pixels@ == filled_rectangle_pixels(x, y, w, h),
        forall|i: int| 0 <= i < pixels@.len() ==> (#[trigger] pixels@[i]).2,
        forall|px: i32, py: i32|
            (exists|i: int| 0 <= i < pixels@.len() && #[trigger] pixels@[i] == (px, py, true))
                <==> in_rect(x as int, y as int, w as int, h as int, px as int, py as int),
{
    Styled::new(
        Rectangle::new(Point::new(x, y), Size::new(w, h)),
        PrimitiveStyle::with_fill(BinaryColor::On),
    ).pixels().map(|p| (p.0.x, p.0.y, p.1.is_on())).collect()
}

/// The pixels of the status screen, drawn over a light background: a battery
/// outline, its terminal, and its charge bar.
pub open spec fn status_screen() -> Seq<(i32, i32, bool)> {
    stroked_rectangle_pixels(34, 16, 80, 36, 4) + filled_rectangle_pixels(114, 27, 10, 14)
        + filled_rectangle_pixels(42, 24, 32, 20)
}

/// Where the status screen is dark: on the battery outline, its terminal, or its charge bar.
pub open spec fn status_shape(px: int, py: int) -> bool {
    ||| on_centred_outline(34, 16, 80, 36, 4, px, py)
    ||| in_rect(114, 27, 10, 14, px, py)
    ||| in_rect(42, 24, 32, 20, px, py)
}

pub open spec fn lists_dark_pixel(pixels: Seq<(i32, i32, bool)>, px: i32, py: i32) -> bool {
    exists|i: int| 0 <= i < pixels.len() && #[trigger] pixels[i] == (px, py, true)
}

/// The status screen's pixels, in drawing order.
pub fn status_screen_pixels() -> (pixels: Vec<(i32, i32, bool)>)
    ensures
        pixels@ == status_screen(),
        forall|i: int| 0 <= i < pixels@.len() ==> (#[trigger] pixels@[i]).2,
        forall|px: i32, py: i32| lists_dark_pixel(pixels@, px, py) <==> status_shape(px as int, py as int),
{
    let mut pixels = stroked_rectangle(34, 16, 80, 36, 4);
    let mut terminal = filled_rectangle(114, 27, 10, 14);
    let mut charge = filled_rectangle(42, 24, 32, 20);
    let ghost a = pixels@;
    let ghost b = terminal@;
    let ghost c = charge@;
    pixels.append(&mut terminal);
    pixels.append(&mut charge);
    proof {
        let all = a + b + c;
        assert(pixels@ =~= all);
        assert forall|i: int| 0 <= i < all.len() implies (#[trigger] all[i]).2 by {
            if i < a.len() {
                assert(all[i] == a[i]);
            } else if i < a.len() + b.len() {
                assert(all[i] == b[i - a.len()]);
            } else {
                assert(all[i] == c[i - a.len() - b.len()]);
            }
        }
        assert forall|px: i32, py: i32| lists_dark_pixel(all, px, py) <==> status_shape(px as int, py as int) by {
            if lists_dark_pixel(all, px, py) {
                let i = choose|i: int| 0 <= i < all.len() && #[trigger] all[i] == (px, py, true);
                if i < a.len() {
                    assert(a[i] == (px, py, true));
                } else if i < a.len() + b.len() {
                    assert(b[i - a.len()] == (px, py, true));
                } else {
                    assert(c[i - a.len() - b.len()] == (px, py, true));
                }
            }
            if status_shape(px as int, py as int) {
                if on_centred_outline(34, 16, 80, 36, 4, px as int, py as int) {
                    let i = choose|i: int| 0 <= i < a.len() && #[trigger] a[i] == (px, py, true);
                    assert(all[i] == a[i]);
                } else if in_rect(114, 27, 10, 14, px as int, py as int) {
                    let i = choose|i: int| 0 <= i < b.len() && #[trigger] b[i] == (px, py, true);
                    assert(all[a.len() + i] == b[i]);
                } else {
                    let i = choose|i: int| 0 <= i < c.len() && #[trigger] c[i] == (px, py, true);
                    assert(all[a.len() + b.len() + i] == c[i]);
                }
            }
        }
    }
    pixels
}

/// Painting dark pixels onto a frame darkens exactly the listed positions
/// that lie on the panel and leaves every other pixel as it was.
pub proof fn lemma_paint_dark_pixels(fb: Seq<u8>, pixels: Seq<(i32, i32, bool)>, px: i32, py: i32)
    requires
        fb.len() == FRAMEBUFFER_SIZE,
        forall|i: int| 0 <= i < pixels.len() ==> (#[trigger] pixels[i]).2,
        in_bounds(px as int, py as int),
    ensures
        paint_pixels(fb, pixels).len() == FRAMEBUFFER_SIZE,
        pixel_on(paint_pixels(fb, pixels), px as int, py as int) == (pixel_on(fb, px as int, py as int)
            || lists_dark_pixel(pixels, px, py)),
    decreases pixels.len(),
{
    if pixels.len() > 0 {
        let rest = pixels.drop_last();
        assert forall|i: int| 0 <= i < rest.len() implies (#[trigger] rest[i]).2 by {
            assert(rest[i] == pixels[i]);
        }
        lemma_paint_dark_pixels(fb, rest, px, py);
        let p = pixels.last();
        let before = paint_pixels(fb, rest);
        assert(p == pixels[pixels.len() - 1]);
        if in_bounds(p.0 as int, p.1 as int) {
            lemma_paint_pixel_touches_one_pixel(before, p.0 as int, p.1 as int, p.2, px as int, py as int);
        }
        if lists_dark_pixel(rest, px, py) {
            let i = choose|i: int| 0 <= i < rest.len() && #[trigger] rest[i] == (px, py, true);
            assert(pixels[i] == rest[i]);
        }
        if lists_dark_pixel(pixels, px, py) && !lists_dark_pixel(rest, px, py) {
            let i = choose|i: int| 0 <= i < pixels.len() && #[trigger] pixels[i] == (px, py, true);
            if i < rest.len() {
                assert(rest[i] == pixels[i]);
            }
            assert(p == (px, py, true));
        }
    }
}

impl SharpDisplay {
    /// Renders the status screen: a light background, then the status
    /// pixels; a pixel ends up dark exactly where [`status_shape`] holds.
    pub fn render_status(&mut self)
        ensures
            final(self).frame() == paint_pixels(uniform_frame(false), status_screen()),
            forall|px: i32, py: i32| #![trigger pixel_on(final(self).frame(), px as int, py as int)]
                in_bounds(px as int, py as int) ==> (pixel_on(final(self).frame(), px as int, py as int)
                    <==> status_shape(px as int, py as int)),
            final(self).sent_frame() == old(self).sent_frame(),
            final(self).flushed_once() == old(self).flushed_once(),
    {
        self.clear(false);
        let pixels = status_screen_pixels();
        self.draw_pixels(pixels.as_slice());
        proof {
            assert forall|px: i32, py: i32| #![trigger pixel_on(self.frame(), px as int, py as int)]
                in_bounds(px as int, py as int) implies (pixel_on(self.frame(), px as int, py as int)
                    <==> status_shape(px as int, py as int)) by {
                lemma_uniform_frame_pixels(false, px as int, py as int);
                lemma_paint_dark_pixels(uniform_frame(false), pixels@, px, py);
            }
        }
    }
}

} // verus!
