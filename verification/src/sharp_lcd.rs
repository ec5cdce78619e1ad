//! The Sharp memory LCD: framebuffer, SPI frame contents and the status screen's shapes.
//!
//! The panel is 160 x 68 physical pixels, mounted rotated: logical `(x, y)` of the 68 x 160
//! status screen is physical `(159 - y, x)`. Its data is active-low (1 is white). A frame
//! write sends the command byte (with the VCOM bit), then `[line number, 20 bytes]` for each
//! line to write, then a trailing zero byte.
use vstd::prelude::*;
use crate::lcd_dirty_lines::{line, line_is_dirty, should_write_line};

verus! {

pub const WIDTH: usize = 160;
pub const WIDTH_BYTES: usize = 20;
pub const HEIGHT: usize = 68;
pub const FRAMEBUFFER_SIZE: usize = 1360;
pub const LOGICAL_WIDTH: usize = 68;
pub const LOGICAL_HEIGHT: usize = 160;
/// Bytes per row of the base image (68 pixels, one bit each, least significant first).
pub const BASE_ROW_BYTES: usize = 9;
pub const WRITE_COMMAND: u8 = 0x01;
pub const VCOM_BIT: u8 = 0x02;
pub const CLEAR_COMMAND: u8 = 0x04;

/// Framebuffer byte of logical pixel `(x, y)`.
pub open spec fn pixel_index(x: int, y: int) -> int {
    x * WIDTH_BYTES + (LOGICAL_HEIGHT - 1 - y) / 8
}

/// Bit of logical pixel `(x, y)` within its framebuffer byte.
pub open spec fn pixel_mask(y: int) -> u8 {
    (1u8 << (((LOGICAL_HEIGHT - 1 - y) % 8) as u8)) as u8
}

pub open spec fn on_screen(x: int, y: int) -> bool {
    0 <= x < LOGICAL_WIDTH && 0 <= y < LOGICAL_HEIGHT
}

/// The framebuffer after drawing logical pixel `(x, y)` black (`on`) or white.
pub open spec fn drawn(fb: Seq<u8>, x: int, y: int, on: bool) -> Seq<u8> {
    if !on_screen(x, y) {
        fb
    } else {
        let i = pixel_index(x, y);
        fb.update(i, if on { fb[i] & !pixel_mask(y) } else { fb[i] | pixel_mask(y) })
    }
}

/// The framebuffer of the display and the last flushed frame.
pub struct SharpDisplay {
    framebuffer: Vec<u8>,
    last_framebuffer: Vec<u8>,
    flushed_once: bool,
}

impl SharpDisplay {
    pub closed spec fn frame(&self) -> Seq<u8> {
        self.framebuffer@
    }

    pub closed spec fn last_frame(&self) -> Seq<u8> {
        self.last_framebuffer@
    }

    pub closed spec fn flushed(&self) -> bool {
        self.flushed_once
    }

    /// The frame a flush compares with: the last one written, once there is one.
    pub closed spec fn previous_frame(&self) -> Option<Seq<u8>> {
        if self.flushed_once {
            Some(self.last_framebuffer@)
        } else {
            None
        }
    }

    pub closed spec fn wf(&self) -> bool {
        self.framebuffer@.len() == FRAMEBUFFER_SIZE && self.last_framebuffer@.len() == FRAMEBUFFER_SIZE
    }

    /// A white screen, never flushed.
    pub fn new() -> (r: Self)
        ensures
            r.wf(),
            r.frame() == Seq::new(FRAMEBUFFER_SIZE as nat, |i: int| 0xffu8),
            !r.flushed(),
    {
        let framebuffer = filled(0xff);
        let last_framebuffer = filled(0xff);
        SharpDisplay { framebuffer, last_framebuffer, flushed_once: false }
    }

    /// The logical size of the screen.
    pub fn size(&self) -> (r: (u32, u32))
        ensures
            r == (LOGICAL_WIDTH as u32, LOGICAL_HEIGHT as u32),
    {
        (LOGICAL_WIDTH as u32, LOGICAL_HEIGHT as u32)
    }

    /// Draws logical pixel `(x, y)`; pixels off the screen are ignored.
    pub fn draw_pixel(&mut self, x: i32, y: i32, on: bool)
        requires
            old(self).wf(),
        ensures
            final(self).wf(),
            final(self).frame() == drawn(old(self).frame(), x as int, y as int, on),
            final(self).last_frame() == old(self).last_frame(),
            final(self).flushed() == old(self).flushed(),
    {
        if x < 0 || y < 0 || x >= LOGICAL_WIDTH as i32 || y >= LOGICAL_HEIGHT as i32 {
            return;
        }
        let physical_x = LOGICAL_HEIGHT - 1 - y as usize;
        let physical_y = x as usize;
        let index = physical_y * WIDTH_BYTES + physical_x / 8;
        let mask: u8 = 1u8 << ((physical_x % 8) as u8);
        proof {
            assert(index < FRAMEBUFFER_SIZE) by (nonlinear_arith)
                requires
                    physical_y < 68,
                    physical_x < 160,
                    index == physical_y * 20 + physical_x / 8;
            assert(mask == pixel_mask(y as int));
        }
        let byte = self.framebuffer[index];
        let value = if on { byte & !mask } else { byte | mask };
        self.framebuffer.set(index, value);
    }

    /// Fills the screen black (`on`) or white.
    pub fn clear(&mut self, on: bool)
        requires
            old(self).wf(),
        ensures
            final(self).wf(),
            final(self).frame() == Seq::new(FRAMEBUFFER_SIZE as nat, |i: int| if on { 0u8 } else { 0xffu8 }),
            final(self).last_frame() == old(self).last_frame(),
            final(self).flushed() == old(self).flushed(),
    {
        self.framebuffer = filled(if on { 0x00 } else { 0xff });
    }

    /// Whether a flush has anything to write: always the first time, later only after a change.
    pub fn needs_flush(&self) -> (r: bool)
        requires
            self.wf(),
        ensures
            r == !(self.flushed() && self.frame() == self.last_frame()),
    {
        if !self.flushed_once {
            return true;
        }
        let mut i: usize = 0;
        while i < FRAMEBUFFER_SIZE
            invariant
                self.wf(),
                i <= FRAMEBUFFER_SIZE,
                forall|k: int| 0 <= k < i ==> self.framebuffer@[k] == self.last_framebuffer@[k],
            decreases FRAMEBUFFER_SIZE - i,
        {
            if self.framebuffer[i] != self.last_framebuffer[i] {
                return true;
            }
            i = i + 1;
        }
        proof {
            assert(self.framebuffer@ =~= self.last_framebuffer@);
        }
        false
    }

    /// The physical lines a flush writes, in order: every line the first time, later the
    /// lines that changed.
    pub fn dirty_lines(&self) -> (r: Vec<usize>)
        requires
            self.wf(),
        ensures
            forall|i: int| 0 <= i < r@.len() ==> #[trigger] r@[i] < HEIGHT,
            forall|i: int, j: int| 0 <= i < j < r@.len() ==> r@[i] < r@[j],
            forall|y: int|
                0 <= y < HEIGHT ==> (r@.contains(y as usize) <==> #[trigger] line_is_dirty(
                    self.frame(),
                    self.previous_frame(),
                    WIDTH_BYTES as int,
                    y,
                )),
    {
        let previous: Option<&[u8]> = if self.flushed_once { Some(self.last_framebuffer.as_slice()) } else { None };
        let ghost prev = if self.flushed_once { Some(self.last_framebuffer@) } else { None::<Seq<u8>> };
        let mut r: Vec<usize> = Vec::new();
        let mut y: usize = 0;
        while y < HEIGHT
            invariant
                self.wf(),
                y <= HEIGHT,
                prev == self.previous_frame(),
                match previous {
                    Some(p) => prev == Some(p@),
                    None => prev is None,
                },
                forall|i: int| 0 <= i < r@.len() ==> #[trigger] r@[i] < y,
                forall|i: int, j: int| 0 <= i < j < r@.len() ==> r@[i] < r@[j],
                forall|z: int|
                    0 <= z < y ==> (r@.contains(z as usize) <==> #[trigger] line_is_dirty(
                        self.frame(),
                        prev,
                        WIDTH_BYTES as int,
                        z,
                    )),
            decreases HEIGHT - y,
        {
            proof {
                assert((y + 1) * WIDTH_BYTES <= FRAMEBUFFER_SIZE) by (nonlinear_arith)
                    requires
                        y < 68;
            }
            let dirty = should_write_line(self.framebuffer.as_slice(), previous, WIDTH_BYTES, y);
            let ghost before = r@;
            if dirty {
                r.push(y);
            }
            proof {
                assert forall|z: int| 0 <= z < y + 1 implies (r@.contains(z as usize) <==> #[trigger] line_is_dirty(
                    self.frame(),
                    prev,
                    WIDTH_BYTES as int,
                    z,
                )) by {
                    if z < y {
                        if r@.contains(z as usize) {
                            let k = choose|k: int| 0 <= k < r@.len() && r@[k] == z as usize;
                            if k == before.len() {
                                assert(r@[k] == y);
                            }
                            assert(before[k] == z as usize);
                        }
                        if before.contains(z as usize) {
                            let k = choose|k: int| 0 <= k < before.len() && before[k] == z as usize;
                            assert(r@[k] == z as usize);
                        }
                    } else {
                        if dirty {
                            assert(r@[before.len() as int] == y);
                        } else {
                            if r@.contains(z as usize) {
                                let k = choose|k: int| 0 <= k < r@.len() && r@[k] == z as usize;
                                assert(before[k] < y);
                            }
                        }
                    }
                }
            }
            y = y + 1;
        }
        r
    }

    /// The SPI message of physical line `y`: its number (from 1) and its 20 bytes.
    pub fn line_message(&self, y: usize) -> (r: Vec<u8>)
        requires
            self.wf(),
            y < HEIGHT,
        ensures
            r@ == seq![(y + 1) as u8] + line(self.frame(), WIDTH_BYTES as int, y as int),
    {
        let mut r: Vec<u8> = Vec::new();
        r.push((y + 1) as u8);
        let start = y * WIDTH_BYTES;
        proof {
            assert(start + WIDTH_BYTES <= FRAMEBUFFER_SIZE) by (nonlinear_arith)
                requires
                    y < 68,
                    start == y * 20;
        }
        let mut i: usize = 0;
        while i < WIDTH_BYTES
            invariant
                self.wf(),
                start == y * WIDTH_BYTES,
                start + WIDTH_BYTES <= FRAMEBUFFER_SIZE,
                i <= WIDTH_BYTES,
                r@ == seq![(y + 1) as u8] + self.framebuffer@.subrange(start as int, start + i),
            decreases WIDTH_BYTES - i,
        {
            r.push(self.framebuffer[start + i]);
            proof {
                assert(r@ =~= seq![(y + 1) as u8] + self.framebuffer@.subrange(start as int, start + i + 1));
            }
            i = i + 1;
        }
        proof {
            assert((y + 1) * WIDTH_BYTES == start + WIDTH_BYTES) by (nonlinear_arith)
                requires
                    start == y * 20;
        }
        r
    }

    /// The frame was written: it is the new last frame.
    pub fn mark_flushed(&mut self)
        requires
            old(self).wf(),
        ensures
            final(self).wf(),
            final(self).frame() == old(self).frame(),
            final(self).last_frame() == old(self).frame(),
            final(self).flushed(),
    {
        self.last_framebuffer = self.framebuffer.clone();
        proof {
            assert(self.last_framebuffer@ =~= self.framebuffer@);
        }
        self.flushed_once = true;
    }
}

fn filled(byte: u8) -> (r: Vec<u8>)
    ensures
        r@ == Seq::new(FRAMEBUFFER_SIZE as nat, |i: int| byte),
{
    let mut r: Vec<u8> = Vec::new();
    let mut i: usize = 0;
    while i < FRAMEBUFFER_SIZE
        invariant
            i <= FRAMEBUFFER_SIZE,
            r@.len() == i,
            forall|k: int| 0 <= k < i ==> r@[k] == byte,
        decreases FRAMEBUFFER_SIZE - i,
    {
        r.push(byte);
        i = i + 1;
    }
    proof {
        assert(r@ =~= Seq::new(FRAMEBUFFER_SIZE as nat, |i: int| byte));
    }
    r
}

/// The bus's VCOM level, inverted on every frame and periodically.
pub struct SharpBus {
    pub vcom_high: bool,
}

impl SharpBus {
    pub fn new() -> (r: Self)
        ensures
            !r.vcom_high,
    {
        SharpBus { vcom_high: false }
    }

    /// Inverts VCOM; the VCOM bit of the new level.
    pub fn toggle_vcom(&mut self) -> (r: u8)
        ensures
            final(self).vcom_high == !old(self).vcom_high,
            r == if final(self).vcom_high { VCOM_BIT } else { 0 },
    {
        self.vcom_high = !self.vcom_high;
        if self.vcom_high {
            VCOM_BIT
        } else {
            0
        }
    }

    /// The command that starts a frame write (VCOM inverted).
    pub fn write_command(&mut self) -> (r: u8)
        ensures
            final(self).vcom_high == !old(self).vcom_high,
            r == WRITE_COMMAND | (if final(self).vcom_high { VCOM_BIT } else { 0u8 }),
    {
        WRITE_COMMAND | self.toggle_vcom()
    }

    /// The message that only inverts VCOM.
    pub fn invert_vcom(&mut self) -> (r: [u8; 2])
        ensures
            final(self).vcom_high == !old(self).vcom_high,
            r@ == seq![if final(self).vcom_high { VCOM_BIT } else { 0u8 }, 0u8],
    {
        let r = [self.toggle_vcom(), 0];
        proof {
            assert(r@ =~= seq![if self.vcom_high { VCOM_BIT } else { 0u8 }, 0u8]);
        }
        r
    }

    /// The message that clears the panel.
    pub fn clear(&self) -> (r: [u8; 2])
        ensures
            r@ == seq![CLEAR_COMMAND, 0u8],
    {
        let r = [CLEAR_COMMAND, 0];
        proof {
            assert(r@ =~= seq![CLEAR_COMMAND, 0u8]);
        }
        r
    }
}

// ---------------------------------------------------------------------------
// Status screen shapes, as the pixels to draw (position and colour, black when `true`).
// ---------------------------------------------------------------------------

/// Bit rows of the 5 x 5 charging mark, most significant bit leftmost.
pub const CHARGING_MARK: [u8; 5] = [0b00100, 0b01100, 0b11111, 0b00110, 0b01100];
/// Bit rows of the 8 x 8 percent sign, least significant bit leftmost.
pub const PERCENT_SIGN: [u8; 8] = [0x4e, 0x2a, 0x2a, 0x1e, 0xf0, 0xa8, 0xa4, 0xe4];
/// Left edge of the battery percentage text.
pub const BATTERY_TEXT_X: i32 = 24;
/// Advance of one character of the battery font.
pub const FONT_ADVANCE: i32 = 6;

/// A shape of the status screen.
#[derive(Clone, Copy, Debug, PartialEq, Eq, Structural)]
pub enum Shape {
    /// The battery gauge's fill of the given width.
    Fill(i32),
    /// The charging mark over a fill of the given width.
    ChargingMark(i32),
    /// The percent sign with its top left corner at the point.
    Percent(i32, i32),
    /// A rectangle from corner to corner, filled or outlined.
    Rectangle(i32, i32, i32, i32, bool),
}

/// The colour of pixel `(x, y)` in `shape`, `None` outside it.
pub open spec fn shape_pixel(shape: Shape, x: int, y: int) -> Option<bool> {
    match shape {
        Shape::Fill(width) => fill_pixel(width as int, x, y),
        Shape::ChargingMark(width) => charging_mark_pixel(width as int, x, y),
        Shape::Percent(x0, y0) => percent_pixel(x0 as int, y0 as int, x, y),
        Shape::Rectangle(x0, y0, x1, y1, filled) => rectangle_pixel(
            x0 as int,
            y0 as int,
            x1 as int,
            y1 as int,
            filled,
            x,
            y,
        ),
    }
}

/// A rectangle's pixels: all of them when filled, else its border.
pub open spec fn rectangle_pixel(x0: int, y0: int, x1: int, y1: int, filled: bool, x: int, y: int) -> Option<bool> {
    if x0 <= x <= x1 && y0 <= y <= y1 && (filled || x == x0 || x == x1 || y == y0 || y == y1) {
        Some(true)
    } else {
        None
    }
}

fn shape_pixel_at(shape: Shape, x: i32, y: i32) -> (r: Option<bool>)
    ensures
        r == shape_pixel(shape, x as int, y as int),
{
    match shape {
        Shape::Fill(width) => {
            if width > 0 && 4 <= x && x as i64 <= 3 + width as i64 && 6 <= y && y <= 10 {
                Some(true)
            } else {
                None
            }
        },
        Shape::ChargingMark(width) => {
            if 8 <= x && x < 13 && 6 <= y && y < 11 {
                let bits = CHARGING_MARK[(y - 6) as usize];
                if bits & (1u8 << ((4 - (x - 8)) as u8)) != 0 {
                    Some(!(width > 0 && 4 <= x && x as i64 <= 3 + width as i64))
                } else {
                    None
                }
            } else {
                None
            }
        },
        Shape::Percent(x0, y0) => {
            if x0 <= x && (x as i64) < x0 as i64 + 8 && y0 <= y && (y as i64) < y0 as i64 + 8 {
                let bits = PERCENT_SIGN[(y as i64 - y0 as i64) as usize];
                if bits & (1u8 << ((x as i64 - x0 as i64) as u8)) != 0 {
                    Some(true)
                } else {
                    None
                }
            } else {
                None
            }
        },
        Shape::Rectangle(x0, y0, x1, y1, filled) => {
            if x0 <= x && x <= x1 && y0 <= y && y <= y1 && (filled || x == x0 || x == x1 || y == y0 || y == y1) {
                Some(true)
            } else {
                None
            }
        },
    }
}

/// Shapes whose coordinates (the fill's right edge `3 + width`, the percent sign's far
/// corner) are `i32` values.
pub open spec fn shape_in_range(shape: Shape) -> bool {
    match shape {
        Shape::Fill(width) => width <= i32::MAX - 3,
        Shape::ChargingMark(width) => width <= i32::MAX - 3,
        Shape::Percent(x0, y0) => x0 <= i32::MAX - 7 && y0 <= i32::MAX - 7,
        Shape::Rectangle(..) => true,
    }
}

/// `pixels[from..]` are exactly the pixels of `shape` in the box `[x0, x1] x [y0, y1]`.
pub open spec fn lists_box(pixels: Seq<(i32, i32, bool)>, from: int, x0: int, x1: int, y0: int, y1: int, shape: Shape) -> bool {
    &&& forall|i: int|
        from <= i < pixels.len() ==> x0 <= #[trigger] pixels[i].0 <= x1 && y0 <= pixels[i].1 <= y1 && shape_pixel(
            shape,
            pixels[i].0 as int,
            pixels[i].1 as int,
        ) == Some(pixels[i].2)
    &&& forall|x: int, y: int|
        x0 <= x <= x1 && y0 <= y <= y1 && #[trigger] shape_pixel(shape, x, y) is Some ==> exists|i: int|
            from <= i < pixels.len() && #[trigger] pixels[i] == (x as i32, y as i32, shape_pixel(shape, x, y)->0)
}

/// Appends the pixels of `shape` in the box, row by row.
fn scan_box(out: &mut Vec<(i32, i32, bool)>, x0: i32, x1: i32, y0: i32, y1: i32, shape: Shape)
    ensures
        final(out)@.subrange(0, old(out)@.len() as int) == old(out)@,
        lists_box(final(out)@, old(out)@.len() as int, x0 as int, x1 as int, y0 as int, y1 as int, shape),
{
    let ghost start = out@.len() as int;
    let ghost base = out@;
    let mut y: i64 = y0 as i64;
    while y <= y1 as i64
        invariant
            y0 <= y <= y1 + 1 || (y == y0 && y0 > y1),
            start == base.len(),
            start <= out@.len(),
            out@.subrange(0, start) == base,
            lists_box(out@, start, x0 as int, x1 as int, y0 as int, y as int - 1, shape),
        decreases y1 + 1 - y,
    {
        let mut x: i64 = x0 as i64;
        while x <= x1 as i64
            invariant
                y0 <= y <= y1,
                x0 <= x <= x1 + 1 || (x == x0 && x0 > x1),
                start == base.len(),
                start <= out@.len(),
                out@.subrange(0, start) == base,
                forall|i: int|
                    start <= i < out@.len() ==> x0 <= #[trigger] out@[i].0 <= x1 && y0 <= out@[i].1 <= y && shape_pixel(
                        shape,
                        out@[i].0 as int,
                        out@[i].1 as int,
                    ) == Some(out@[i].2),
                forall|px: int, py: int|
                    x0 <= px <= x1 && y0 <= py && (py < y || (py == y && px < x)) && #[trigger] shape_pixel(shape, px, py)
                        is Some ==> exists|i: int|
                        start <= i < out@.len() && #[trigger] out@[i] == (px as i32, py as i32, shape_pixel(shape, px, py)->0),
            decreases x1 + 1 - x,
        {
            let ghost before = out@;
            match shape_pixel_at(shape, x as i32, y as i32) {
                Some(on) => {
                    out.push((x as i32, y as i32, on));
                    proof {
                        assert(out@.subrange(0, start) =~= base) by {
                            assert(before.subrange(0, start) == base);
                        }
                        assert forall|px: int, py: int|
                            x0 <= px <= x1 && y0 <= py && (py < y || (py == y && px < x + 1)) && #[trigger] shape_pixel(
                                shape,
                                px,
                                py,
                            ) is Some implies exists|i: int|
                            start <= i < out@.len() && #[trigger] out@[i] == (px as i32, py as i32, shape_pixel(shape, px, py)->0) by {
                            if py == y && px == x {
                                assert(out@[before.len() as int] == (px as i32, py as i32, shape_pixel(shape, px, py)->0));
                            } else {
                                let i = choose|i: int|
                                    start <= i < before.len() && #[trigger] before[i] == (
                                        px as i32,
                                        py as i32,
                                        shape_pixel(shape, px, py)->0,
                                    );
                                assert(out@[i] == before[i]);
                            }
                        }
                    }
                },
                None => {
                    proof {
                        assert forall|px: int, py: int|
                            x0 <= px <= x1 && y0 <= py && (py < y || (py == y && px < x + 1)) && #[trigger] shape_pixel(
                                shape,
                                px,
                                py,
                            ) is Some implies exists|i: int|
                            start <= i < out@.len() && #[trigger] out@[i] == (px as i32, py as i32, shape_pixel(shape, px, py)->0) by {
                            if py == y && px == x {
                                assert(shape_pixel(shape, px, py) is None);
                            }
                        }
                    }
                },
            }
            x = x + 1;
        }
        y = y + 1;
    }
}

/// Width of the battery gauge's fill: the level out of 13 pixels, rounded.
pub open spec fn fill_width(level: Option<u8>) -> int {
    match level {
        Some(l) => (13 * l + 50) / 100,
        None => 0,
    }
}

pub fn battery_fill_width(level: Option<u8>) -> (r: i32)
    ensures
        r == fill_width(level),
{
    match level {
        Some(l) => ((13 * l as u16 + 50) / 100) as i32,
        None => 0,
    }
}

/// The battery gauge's fill: a filled rectangle from x 4, y 6 to y 10.
pub open spec fn fill_pixel(width: int, x: int, y: int) -> Option<bool> {
    if width > 0 && 4 <= x <= 3 + width && 6 <= y <= 10 {
        Some(true)
    } else {
        None
    }
}

/// The charging mark at x 8, y 6, white where it lies on the gauge's fill.
pub open spec fn charging_mark_pixel(width: int, x: int, y: int) -> Option<bool> {
    if 8 <= x < 13 && 6 <= y < 11 && CHARGING_MARK@[y - 6] & (1u8 << ((4 - (x - 8)) as u8)) != 0 {
        Some(!(width > 0 && 4 <= x <= 3 + width))
    } else {
        None
    }
}

/// The percent sign with its top left corner at `(x0, y0)`.
pub open spec fn percent_pixel(x0: int, y0: int, x: int, y: int) -> Option<bool> {
    if x0 <= x < x0 + 8 && y0 <= y < y0 + 8 && PERCENT_SIGN@[y - y0] & (1u8 << ((x - x0) as u8)) != 0 {
        Some(true)
    } else {
        None
    }
}

/// The pixels of the battery gauge's fill for `level`.
pub fn battery_fill_pixels(level: Option<u8>) -> (r: Vec<(i32, i32, bool)>)
    ensures
        lists_box(r@, 0, 4, 16, 6, 10, Shape::Fill(fill_width(level) as i32)),
{
    let width = battery_fill_width(level);
    let mut r: Vec<(i32, i32, bool)> = Vec::new();
    scan_box(&mut r, 4, 16, 6, 10, Shape::Fill(width));
    r
}

/// The pixels of the charging mark over a fill of `width`.
pub fn charging_mark_pixels(width: i32) -> (r: Vec<(i32, i32, bool)>)
    requires
        width <= i32::MAX - 3,
    ensures
        lists_box(r@, 0, 8, 12, 6, 10, Shape::ChargingMark(width)),
{
    let mut r: Vec<(i32, i32, bool)> = Vec::new();
    scan_box(&mut r, 8, 12, 6, 10, Shape::ChargingMark(width));
    r
}

/// The pixels of the percent sign at `(x0, y0)`.
pub fn percent_pixels(x0: i32, y0: i32) -> (r: Vec<(i32, i32, bool)>)
    requires
        x0 <= i32::MAX - 7,
        y0 <= i32::MAX - 7,
    ensures
        lists_box(r@, 0, x0 as int, x0 + 7, y0 as int, y0 + 7, Shape::Percent(x0, y0)),
{
    let mut r: Vec<(i32, i32, bool)> = Vec::new();
    scan_box(&mut r, x0, x0 + 7, y0, y0 + 7, Shape::Percent(x0, y0));
    r
}

/// The box that holds all pixels of `shape`.
pub open spec fn shape_box(shape: Shape) -> (int, int, int, int) {
    match shape {
        Shape::Fill(_) => (4, 16, 6, 10),
        Shape::ChargingMark(_) => (8, 12, 6, 10),
        Shape::Percent(x0, y0) => (x0 as int, x0 + 7, y0 as int, y0 + 7),
        Shape::Rectangle(x0, y0, x1, y1, _) => (x0 as int, x1 as int, y0 as int, y1 as int),
    }
}

/// The pixels of `shape`.
pub fn shape_pixels(shape: Shape) -> (r: Vec<(i32, i32, bool)>)
    requires
        shape_in_range(shape),
    ensures
        lists_box(r@, 0, shape_box(shape).0, shape_box(shape).1, shape_box(shape).2, shape_box(shape).3, shape),
{
    let mut r: Vec<(i32, i32, bool)> = Vec::new();
    match shape {
        Shape::Fill(_) => scan_box(&mut r, 4, 16, 6, 10, shape),
        Shape::ChargingMark(_) => scan_box(&mut r, 8, 12, 6, 10, shape),
        Shape::Percent(x0, y0) => scan_box(&mut r, x0, x0 + 7, y0, y0 + 7, shape),
        Shape::Rectangle(x0, y0, x1, y1, _) => scan_box(&mut r, x0, x1, y0, y1, shape),
    }
    r
}

/// The three bars of the split-link indicator, filled while the halves are connected.
pub fn split_connection_shapes(connected: bool) -> (r: [Shape; 3])
    ensures
        r@ == seq![
            Shape::Rectangle(52, 9, 55, 12, connected),
            Shape::Rectangle(57, 6, 60, 12, connected),
            Shape::Rectangle(62, 3, 65, 12, connected),
        ],
{
    let r = [
        Shape::Rectangle(52, 9, 55, 12, connected),
        Shape::Rectangle(57, 6, 60, 12, connected),
        Shape::Rectangle(62, 3, 65, 12, connected),
    ];
    proof {
        assert(r@ =~= seq![
            Shape::Rectangle(52, 9, 55, 12, connected),
            Shape::Rectangle(57, 6, 60, 12, connected),
            Shape::Rectangle(62, 3, 65, 12, connected),
        ]);
    }
    r
}

pub open spec fn min_u8(a: u8, b: u8) -> u8 {
    if a < b {
        a
    } else {
        b
    }
}

/// The five profile boxes; the active profile's (at most the fifth) is filled.
pub fn profile_shapes(active_profile: u8) -> (r: [Shape; 5])
    ensures
        forall|p: int|
            0 <= p < 5 ==> #[trigger] r@[p] == Shape::Rectangle(
                (23 + p * 8) as i32,
                148,
                (27 + p * 8) as i32,
                152,
                p == min_u8(active_profile, 4),
            ),
{
    let active = if active_profile < 4 { active_profile } else { 4 };
    let r = [
        Shape::Rectangle(23, 148, 27, 152, active == 0),
        Shape::Rectangle(31, 148, 35, 152, active == 1),
        Shape::Rectangle(39, 148, 43, 152, active == 2),
        Shape::Rectangle(47, 148, 51, 152, active == 3),
        Shape::Rectangle(55, 148, 59, 152, active == 4),
    ];
    r
}

/// The marker of the active layer (at most the fourth): a small arrow at x 4 to 7.
pub fn active_layer_pixels(layer: u8) -> (r: Vec<(i32, i32, bool)>)
    ensures
        ({
            let y = (65 + min_u8(layer, 3) * 13) as i32;
            r@ == seq![
                (4i32, y, true),
                (5i32, (y + 1) as i32, true),
                (6i32, (y + 1) as i32, true),
                (7i32, (y + 2) as i32, true),
                (6i32, (y + 3) as i32, true),
                (5i32, (y + 3) as i32, true),
                (4i32, (y + 4) as i32, true),
            ]
        }),
{
    let y = 65 + (if layer < 3 { layer } else { 3 }) as i32 * 13;
    let mut r: Vec<(i32, i32, bool)> = Vec::new();
    r.push((4, y, true));
    r.push((5, y + 1, true));
    r.push((6, y + 1, true));
    r.push((7, y + 2, true));
    r.push((6, y + 3, true));
    r.push((5, y + 3, true));
    r.push((4, y + 4, true));
    proof {
        let yy = (65 + min_u8(layer, 3) * 13) as i32;
        assert(y == yy);
        assert(r@ =~= seq![
            (4i32, yy, true),
            (5i32, (yy + 1) as i32, true),
            (6i32, (yy + 1) as i32, true),
            (7i32, (yy + 2) as i32, true),
            (6i32, (yy + 3) as i32, true),
            (5i32, (yy + 3) as i32, true),
            (4i32, (yy + 4) as i32, true),
        ]);
    }
    r
}

/// The battery percentage as text: `100`, two or one digits, or `--` when unknown. A level
/// above 100 is written as the single byte `'0' + level`, which is no ASCII digit (the text is
/// then not drawn, and the percent sign follows one character in).
pub open spec fn battery_text_spec(level: Option<u8>) -> Seq<u8> {
    match level {
        Some(l) => if l == 100 {
            seq![0x31u8, 0x30u8, 0x30u8]
        } else if 10 <= l <= 99 {
            seq![(0x30 + l / 10) as u8, (0x30 + l % 10) as u8]
        } else {
            seq![(0x30 + l) as u8]
        },
        None => seq![0x2du8, 0x2du8],
    }
}

pub fn battery_text(level: Option<u8>) -> (r: Vec<u8>)
    requires
        level matches Some(l) ==> l <= 0xff - 0x30,
    ensures
        r@ == battery_text_spec(level),
{
    let mut r: Vec<u8> = Vec::new();
    match level {
        Some(100) => {
            r.push(0x31);
            r.push(0x30);
            r.push(0x30);
        },
        Some(l) => {
            if 10 <= l && l <= 99 {
                r.push(0x30 + l / 10);
                r.push(0x30 + l % 10);
            } else {
                r.push(0x30 + l);
            }
        },
        None => {
            r.push(0x2d);
            r.push(0x2d);
        },
    }
    proof {
        assert(r@ =~= battery_text_spec(level));
    }
    r
}

/// Where the percent sign follows the battery text.
pub fn percent_position(level: Option<u8>) -> (r: (i32, i32))
    ensures
        r == ((BATTERY_TEXT_X + battery_text_spec(level).len() * FONT_ADVANCE) as i32, 4i32),
{
    let length: i32 = match level {
        Some(100) => 3,
        Some(l) => if 10 <= l && l <= 99 {
            2
        } else {
            1
        },
        None => 2,
    };
    (BATTERY_TEXT_X + length * FONT_ADVANCE, 4)
}

/// Whether the base image has logical pixel `(x, y)` set.
pub open spec fn base_pixel(base: Seq<u8>, x: int, y: int) -> bool {
    base[y * BASE_ROW_BYTES + x / 8] & (1u8 << ((x % 8) as u8)) != 0
}

/// The pixels of the 68 x 160 base image (one bit per pixel, rows of 9 bytes).
pub fn base_pixels(base: &[u8]) -> (r: Vec<(i32, i32, bool)>)
    requires
        base@.len() == BASE_ROW_BYTES * LOGICAL_HEIGHT,
    ensures
        forall|i: int|
            0 <= i < r@.len() ==> 0 <= #[trigger] r@[i].0 < LOGICAL_WIDTH && 0 <= r@[i].1 < LOGICAL_HEIGHT && r@[i].2
                && base_pixel(base@, r@[i].0 as int, r@[i].1 as int),
        forall|x: int, y: int|
            on_screen(x, y) && #[trigger] base_pixel(base@, x, y) ==> r@.contains((x as i32, y as i32, true)),
{
    let mut r: Vec<(i32, i32, bool)> = Vec::new();
    let mut y: usize = 0;
    while y < LOGICAL_HEIGHT
        invariant
            base@.len() == BASE_ROW_BYTES * LOGICAL_HEIGHT,
            y <= LOGICAL_HEIGHT,
            forall|i: int|
                0 <= i < r@.len() ==> 0 <= #[trigger] r@[i].0 < LOGICAL_WIDTH && 0 <= r@[i].1 < y && r@[i].2
                    && base_pixel(base@, r@[i].0 as int, r@[i].1 as int),
            forall|px: int, py: int|
                on_screen(px, py) && py < y && #[trigger] base_pixel(base@, px, py) ==> r@.contains(
                    (px as i32, py as i32, true),
                ),
        decreases LOGICAL_HEIGHT - y,
    {
        let mut x: usize = 0;
        while x < LOGICAL_WIDTH
            invariant
                base@.len() == BASE_ROW_BYTES * LOGICAL_HEIGHT,
                y < LOGICAL_HEIGHT,
                x <= LOGICAL_WIDTH,
                forall|i: int|
                    0 <= i < r@.len() ==> 0 <= #[trigger] r@[i].0 < LOGICAL_WIDTH && 0 <= r@[i].1 <= y && r@[i].2
                        && base_pixel(base@, r@[i].0 as int, r@[i].1 as int),
                forall|px: int, py: int|
                    on_screen(px, py) && (py < y || (py == y && px < x)) && #[trigger] base_pixel(base@, px, py)
                        ==> r@.contains((px as i32, py as i32, true)),
            decreases LOGICAL_WIDTH - x,
        {
            proof {
                assert(y * BASE_ROW_BYTES + x / 8 < base@.len()) by (nonlinear_arith)
                    requires
                        y < 160,
                        x < 68,
                        base@.len() == 9 * 160;
            }
            let ghost before = r@;
            if base[y * BASE_ROW_BYTES + x / 8] & (1u8 << ((x % 8) as u8)) != 0 {
                r.push((x as i32, y as i32, true));
                proof {
                    assert(r@[before.len() as int] == (x as i32, y as i32, true));
                    assert forall|px: int, py: int|
                        on_screen(px, py) && (py < y || (py == y && px < x + 1)) && #[trigger] base_pixel(
                            base@,
                            px,
                            py,
                        ) implies r@.contains((px as i32, py as i32, true)) by {
                        if !(py == y && px == x) {
                            let k = choose|k: int| 0 <= k < before.len() && before[k] == (px as i32, py as i32, true);
                            assert(r@[k] == before[k]);
                        }
                    }
                }
            }
            x = x + 1;
        }
        y = y + 1;
    }
    r
}

/// The charge state of a battery reading.
#[derive(Clone, Copy, Debug, PartialEq, Eq, Structural)]
pub enum ChargeState {
    Charging,
    Discharging,
    Unknown,
}

/// A battery reading.
#[derive(Clone, Copy, Debug, PartialEq, Eq, Structural)]
pub enum BatteryStatus {
    Unavailable,
    Available { charge_state: ChargeState, level: Option<u8> },
}

/// The level to show: a known level, at most 100.
pub fn battery_level(status: BatteryStatus) -> (r: Option<u8>)
    ensures
        r == match status {
            BatteryStatus::Available { level: Some(l), .. } => Some(min_u8(l, 100)),
            _ => None,
        },
{
    match status {
        BatteryStatus::Available { level: Some(l), .. } => Some(if l < 100 { l } else { 100 }),
        _ => None,
    }
}

pub fn battery_is_charging(status: BatteryStatus) -> (r: bool)
    ensures
        r == (status matches BatteryStatus::Available { charge_state: ChargeState::Charging, .. }),
{
    match status {
        BatteryStatus::Available { charge_state: ChargeState::Charging, .. } => true,
        _ => false,
    }
}

/// What the status screen shows.
#[derive(Clone, Copy, Debug, PartialEq, Eq, Structural)]
pub struct StatusSnapshot {
    pub battery_level: Option<u8>,
    pub battery_charging: bool,
    pub split_connected: bool,
    pub layer: u8,
    pub profile: u8,
}

impl StatusSnapshot {
    /// The snapshot of a keyboard state: the central shows whether its first peripheral is
    /// connected, a peripheral whether the central is; at most the fourth layer and the fifth
    /// profile are shown.
    pub fn from_context(
        battery: BatteryStatus,
        central: bool,
        first_peripheral_connected: Option<bool>,
        central_connected: bool,
        layer: u8,
        profile: u8,
    ) -> (r: Self)
        ensures
            r.battery_level == match battery {
                BatteryStatus::Available { level: Some(l), .. } => Some(min_u8(l, 100)),
                _ => None,
            },
            r.battery_charging == (battery matches BatteryStatus::Available {
                charge_state: ChargeState::Charging,
                ..
            }),
            r.split_connected == if central {
                first_peripheral_connected == Some(true)
            } else {
                central_connected
            },
            r.layer == min_u8(layer, 3),
            r.profile == min_u8(profile, 4),
    {
        StatusSnapshot {
            battery_level: battery_level(battery),
            battery_charging: battery_is_charging(battery),
            split_connected: if central {
                match first_peripheral_connected {
                    Some(c) => c,
                    None => false,
                }
            } else {
                central_connected
            },
            layer: if layer < 3 { layer } else { 3 },
            profile: if profile < 4 { profile } else { 4 },
        }
    }
}

/// The status screen's renderer: redraws only when the snapshot changed.
pub struct ReelStatusRenderer {
    pub central: bool,
    pub last_snapshot: Option<StatusSnapshot>,
}

impl ReelStatusRenderer {
    pub fn new(central: bool) -> (r: Self)
        ensures
            r.central == central,
            r.last_snapshot is None,
    {
        ReelStatusRenderer { central, last_snapshot: None }
    }

    /// Whether `snapshot` must be drawn; it becomes the last one drawn.
    pub fn should_render(&mut self, snapshot: StatusSnapshot) -> (r: bool)
        ensures
            r == (old(self).last_snapshot != Some(snapshot)),
            final(self).last_snapshot == Some(snapshot),
            final(self).central == old(self).central,
    {
        let changed = match self.last_snapshot {
            Some(last) => last != snapshot,
            None => true,
        };
        self.last_snapshot = Some(snapshot);
        changed
    }
}

} // verus!
