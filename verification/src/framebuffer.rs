//! The display's back buffer: where a pixel's bytes lie and what they are.

use vstd::prelude::*;

verus! {

/// A place on the screen, in pixels from the top left corner.
#[derive(Debug, Clone, Copy, PartialEq, Eq, Structural)]
pub struct Position {
    pub x: usize,
    pub y: usize,
}

/// A colour by its red, green and blue parts.
#[derive(Debug, Clone, Copy, PartialEq, Eq, Structural)]
pub struct Color {
    pub red: u8,
    pub green: u8,
    pub blue: u8,
}

/// How a pixel's colour is laid out in memory.
#[derive(Debug, Clone, Copy, PartialEq, Eq, Structural)]
pub enum PixelFormat {
    /// Red, green, blue, one byte each, in four bytes.
    Rgb,
    /// Blue, green, red, one byte each, in four bytes.
    Bgr,
    /// One byte of grey.
    U8,
}

/// The geometry of a frame buffer.
#[derive(Debug, Clone, Copy, PartialEq, Eq, Structural)]
pub struct FrameInfo {
    /// The number of pixels in a line.
    pub width: usize,
    /// The number of lines.
    pub height: usize,
    /// The number of pixels from the start of a line of the front buffer to
    /// the start of the next.
    pub stride: usize,
    /// The number of bytes of a pixel.
    pub bytes_per_pixel: usize,
    /// The layout of a pixel.
    pub pixel_format: PixelFormat,
}

impl Color {
    /// The colour with the given parts.
    pub fn new(red: u8, green: u8, blue: u8) -> (color: Self)
        ensures
            color == (Color { red, green, blue }),
    {
        Color { red, green, blue }
    }

    /// The grey that stands for the colour: a third of each part, summed.
    pub open spec fn gray_value(self) -> int {
        self.red / 3 + self.green / 3 + self.blue / 3
    }

    /// The grey that stands for the colour.
    pub fn gray(self) -> (gray: u8)
        ensures
            gray == self.gray_value(),
    {
        self.red / 3 + self.green / 3 + self.blue / 3
    }

    /// The bytes that one pixel of this colour is drawn with: three for a
    /// colour format, one for grey.
    pub open spec fn pixel_bytes(self, format: PixelFormat) -> Seq<u8> {
        match format {
            PixelFormat::Rgb => seq![self.red, self.green, self.blue],
            PixelFormat::Bgr => seq![self.blue, self.green, self.red],
            PixelFormat::U8 => seq![self.gray_value() as u8],
        }
    }

    /// The bytes that a filled pixel of this colour holds: all the bytes of
    /// the pixel, the fourth of a colour format being zero.
    pub open spec fn fill_bytes(self, format: PixelFormat) -> Seq<u8> {
        match format {
            PixelFormat::Rgb => seq![self.red, self.green, self.blue, 0u8],
            PixelFormat::Bgr => seq![self.blue, self.green, self.red, 0u8],
            PixelFormat::U8 => seq![self.gray_value() as u8],
        }
    }

    /// The byte at `index` of a filled pixel of this colour.
    pub fn fill_byte(self, format: PixelFormat, index: usize) -> (byte: u8)
        requires
            index < self.fill_bytes(format).len(),
        ensures
            byte == self.fill_bytes(format)[index as int],
    {
        match format {
            PixelFormat::Rgb => if index == 0 {
                self.red
            } else if index == 1 {
                self.green
            } else if index == 2 {
                self.blue
            } else {
                0
            },
            PixelFormat::Bgr => if index == 0 {
                self.blue
            } else if index == 1 {
                self.green
            } else if index == 2 {
                self.red
            } else {
                0
            },
            PixelFormat::U8 => self.gray(),
        }
    }
}

impl FrameInfo {
    /// The number of bytes of a line of pixels.
    pub open spec fn line_bytes(self) -> int {
        self.width * self.bytes_per_pixel
    }

    /// The number of bytes of the back buffer.
    pub open spec fn buffer_bytes(self) -> int {
        self.height * self.line_bytes()
    }

    /// The pixel size fits the format, a line of the front buffer has room
    /// for a line of pixels, and the buffers' sizes can be counted.
    pub open spec fn wf(self) -> bool {
        &&& self.bytes_per_pixel == match self.pixel_format {
            PixelFormat::Rgb => 4int,
            PixelFormat::Bgr => 4int,
            PixelFormat::U8 => 1int,
        }
        &&& self.width <= self.stride
        &&& self.stride * self.bytes_per_pixel <= usize::MAX
        &&& self.height * self.stride * self.bytes_per_pixel <= usize::MAX
    }

    /// Where the first byte of the pixel at `x`, `y` lies in the back
    /// buffer.
    pub open spec fn offset(self, x: int, y: int) -> int {
        (y * self.width + x) * self.bytes_per_pixel
    }

    /// Whether the frame has a pixel at `x`, `y`.
    pub open spec fn has_pixel(self, x: int, y: int) -> bool {
        0 <= x < self.width && 0 <= y < self.height
    }
}

/// Every pixel of the frame lies within the back buffer, whole.
pub proof fn lemma_pixel_in_buffer(info: FrameInfo, x: int, y: int)
    requires
        info.wf(),
        info.has_pixel(x, y),
    ensures
        0 <= info.offset(x, y),
        info.offset(x, y) + info.bytes_per_pixel <= info.buffer_bytes(),
        info.buffer_bytes() <= usize::MAX,
        y * info.width + x < info.width * info.height,
{
    let w = info.width as int;
    let h = info.height as int;
    let b = info.bytes_per_pixel as int;
    let s = info.stride as int;
    assert(y * w + x + 1 <= h * w) by (nonlinear_arith)
        requires
            0 <= x < w,
            0 <= y < h,
    ;
    assert((y * w + x) * b + b <= h * (w * b)) by (nonlinear_arith)
        requires
            y * w + x + 1 <= h * w,
            b >= 0,
    ;
    assert(h * (w * b) <= h * s * b) by (nonlinear_arith)
        requires
            0 <= w <= s,
            h >= 0,
            b >= 0,
    ;
    assert(0 <= (y * w + x) * b) by (nonlinear_arith)
        requires
            0 <= x,
            0 <= y,
            0 <= w,
            0 <= b,
    ;
    assert(y * w + x < w * h) by (nonlinear_arith)
        requires
            y * w + x + 1 <= h * w,
    ;
}

/// The byte at `index` of a buffer in which the pixels of the columns from
/// `x0` up to `x1` of the lines from `y0` up to `y1` are filled with `color`,
/// and the other bytes are those of `before`.
pub open spec fn filled_byte(
    info: FrameInfo,
    before: Seq<u8>,
    color: Color,
    x0: int,
    x1: int,
    y0: int,
    y1: int,
    index: int,
) -> u8 {
    let line = index / info.line_bytes();
    let in_line = index % info.line_bytes();
    let column = in_line / (info.bytes_per_pixel as int);
    if y0 <= line < y1 && x0 <= column < x1 {
        color.fill_bytes(info.pixel_format)[in_line % (info.bytes_per_pixel as int)]
    } else {
        before[index]
    }
}

/// The back buffer of a display, in which a picture is composed before it is
/// shown.
pub struct Display {
    info: FrameInfo,
    backbuffer: Vec<u8>,
}

impl Display {
    /// The geometry of the display.
    pub closed spec fn info(&self) -> FrameInfo {
        self.info
    }

    /// The bytes of the back buffer, line after line without gaps.
    pub closed spec fn buffer(&self) -> Seq<u8> {
        self.backbuffer@
    }

    /// The geometry is sound and the back buffer holds every pixel.
    pub open spec fn wf(&self) -> bool {
        &&& self.info().wf()
        &&& self.buffer().len() == self.info().buffer_bytes()
    }

    /// A display of the given geometry, all black.
    pub fn new(info: FrameInfo) -> (display: Self)
        requires
            info.wf(),
        ensures
            display.wf(),
            display.info() == info,
            forall|i: int| 0 <= i < display.buffer().len() ==> display.buffer()[i] == 0,
    {
        proof {
            lemma_sizes(info);
        }
        let size = info.height * (info.width * info.bytes_per_pixel);
        Display { info, backbuffer: vec![0u8; size] }
    }

    /// The geometry of the display.
    pub fn get_info(&self) -> (info: FrameInfo)
        ensures
            info == self.info(),
    {
        self.info
    }

    /// The byte at `index` of the back buffer.
    pub fn byte(&self, index: usize) -> (byte: u8)
        requires
            index < self.buffer().len(),
        ensures
            byte == self.buffer()[index as int],
    {
        self.backbuffer[index]
    }

    /// Draws one pixel. A pixel outside the frame is ignored. Of a pixel in
    /// a colour format the three colour bytes are written and the fourth is
    /// left alone.
    pub fn draw_pixel(&mut self, x: i32, y: i32, color: Color)
        requires
            old(self).wf(),
        ensures
            final(self).wf(),
            final(self).info() == old(self).info(),
            !old(self).info().has_pixel(x as int, y as int) ==> final(self).buffer() == old(
                self,
            ).buffer(),
            old(self).info().has_pixel(x as int, y as int) ==> ({
                let at = old(self).info().offset(x as int, y as int);
                let bytes = color.pixel_bytes(old(self).info().pixel_format);
                &&& 0 <= at
                &&& at + bytes.len() <= old(self).buffer().len()
                &&& final(self).buffer() == old(self).buffer().subrange(0, at) + bytes + old(
                    self,
                ).buffer().subrange(at + bytes.len(), old(self).buffer().len() as int)
            }),
    {
        if x < 0 || y < 0 {
            return ;
        }
        let (x, y) = (x as usize, y as usize);
        if x >= self.info.width || y >= self.info.height {
            return ;
        }
        proof {
            lemma_pixel_in_buffer(self.info, x as int, y as int);
            lemma_sizes(self.info);
            assert(0 <= y * self.info.width <= y * self.info.width + x) by (nonlinear_arith)
                requires
                    0 <= y,
                    0 <= self.info.width,
                    0 <= x,
            ;
        }
        let at = (y * self.info.width + x) * self.info.bytes_per_pixel;
        let ghost bytes = color.pixel_bytes(self.info.pixel_format);
        match self.info.pixel_format {
            PixelFormat::Rgb => {
                self.backbuffer[at] = color.red;
                self.backbuffer[at + 1] = color.green;
                self.backbuffer[at + 2] = color.blue;
            },
            PixelFormat::Bgr => {
                self.backbuffer[at] = color.blue;
                self.backbuffer[at + 1] = color.green;
                self.backbuffer[at + 2] = color.red;
            },
            PixelFormat::U8 => {
                self.backbuffer[at] = color.gray();
            },
        }
        assert(self.buffer() =~= old(self).buffer().subrange(0, at as int) + bytes + old(
            self,
        ).buffer().subrange(at + bytes.len(), old(self).buffer().len() as int));
    }

    /// Fills the pixels of the columns from `x0` up to `x1` of the lines
    /// from `y0` up to `y1` with `color`: see [`filled_byte`].
    pub fn fill_solid(&mut self, x0: usize, x1: usize, y0: usize, y1: usize, color: Color)
        requires
            old(self).wf(),
            x0 <= x1 <= old(self).info().width,
            y0 <= y1 <= old(self).info().height,
        ensures
            final(self).wf(),
            final(self).info() == old(self).info(),
            forall|i: int|
                0 <= i < final(self).buffer().len() ==> final(self).buffer()[i] == filled_byte(
                    old(self).info(),
                    old(self).buffer(),
                    color,
                    x0 as int,
                    x1 as int,
                    y0 as int,
                    y1 as int,
                    i,
                ),
    {
        let info = self.info;
        let pixel = info.bytes_per_pixel;
        proof {
            lemma_sizes(info);
        }
        let line = info.width * pixel;
        assert(x1 * pixel <= line) by (nonlinear_arith)
            requires
                x1 <= info.width,
                line == info.width * pixel,
        ;
        assert(x0 * pixel <= x1 * pixel) by (nonlinear_arith)
            requires
                x0 <= x1,
        ;
        let from = x0 * pixel;
        let to = x1 * pixel;
        let mut y = y0;
        while y < y1
            invariant
                self.wf(),
                self.info == info,
                info == old(self).info(),
                pixel == info.bytes_per_pixel,
                pixel > 0,
                line == info.line_bytes(),
                from == x0 * pixel,
                to == x1 * pixel,
                from <= to <= line,
                x0 <= x1 <= info.width,
                y0 <= y <= y1 <= info.height,
                forall|i: int|
                    0 <= i < self.buffer().len() ==> self.buffer()[i] == filled_byte(
                        info,
                        old(self).buffer(),
                        color,
                        x0 as int,
                        x1 as int,
                        y0 as int,
                        y as int,
                        i,
                    ),
            decreases y1 - y,
        {
            proof {
                lemma_sizes(info);
            }
            assert(0 <= y * line && y * line + line <= info.height * line) by (nonlinear_arith)
                requires
                    0 <= y < info.height,
                    line >= 0,
            ;
            assert(info.height * line == self.buffer().len());
            let start = y * line;
            let ghost row_before = self.buffer();
            let mut j = from;
            while j < to
                invariant
                    self.wf(),
                    self.info == info,
                    pixel == info.bytes_per_pixel,
                    pixel > 0,
                    line == info.line_bytes(),
                    from == x0 * pixel,
                    to == x1 * pixel,
                    from <= j <= to <= line,
                    start == y * line,
                    start + line <= self.buffer().len() <= usize::MAX,
                    self.buffer().len() == row_before.len(),
                    forall|i: int|
                        0 <= i < self.buffer().len() ==> self.buffer()[i] == if start + from <= i
                            < start + j {
                            color.fill_bytes(info.pixel_format)[(i - start) % (pixel as int)]
                        } else {
                            row_before[i]
                        },
                decreases to - j,
            {
                self.backbuffer[start + j] = color.fill_byte(info.pixel_format, j % pixel);
                j = j + 1;
            }
            proof {
                assert forall|i: int| 0 <= i < self.buffer().len() implies self.buffer()[i]
                    == filled_byte(
                    info,
                    old(self).buffer(),
                    color,
                    x0 as int,
                    x1 as int,
                    y0 as int,
                    y as int + 1,
                    i,
                ) by {
                    assert(info.line_bytes() > 0) by (nonlinear_arith)
                        requires
                            0 <= i < info.height * info.line_bytes(),
                            info.height >= 0,
                    ;
                    lemma_in_row(info, x0 as int, x1 as int, y as int, i);
                }
            }
            y = y + 1;
        }
    }

    /// Fills the whole frame with `color`.
    pub fn clear(&mut self, color: Color)
        requires
            old(self).wf(),
        ensures
            final(self).wf(),
            final(self).info() == old(self).info(),
            forall|i: int|
                0 <= i < final(self).buffer().len() ==> final(self).buffer()[i] == color.fill_bytes(
                    old(self).info().pixel_format,
                )[i % (old(self).info().bytes_per_pixel as int)],
    {
        let width = self.info.width;
        let height = self.info.height;
        self.fill_solid(0, width, 0, height, color);
        proof {
            assert forall|i: int| 0 <= i < self.buffer().len() implies self.buffer()[i]
                == color.fill_bytes(self.info.pixel_format)[i % (self.info.bytes_per_pixel as int)] by {
                lemma_whole_frame(self.info, i);
            }
        }
    }

    /// Shows the picture: copies each line of the back buffer to its place
    /// in the front buffer, whose lines are `stride` pixels apart. The bytes
    /// between the lines stay as they are.
    pub fn draw_frame(&self, front: &mut Vec<u8>)
        requires
            self.wf(),
            old(front)@.len() >= self.info().height * self.info().stride
                * self.info().bytes_per_pixel,
        ensures
            final(front)@.len() == old(front)@.len(),
            forall|i: int|
                0 <= i < final(front)@.len() ==> final(front)@[i] == shown_byte(
                    self.info(),
                    self.buffer(),
                    old(front)@,
                    self.info().height as int,
                    i,
                ),
    {
        let info = self.info;
        let pixel = info.bytes_per_pixel;
        proof {
            lemma_sizes(info);
        }
        let line = info.width * pixel;
        let gap = info.stride * pixel;
        let front_len = front.len();
        let mut y: usize = 0;
        while y < info.height
            invariant
                self.wf(),
                self.info == info,
                pixel == info.bytes_per_pixel,
                line == info.line_bytes(),
                gap == info.stride * pixel,
                line <= gap,
                info.height * gap <= usize::MAX,
                y <= info.height,
                front@.len() == old(front)@.len(),
                front@.len() == front_len,
                front@.len() >= info.height * gap,
                gap == 0 ==> line == 0,
                forall|i: int|
                    0 <= i < front@.len() ==> front@[i] == shown_byte(
                        info,
                        self.buffer(),
                        old(front)@,
                        y as int,
                        i,
                    ),
            decreases info.height - y,
        {
            assert(0 <= y * gap && 0 <= y * line && y * gap + gap <= info.height * gap && y * line
                + line <= info.height * line) by (nonlinear_arith)
                requires
                    0 <= y < info.height,
                    line >= 0,
                    gap >= 0,
            ;
            proof {
                lemma_sizes(info);
            }
            assert(info.height * line == self.buffer().len());
            let wide = y * line;
            let offset = y * gap;
            let ghost front_before = front@;
            let mut j: usize = 0;
            while j < line
                invariant
                    self.wf(),
                    self.info == info,
                    line == info.line_bytes(),
                    j <= line <= gap,
                    wide == y * line,
                    offset == y * gap,
                    wide + line <= self.buffer().len() <= usize::MAX,
                    offset + gap <= front@.len() <= usize::MAX,
                    front@.len() == front_before.len(),
                    forall|i: int|
                        0 <= i < front@.len() ==> front@[i] == if offset <= i < offset + j {
                            self.buffer()[wide + (i - offset)]
                        } else {
                            front_before[i]
                        },
                decreases line - j,
            {
                front[offset + j] = self.backbuffer[wide + j];
                j = j + 1;
            }
            proof {
                assert forall|i: int| 0 <= i < front@.len() implies front@[i] == shown_byte(
                    info,
                    self.buffer(),
                    old(front)@,
                    y as int + 1,
                    i,
                ) by {
                    if gap > 0 {
                        lemma_in_shown_row(info, y as int, i);
                    }
                }
            }
            y = y + 1;
        }
    }
}

/// The byte at `index` of the front buffer once the first `lines` lines of
/// `back` are shown: within the pixels of one of those lines it is the back
/// buffer's byte, elsewhere that of `before`.
pub open spec fn shown_byte(
    info: FrameInfo,
    back: Seq<u8>,
    before: Seq<u8>,
    lines: int,
    index: int,
) -> u8 {
    let gap = info.stride * info.bytes_per_pixel;
    if gap > 0 && index / gap < lines && index % gap < info.line_bytes() {
        back[(index / gap) * info.line_bytes() + index % gap]
    } else {
        before[index]
    }
}

proof fn lemma_sizes(info: FrameInfo)
    requires
        info.wf(),
    ensures
        info.bytes_per_pixel > 0,
        0 <= info.line_bytes() <= info.stride * info.bytes_per_pixel <= usize::MAX,
        0 <= info.buffer_bytes() <= info.height * (info.stride * info.bytes_per_pixel),
        info.height * (info.stride * info.bytes_per_pixel) == info.height * info.stride
            * info.bytes_per_pixel,
        info.buffer_bytes() <= usize::MAX,
        info.width * info.height <= info.buffer_bytes(),
{
    let w = info.width as int;
    let h = info.height as int;
    let b = info.bytes_per_pixel as int;
    let s = info.stride as int;
    assert(0 <= w * b <= s * b) by (nonlinear_arith)
        requires
            0 <= w <= s,
            b >= 0,
    ;
    assert(0 <= h * (w * b) <= h * (s * b)) by (nonlinear_arith)
        requires
            0 <= w * b <= s * b,
            h >= 0,
    ;
    assert(h * (s * b) == h * s * b) by (nonlinear_arith);
    assert(w * h <= h * (w * b)) by (nonlinear_arith)
        requires
            w >= 0,
            h >= 0,
            b >= 1,
    ;
}

proof fn lemma_in_row(info: FrameInfo, x0: int, x1: int, y: int, i: int)
    requires
        info.wf(),
        info.line_bytes() > 0,
        0 <= x0 <= x1 <= info.width,
        0 <= y,
        0 <= i,
    ensures
        i / info.line_bytes() == y <==> y * info.line_bytes() <= i < y * info.line_bytes()
            + info.line_bytes(),
        i / info.line_bytes() == y ==> i % info.line_bytes() == i - y * info.line_bytes(),
        i / info.line_bytes() == y ==> (x0 <= (i % info.line_bytes()) / (
        info.bytes_per_pixel as int) < x1 <==> x0 * info.bytes_per_pixel <= i - y
            * info.line_bytes() < x1 * info.bytes_per_pixel),
        i / info.line_bytes() == y ==> (i - y * info.line_bytes()) % (info.bytes_per_pixel as int)
            == (i % info.line_bytes()) % (info.bytes_per_pixel as int),
{
    let line = info.line_bytes();
    let b = info.bytes_per_pixel as int;
    vstd::arithmetic::div_mod::lemma_fundamental_div_mod(i, line);
    vstd::arithmetic::div_mod::lemma_mod_bound(i, line);
    let q = i / line;
    let r = i % line;
    assert(q == y <==> y * line <= i < y * line + line) by (nonlinear_arith)
        requires
            i == line * q + r,
            0 <= r < line,
    ;
    if q == y {
        assert(r == i - y * line) by (nonlinear_arith)
            requires
                i == line * q + r,
                q == y,
        ;
        vstd::arithmetic::div_mod::lemma_fundamental_div_mod(r, b);
        vstd::arithmetic::div_mod::lemma_mod_bound(r, b);
        let c = r / b;
        let k = r % b;
        assert(x0 <= c < x1 <==> x0 * b <= r < x1 * b) by (nonlinear_arith)
            requires
                r == b * c + k,
                0 <= k < b,
        ;
    }
}

proof fn lemma_whole_frame(info: FrameInfo, i: int)
    requires
        info.wf(),
        0 <= i < info.buffer_bytes(),
    ensures
        0 <= i / info.line_bytes() < info.height,
        0 <= (i % info.line_bytes()) / (info.bytes_per_pixel as int) < info.width,
        (i % info.line_bytes()) % (info.bytes_per_pixel as int) == i % (
        info.bytes_per_pixel as int),
{
    let line = info.line_bytes();
    let b = info.bytes_per_pixel as int;
    let h = info.height as int;
    let w = info.width as int;
    assert(line > 0) by (nonlinear_arith)
        requires
            0 <= i < h * line,
            line == w * b,
            w >= 0,
            b >= 0,
    ;
    vstd::arithmetic::div_mod::lemma_fundamental_div_mod(i, line);
    vstd::arithmetic::div_mod::lemma_mod_bound(i, line);
    let q = i / line;
    let r = i % line;
    assert(0 <= q < h) by (nonlinear_arith)
        requires
            i == line * q + r,
            0 <= r < line,
            0 <= i < h * line,
    ;
    vstd::arithmetic::div_mod::lemma_fundamental_div_mod(r, b);
    vstd::arithmetic::div_mod::lemma_mod_bound(r, b);
    let c = r / b;
    let k = r % b;
    assert(0 <= c < w) by (nonlinear_arith)
        requires
            r == b * c + k,
            0 <= k < b,
            0 <= r < w * b,
    ;
    assert(i == b * (w * q + c) + k) by (nonlinear_arith)
        requires
            i == line * q + r,
            line == w * b,
            r == b * c + k,
    ;
    vstd::arithmetic::div_mod::lemma_fundamental_div_mod_converse(i, b, w * q + c, k);
}

proof fn lemma_in_shown_row(info: FrameInfo, y: int, i: int)
    requires
        info.wf(),
        info.stride * info.bytes_per_pixel > 0,
        0 <= y,
        0 <= i,
    ensures
        i / (info.stride * info.bytes_per_pixel) == y <==> y * (info.stride
            * info.bytes_per_pixel) <= i < y * (info.stride * info.bytes_per_pixel) + info.stride
            * info.bytes_per_pixel,
        i / (info.stride * info.bytes_per_pixel) == y ==> i % (info.stride
            * info.bytes_per_pixel) == i - y * (info.stride * info.bytes_per_pixel),
{
    let gap = info.stride * info.bytes_per_pixel;
    vstd::arithmetic::div_mod::lemma_fundamental_div_mod(i, gap);
    vstd::arithmetic::div_mod::lemma_mod_bound(i, gap);
    let q = i / gap;
    let r = i % gap;
    assert(q == y <==> y * gap <= i < y * gap + gap) by (nonlinear_arith)
        requires
            i == gap * q + r,
            0 <= r < gap,
    ;
    if q == y {
        assert(r == i - y * gap) by (nonlinear_arith)
            requires
                i == gap * q + r,
                q == y,
        ;
    }
}

} // verus!
