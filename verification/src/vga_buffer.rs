//! The text writer of the screen: where the next character goes, when the
//! line breaks and when the screen is wiped.

use crate::framebuffer::FrameInfo;
use vstd::prelude::*;

verus! {

/// The width of a character cell, in pixels.
pub const GLYPH_WIDTH: usize = 9;

/// The height of a character cell, in pixels.
pub const GLYPH_HEIGHT: usize = 15;

/// The byte drawn in place of one that cannot be printed.
pub const UNPRINTABLE: u8 = 0xfe;

/// The top left corner of a character cell.
#[derive(Debug, Clone, Copy, PartialEq, Eq, Structural)]
pub struct Cursor {
    pub x_pos: usize,
    pub y_pos: usize,
}

/// What the writer asks the display to do.
#[derive(Debug, Clone, Copy, PartialEq, Eq, Structural)]
pub enum DrawAction {
    /// Wipe the screen.
    Clear,
    /// Draw the character `byte` with its top left corner at `at`.
    Glyph { byte: u8, at: Cursor },
    /// Wipe the cell with its top left corner at `at`.
    Erase { at: Cursor },
}

/// The start of the line below the cursor.
pub open spec fn line_below(from: Cursor) -> Cursor {
    Cursor { x_pos: 0, y_pos: (from.y_pos + GLYPH_HEIGHT) as usize }
}

/// Whether the screen is wiped before a character is drawn with the cursor
/// at `from`: the line of the character, after a line break if the cell
/// would reach the right edge, would reach the bottom edge.
pub open spec fn wipes(info: FrameInfo, from: Cursor) -> bool {
    if from.x_pos + GLYPH_WIDTH >= info.width {
        from.y_pos + GLYPH_HEIGHT + GLYPH_HEIGHT >= info.height
    } else {
        from.y_pos + GLYPH_HEIGHT >= info.height
    }
}

/// The cell in which a character is drawn with the cursor at `from`.
pub open spec fn cell_for(info: FrameInfo, from: Cursor) -> Cursor {
    if wipes(info, from) {
        Cursor { x_pos: 0, y_pos: 0 }
    } else if from.x_pos + GLYPH_WIDTH >= info.width {
        line_below(from)
    } else {
        from
    }
}

/// The cursor after the byte `byte` was written with the cursor at `from`:
/// a line feed moves to the line below, any other byte is drawn and moves
/// one cell to the right of where it was drawn.
pub open spec fn after_byte(info: FrameInfo, from: Cursor, byte: u8) -> Cursor {
    if byte == 0x0a {
        line_below(from)
    } else {
        Cursor {
            x_pos: (cell_for(info, from).x_pos + GLYPH_WIDTH) as usize,
            y_pos: cell_for(info, from).y_pos,
        }
    }
}

/// What writing the byte `byte` with the cursor at `from` draws.
pub open spec fn drawn_by_byte(info: FrameInfo, from: Cursor, byte: u8) -> Seq<DrawAction> {
    if byte == 0x0a {
        Seq::<DrawAction>::empty()
    } else if wipes(info, from) {
        seq![DrawAction::Clear, DrawAction::Glyph { byte, at: cell_for(info, from) }]
    } else {
        seq![DrawAction::Glyph { byte, at: cell_for(info, from) }]
    }
}

/// Whether the cursor at `from` can step back: there is a cell to its left,
/// or a line above whose last cell exists.
pub open spec fn can_step_back(info: FrameInfo, from: Cursor) -> bool {
    if from.x_pos == 0 {
        from.y_pos >= GLYPH_HEIGHT && info.stride >= GLYPH_WIDTH
    } else {
        from.x_pos >= GLYPH_WIDTH
    }
}

/// The cursor after a step back from `from`: one cell to the left, or from
/// the start of a line the last whole cell of the line above.
pub open spec fn after_backspace(info: FrameInfo, from: Cursor) -> Cursor {
    if from.x_pos == 0 {
        Cursor {
            x_pos: ((info.stride / GLYPH_WIDTH) * GLYPH_WIDTH - GLYPH_WIDTH) as usize,
            y_pos: (from.y_pos - GLYPH_HEIGHT) as usize,
        }
    } else {
        Cursor { x_pos: (from.x_pos - GLYPH_WIDTH) as usize, y_pos: from.y_pos }
    }
}

/// The byte that is written for the byte `byte` of a string: itself if it is
/// printable or a line feed, the mark for unprintable bytes otherwise.
pub open spec fn written_for(byte: u8) -> u8 {
    if (0x20 <= byte <= 0x7e) || byte == 0x0a {
        byte
    } else {
        UNPRINTABLE
    }
}

/// The cursor after one byte of a string: a backspace steps back, any other
/// byte is written.
pub open spec fn after_string_byte(info: FrameInfo, from: Cursor, byte: u8) -> Cursor {
    if byte == 0x08 {
        after_backspace(info, from)
    } else {
        after_byte(info, from, written_for(byte))
    }
}

/// What one byte of a string draws.
pub open spec fn drawn_by_string_byte(info: FrameInfo, from: Cursor, byte: u8) -> Seq<DrawAction> {
    if byte == 0x08 {
        seq![DrawAction::Erase { at: after_backspace(info, from) }]
    } else {
        drawn_by_byte(info, from, written_for(byte))
    }
}

/// Whether the cursor at `from` stays within what can be counted, with room
/// for one more line break and one more cell.
pub open spec fn in_range(from: Cursor) -> bool {
    from.x_pos + GLYPH_WIDTH <= usize::MAX && from.y_pos + GLYPH_HEIGHT + GLYPH_HEIGHT
        <= usize::MAX
}

/// Whether the bytes `bytes` can be written one after the other with the
/// cursor starting at `from`: every backspace finds a cell to step back to,
/// and the cursor stays in range.
pub open spec fn can_write(info: FrameInfo, from: Cursor, bytes: Seq<u8>) -> bool
    decreases bytes.len(),
{
    bytes.len() == 0 || (in_range(from) && (bytes[0] == 0x08 ==> can_step_back(info, from))
        && can_write(info, after_string_byte(info, from, bytes[0]), bytes.drop_first()))
}

/// The cursor after the bytes `bytes` were written from `from`.
pub open spec fn after_string(info: FrameInfo, from: Cursor, bytes: Seq<u8>) -> Cursor
    decreases bytes.len(),
{
    if bytes.len() == 0 {
        from
    } else {
        after_string(info, after_string_byte(info, from, bytes[0]), bytes.drop_first())
    }
}

/// What writing the bytes `bytes` from `from` draws, in order.
pub open spec fn drawn_by_string(info: FrameInfo, from: Cursor, bytes: Seq<u8>) -> Seq<DrawAction>
    decreases bytes.len(),
{
    if bytes.len() == 0 {
        Seq::<DrawAction>::empty()
    } else {
        drawn_by_string_byte(info, from, bytes[0]) + drawn_by_string(
            info,
            after_string_byte(info, from, bytes[0]),
            bytes.drop_first(),
        )
    }
}

/// The writer: the screen's geometry and the cursor.
pub struct Writer {
    info: FrameInfo,
    x_pos: usize,
    y_pos: usize,
}

impl Writer {
    /// The screen's geometry.
    pub closed spec fn info(&self) -> FrameInfo {
        self.info
    }

    /// Where the next character goes.
    pub closed spec fn cursor(&self) -> Cursor {
        Cursor { x_pos: self.x_pos, y_pos: self.y_pos }
    }

    /// A writer with the cursor in the top left corner.
    pub fn new(info: FrameInfo) -> (writer: Self)
        ensures
            writer.info() == info,
            writer.cursor() == (Cursor { x_pos: 0, y_pos: 0 }),
    {
        Writer { info, x_pos: 0, y_pos: 0 }
    }

    /// Where the next character goes.
    pub fn position(&self) -> (cursor: Cursor)
        ensures
            cursor == self.cursor(),
    {
        Cursor { x_pos: self.x_pos, y_pos: self.y_pos }
    }

    /// Moves the cursor to the start of the line below.
    pub fn new_line(&mut self)
        requires
            old(self).cursor().y_pos + GLYPH_HEIGHT <= usize::MAX,
        ensures
            final(self).info() == old(self).info(),
            final(self).cursor() == line_below(old(self).cursor()),
    {
        self.y_pos += GLYPH_HEIGHT;
        self.x_pos = 0;
    }

    /// Writes one byte: see [`after_byte`] and [`drawn_by_byte`]. What is to
    /// be drawn is added to `out`.
    pub fn write_byte(&mut self, byte: u8, out: &mut Vec<DrawAction>)
        requires
            in_range(old(self).cursor()),
        ensures
            final(self).info() == old(self).info(),
            final(self).cursor() == after_byte(old(self).info(), old(self).cursor(), byte),
            final(out)@ == old(out)@ + drawn_by_byte(old(self).info(), old(self).cursor(), byte),
    {
        if byte == 0x0a {
            self.new_line();
            assert(out@ + Seq::<DrawAction>::empty() =~= out@);
            return ;
        }
        let new_xpos = self.x_pos + GLYPH_WIDTH;
        if new_xpos >= self.info.width {
            self.new_line();
        }
        let new_ypos = self.y_pos + GLYPH_HEIGHT;
        if new_ypos >= self.info.height {
            self.x_pos = 0;
            self.y_pos = 0;
            out.push(DrawAction::Clear);
        }
        let at = Cursor { x_pos: self.x_pos, y_pos: self.y_pos };
        out.push(DrawAction::Glyph { byte, at });
        self.x_pos += GLYPH_WIDTH;
        assert(out@ =~= old(out)@ + drawn_by_byte(old(self).info(), old(self).cursor(), byte));
    }

    /// Steps back one cell and has it wiped: see [`after_backspace`].
    pub fn backspace(&mut self, out: &mut Vec<DrawAction>)
        requires
            can_step_back(old(self).info(), old(self).cursor()),
        ensures
            final(self).info() == old(self).info(),
            final(self).cursor() == after_backspace(old(self).info(), old(self).cursor()),
            final(out)@ == old(out)@.push(
                DrawAction::Erase { at: after_backspace(old(self).info(), old(self).cursor()) },
            ),
    {
        if self.x_pos == 0 {
            self.y_pos -= GLYPH_HEIGHT;
            self.x_pos = (self.info.stride / GLYPH_WIDTH) * GLYPH_WIDTH;
        }
        self.x_pos -= GLYPH_WIDTH;
        out.push(DrawAction::Erase { at: Cursor { x_pos: self.x_pos, y_pos: self.y_pos } });
    }

    /// Writes the bytes of a string, one after the other: printable bytes
    /// and line feeds as they are, a backspace as a step back, and the mark
    /// for unprintable bytes in place of any other. Returns what is to be
    /// drawn, in order.
    pub fn write_string(&mut self, s: &[u8]) -> (out: Vec<DrawAction>)
        requires
            can_write(old(self).info(), old(self).cursor(), s@),
        ensures
            final(self).info() == old(self).info(),
            final(self).cursor() == after_string(old(self).info(), old(self).cursor(), s@),
            out@ == drawn_by_string(old(self).info(), old(self).cursor(), s@),
    {
        let mut out: Vec<DrawAction> = Vec::new();
        let mut i: usize = 0;
        proof {
            assert(s@.skip(0) =~= s@);
        }
        while i < s.len()
            invariant
                i <= s.len(),
                self.info() == old(self).info(),
                can_write(self.info(), self.cursor(), s@.skip(i as int)),
                after_string(self.info(), self.cursor(), s@.skip(i as int)) == after_string(
                    old(self).info(),
                    old(self).cursor(),
                    s@,
                ),
                out@ + drawn_by_string(self.info(), self.cursor(), s@.skip(i as int))
                    == drawn_by_string(old(self).info(), old(self).cursor(), s@),
            decreases s.len() - i,
        {
            let byte = s[i];
            let ghost from = self.cursor();
            let ghost rest = s@.skip(i as int);
            let ghost before = out@;
            proof {
                assert(rest[0] == byte);
                assert(rest.drop_first() =~= s@.skip(i as int + 1));
            }
            if (0x20 <= byte && byte <= 0x7e) || byte == 0x0a {
                self.write_byte(byte, &mut out);
            } else if byte == 0x08 {
                self.backspace(&mut out);
            } else {
                self.write_byte(UNPRINTABLE, &mut out);
            }
            proof {
                let step = drawn_by_string_byte(self.info(), from, byte);
                assert(out@ =~= before + step);
                assert((before + step) + drawn_by_string(
                    self.info(),
                    self.cursor(),
                    rest.drop_first(),
                ) =~= before + (step + drawn_by_string(self.info(), self.cursor(), rest.drop_first())));
            }
            i = i + 1;
        }
        proof {
            assert(s@.skip(s.len() as int) =~= Seq::<u8>::empty());
            assert(out@ + Seq::<DrawAction>::empty() =~= out@);
        }
        out
    }
}

} // verus!
