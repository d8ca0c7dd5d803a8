//! Framebuffer text console: cursor movement.
//!
//! Characters are 8 pixels wide on 10-pixel lines. Writing text moves the
//! cursor, wraps at the right edge and scrolls at the bottom; the console
//! says what to draw, and the display driver paints it.

use vstd::prelude::*;
use vstd::string::StringSliceAdditionalSpecFns;

verus! {

/// Console background colour.
pub const BG_COLOR: u32 = 0x0A0A1A;

/// Console text colour.
pub const FG_COLOR: u32 = 0x00E5FF;

/// Prompt colour.
pub const PROMPT_COLOR: u32 = 0x7B68EE;

/// Character cell width in pixels.
pub const CHAR_WIDTH: u32 = 8;

/// Line height in pixels: an 8-pixel glyph and 2 pixels of spacing.
pub const LINE_HEIGHT: u32 = 10;

/// A drawing step of the console.
#[derive(Debug, Clone, Copy, PartialEq, Eq, Structural)]
pub enum ConsoleOp {
    /// Draw character `ch` with its top-left corner at pixel (`x`, `y`).
    DrawChar { ch: u8, x: u32, y: u32 },
    /// Move the screen up by one line and clear the bottom line.
    Scroll,
}

/// Framebuffer console state
#[derive(Debug)]
pub struct Console {
    /// Framebuffer width in pixels
    width: u32,
    /// Framebuffer height in pixels
    height: u32,
    /// Bytes per scanline
    pitch: u32,
    /// Current cursor column (in characters)
    col: u32,
    /// Current cursor row (in characters)
    row: u32,
    /// Characters per row
    cols: u32,
    /// Characters per column
    rows: u32,
}

/// The cursor is on the screen, which has at least one line.
pub open spec fn cursor_ok(col: u32, row: u32, cols: u32, rows: u32) -> bool {
    &&& rows > 0
    &&& row < rows
    &&& (col < cols || col == 0)
}

/// Cursor and drawing steps after one byte: newline moves to the start of
/// the next line, carriage return to the start of this one; any other byte
/// is drawn at the cursor, which advances and wraps at the right edge. Going
/// past the last line scrolls and stays on the last line.
pub open spec fn console_step(col: u32, row: u32, cols: u32, rows: u32, b: u8) -> (u32, u32, Seq<ConsoleOp>) {
    if b == 0x0A {
        if row + 1 >= rows {
            (0, (rows - 1) as u32, seq![ConsoleOp::Scroll])
        } else {
            (0, (row + 1) as u32, Seq::empty())
        }
    } else if b == 0x0D {
        (0, row, Seq::empty())
    } else {
        let draw = ConsoleOp::DrawChar { ch: b, x: (col * 8) as u32, y: (row * 10) as u32 };
        if col + 1 >= cols {
            if row + 1 >= rows {
                (0, (rows - 1) as u32, seq![draw, ConsoleOp::Scroll])
            } else {
                (0, (row + 1) as u32, seq![draw])
            }
        } else {
            ((col + 1) as u32, row, seq![draw])
        }
    }
}

/// Cursor and drawing steps after the bytes of `s`, in order.
pub open spec fn console_run(col: u32, row: u32, cols: u32, rows: u32, s: Seq<u8>) -> (u32, u32, Seq<ConsoleOp>)
    decreases s.len(),
{
    if s.len() == 0 {
        (col, row, Seq::empty())
    } else {
        let (c1, r1, ops1) = console_run(col, row, cols, rows, s.drop_last());
        let (c2, r2, ops2) = console_step(c1, r1, cols, rows, s.last());
        (c2, r2, ops1 + ops2)
    }
}

proof fn lemma_step_ok(col: u32, row: u32, cols: u32, rows: u32, b: u8)
    requires
        cursor_ok(col, row, cols, rows),
    ensures
        cursor_ok(console_step(col, row, cols, rows, b).0, console_step(col, row, cols, rows, b).1, cols, rows),
{
}

/// Carriage returns only move the cursor to the start of its line.
proof fn lemma_carriage_returns(col: u32, row: u32, cols: u32, rows: u32, s: Seq<u8>)
    requires
        forall|i: int| 0 <= i < s.len() ==> #[trigger] s[i] == 0x0D,
        col == 0,
    ensures
        console_run(col, row, cols, rows, s) == (0u32, row, Seq::<ConsoleOp>::empty()),
    decreases s.len(),
{
    if s.len() > 0 {
        let t = s.drop_last();
        assert forall|i: int| 0 <= i < t.len() implies #[trigger] t[i] == 0x0D by {
            assert(t[i] == s[i]);
        }
        lemma_carriage_returns(col, row, cols, rows, t);
        assert(s.last() == s[s.len() - 1]);
        assert(Seq::<ConsoleOp>::empty() + Seq::<ConsoleOp>::empty() =~= Seq::<ConsoleOp>::empty());
    }
}

/// Writing keeps the cursor on the screen, whatever is written.
pub proof fn lemma_console_stays_on_screen(col: u32, row: u32, cols: u32, rows: u32, s: Seq<u8>)
    requires
        cursor_ok(col, row, cols, rows),
    ensures
        cursor_ok(console_run(col, row, cols, rows, s).0, console_run(col, row, cols, rows, s).1, cols, rows),
    decreases s.len(),
{
    if s.len() > 0 {
        lemma_console_stays_on_screen(col, row, cols, rows, s.drop_last());
        let r = console_run(col, row, cols, rows, s.drop_last());
        lemma_step_ok(r.0, r.1, cols, rows, s.last());
    }
}

/// Text without line breaks that fits on the current line moves the cursor
/// right by its length and leaves it on the same line.
pub proof fn lemma_console_plain_text(col: u32, row: u32, cols: u32, rows: u32, s: Seq<u8>)
    requires
        cursor_ok(col, row, cols, rows),
        forall|i: int| 0 <= i < s.len() ==> #[trigger] s[i] != 0x0A && s[i] != 0x0D,
        col + s.len() < cols,
    ensures
        console_run(col, row, cols, rows, s).0 == col + s.len(),
        console_run(col, row, cols, rows, s).1 == row,
    decreases s.len(),
{
    if s.len() > 0 {
        let t = s.drop_last();
        assert forall|i: int| 0 <= i < t.len() implies #[trigger] t[i] != 0x0A && t[i] != 0x0D by {
            assert(t[i] == s[i]);
        }
        lemma_console_plain_text(col, row, cols, rows, t);
        assert(s.last() == s[s.len() - 1]);
    }
}

/// Text that ends in a newline or a carriage return leaves the cursor at the
/// start of a line.
pub proof fn lemma_console_line_end(col: u32, row: u32, cols: u32, rows: u32, s: Seq<u8>)
    requires
        s.len() > 0,
        s.last() == 0x0A || s.last() == 0x0D,
    ensures
        console_run(col, row, cols, rows, s).0 == 0,
{
}

impl Console {
    /// The grid matches the framebuffer, and the cursor is on it (at the
    /// top left while the screen holds no line).
    #[verifier::type_invariant]
    spec fn inv(self) -> bool {
        &&& self.cols == self.width / 8
        &&& self.rows == self.height / 10
        &&& self.rows == 0 ==> self.col == 0 && self.row == 0
        &&& self.rows > 0 ==> cursor_ok(self.col, self.row, self.cols, self.rows)
    }

    /// Framebuffer width in pixels.
    pub closed spec fn spec_width(&self) -> u32 {
        self.width
    }

    /// Framebuffer height in pixels.
    pub closed spec fn spec_height(&self) -> u32 {
        self.height
    }

    /// Bytes per scanline.
    pub closed spec fn spec_pitch(&self) -> u32 {
        self.pitch
    }

    /// Cursor column, in characters.
    pub closed spec fn spec_col(&self) -> u32 {
        self.col
    }

    /// Cursor row, in characters.
    pub closed spec fn spec_row(&self) -> u32 {
        self.row
    }

    /// Characters per row.
    pub closed spec fn spec_cols(&self) -> u32 {
        self.cols
    }

    /// Lines on the screen.
    pub closed spec fn spec_rows(&self) -> u32 {
        self.rows
    }

    /// A console for a `width` × `height` framebuffer with `pitch` bytes per
    /// scanline, with the cursor at the top left.
    pub fn new(width: u32, height: u32, pitch: u32) -> (c: Self)
        ensures
            c.spec_width() == width,
            c.spec_height() == height,
            c.spec_pitch() == pitch,
            c.spec_col() == 0,
            c.spec_row() == 0,
            c.spec_cols() == width / 8,
            c.spec_rows() == height / 10,
            height >= LINE_HEIGHT ==> cursor_ok(c.spec_col(), c.spec_row(), c.spec_cols(), c.spec_rows()),
    {
        Console { width, height, pitch, col: 0, row: 0, cols: width / CHAR_WIDTH, rows: height / LINE_HEIGHT }
    }

    /// Framebuffer width in pixels.
    pub fn width(&self) -> (w: u32)
        ensures
            w == self.spec_width(),
    {
        self.width
    }

    /// Framebuffer height in pixels.
    pub fn height(&self) -> (h: u32)
        ensures
            h == self.spec_height(),
    {
        self.height
    }

    /// Bytes per scanline.
    pub fn pitch(&self) -> (p: u32)
        ensures
            p == self.spec_pitch(),
    {
        self.pitch
    }

    /// Cursor column, in characters.
    pub fn col(&self) -> (c: u32)
        ensures
            c == self.spec_col(),
    {
        self.col
    }

    /// Cursor row, in characters.
    pub fn row(&self) -> (r: u32)
        ensures
            r == self.spec_row(),
    {
        self.row
    }

    /// Characters per row.
    pub fn cols(&self) -> (c: u32)
        ensures
            c == self.spec_cols(),
    {
        self.cols
    }

    /// Lines on the screen; the console also shows here what it always
    /// keeps: the grid is the framebuffer's size in characters, and the
    /// cursor is on it.
    pub fn rows(&self) -> (r: u32)
        ensures
            r == self.spec_rows(),
            self.spec_cols() == self.spec_width() / 8,
            self.spec_rows() == self.spec_height() / 10,
            self.spec_rows() == 0 ==> self.spec_col() == 0 && self.spec_row() == 0,
            self.spec_rows() > 0 ==> cursor_ok(self.spec_col(), self.spec_row(), self.spec_cols(), self.spec_rows()),
    {
        proof {
            use_type_invariant(self);
        }
        self.rows
    }

    /// Write a string at the cursor: gives the drawing steps, in order, and
    /// leaves the cursor after the text.
    pub fn write_str(&mut self, s: &str) -> (ops: Vec<ConsoleOp>)
        requires
            old(self).spec_rows() > 0 || forall|i: int| 0 <= i < s.spec_bytes().len() ==> #[trigger] s.spec_bytes()[i] == 0x0D,
        ensures
            (final(self).spec_col(), final(self).spec_row(), ops@) == console_run(
                old(self).spec_col(),
                old(self).spec_row(),
                old(self).spec_cols(),
                old(self).spec_rows(),
                s.spec_bytes(),
            ),
            final(self).spec_width() == old(self).spec_width(),
            final(self).spec_height() == old(self).spec_height(),
            final(self).spec_pitch() == old(self).spec_pitch(),
            final(self).spec_cols() == old(self).spec_cols(),
            final(self).spec_rows() == old(self).spec_rows(),
            final(self).spec_rows() > 0 ==> cursor_ok(
                final(self).spec_col(),
                final(self).spec_row(),
                final(self).spec_cols(),
                final(self).spec_rows(),
            ),
    {
        proof {
            use_type_invariant(&*self);
        }
        if self.rows == 0 {
            proof {
                lemma_carriage_returns(0, 0, self.cols, 0, s.spec_bytes());
            }
            return Vec::new();
        }
        let bytes = s.as_bytes();
        let mut ops: Vec<ConsoleOp> = Vec::new();
        let mut i: usize = 0;
        while i < bytes.len()
            invariant
                i <= bytes@.len(),
                bytes@ == s.spec_bytes(),
                cursor_ok(self.col, self.row, self.cols, self.rows),
                self.cols == self.width / 8,
                self.rows == self.height / 10,
                self.width == old(self).width,
                self.height == old(self).height,
                self.pitch == old(self).pitch,
                self.cols == old(self).cols,
                self.rows == old(self).rows,
                (self.col, self.row, ops@) == console_run(
                    old(self).col,
                    old(self).row,
                    old(self).cols,
                    old(self).rows,
                    bytes@.take(i as int),
                ),
            decreases bytes@.len() - i,
        {
            let b = bytes[i];
            let ghost before = ops@;
            proof {
                assert(bytes@.take(i + 1).drop_last() =~= bytes@.take(i as int));
                lemma_step_ok(self.col, self.row, self.cols, self.rows, b);
            }
            if b == 0x0A {
                self.col = 0;
                if self.row + 1 >= self.rows {
                    ops.push(ConsoleOp::Scroll);
                    self.row = self.rows - 1;
                } else {
                    self.row = self.row + 1;
                }
            } else if b == 0x0D {
                self.col = 0;
            } else {
                let x = self.col * CHAR_WIDTH;
                let y = self.row * LINE_HEIGHT;
                ops.push(ConsoleOp::DrawChar { ch: b, x, y });
                if self.col + 1 >= self.cols {
                    self.col = 0;
                    if self.row + 1 >= self.rows {
                        ops.push(ConsoleOp::Scroll);
                        self.row = self.rows - 1;
                    } else {
                        self.row = self.row + 1;
                    }
                } else {
                    self.col = self.col + 1;
                }
            }
            proof {
                let (c2, r2, ops2) = console_step(
                    console_run(old(self).col, old(self).row, old(self).cols, old(self).rows, bytes@.take(i as int)).0,
                    console_run(old(self).col, old(self).row, old(self).cols, old(self).rows, bytes@.take(i as int)).1,
                    self.cols,
                    self.rows,
                    b,
                );
                assert(ops@ =~= before + ops2);
            }
            i += 1;
        }
        proof {
            assert(bytes@.take(bytes@.len() as int) =~= bytes@);
        }
        ops
    }
}

} // verus!
