//! Text output on a framebuffer: a cursor over a grid of 8x16 character
//! cells. Writing moves the cursor and says what to draw; the caller draws.

use vstd::prelude::*;
use vstd::string::StringSliceAdditionalSpecFns;

verus! {

/// Height of a character cell in pixels.
pub const FONT_HEIGHT: usize = 16;

/// Width of a character cell in pixels.
pub const FONT_WIDTH: usize = 8;

/// Colour of text.
pub const FOREGROUND: u32 = 0xFFFFFF;

/// Colour of the background.
pub const BACKGROUND: u32 = 0x000000;

/// What the caller is to do to the framebuffer.
#[derive(Debug, Clone, Copy, PartialEq, Eq, Structural)]
pub enum DrawOp {
    /// Paint the whole screen black.
    Clear,
    /// Draw character `ch` with its top-left pixel at (`x`, `y`).
    Char { ch: u8, x: usize, y: usize },
}

/// The cursor of a writer and the size of its grid.
#[derive(Debug, Clone, Copy, PartialEq, Eq, Structural)]
pub struct WriterView {
    pub column: usize,
    pub row: usize,
    pub max_cols: usize,
    pub max_rows: usize,
}

/// A new line: the next row, first column; past the last row, the screen
/// is cleared and the cursor goes home.
pub open spec fn new_line_effect(w: WriterView) -> (WriterView, Seq<DrawOp>) {
    if w.row + 1 >= w.max_rows {
        (WriterView { row: 0, column: 0, ..w }, seq![DrawOp::Clear])
    } else {
        (WriterView { row: (w.row + 1) as usize, column: 0, ..w }, Seq::empty())
    }
}

/// Writing `byte`: a newline moves to the next line; any other byte is
/// drawn at the cursor (after a new line where the row is full) and the
/// cursor moves right.
pub open spec fn write_byte_effect(w: WriterView, byte: u8) -> (WriterView, Seq<DrawOp>) {
    if byte == 10 {
        new_line_effect(w)
    } else {
        let (w1, ops) = if w.column >= w.max_cols {
            new_line_effect(w)
        } else {
            (w, Seq::empty())
        };
        (
            WriterView { column: (w1.column + 1) as usize, ..w1 },
            ops.push(
                DrawOp::Char {
                    ch: byte,
                    x: (w1.column * FONT_WIDTH) as usize,
                    y: (w1.row * FONT_HEIGHT) as usize,
                },
            ),
        )
    }
}

/// The byte that text byte `b` is shown as: printable ASCII and newline as
/// they are, anything else as a space.
pub open spec fn shown_byte(b: u8) -> u8 {
    if (0x20 <= b && b <= 0x7e) || b == 10 {
        b
    } else {
        0x20
    }
}

/// Writing the bytes of `bytes`, one after another.
pub open spec fn write_bytes_effect(w: WriterView, bytes: Seq<u8>) -> (WriterView, Seq<DrawOp>)
    decreases bytes.len(),
{
    if bytes.len() == 0 {
        (w, Seq::empty())
    } else {
        let (w1, ops1) = write_bytes_effect(w, bytes.drop_last());
        let (w2, ops2) = write_byte_effect(w1, shown_byte(bytes.last()));
        (w2, ops1 + ops2)
    }
}

/// The last byte of a text is drawn as itself where it is printable ASCII
/// (space to tilde), as a space where it is any other byte but a newline;
/// either way as one character, the last thing drawn.
pub proof fn law_printable_text_is_drawn_as_is(w: WriterView, text: Seq<u8>, b: u8)
    requires
        b != 10,
    ensures
        ({
            let ops = write_bytes_effect(w, text.push(b)).1;
            &&& ops.len() > 0
            &&& ops.last() matches DrawOp::Char { ch, .. } && ch == if 0x20 <= b <= 0x7e {
                b
            } else {
                0x20u8
            }
        }),
{
    let t = text.push(b);
    assert(t.drop_last() =~= text);
    assert(t.last() == b);
}

/// A newline draws no character: it moves the cursor to the start of the
/// next row, or, past the last row, clears the screen and goes home.
pub proof fn law_newline_starts_a_row(w: WriterView, text: Seq<u8>)
    ensures
        ({
            let (w1, ops1) = write_bytes_effect(w, text);
            let (w2, ops2) = write_bytes_effect(w, text.push(10u8));
            &&& w2.column == 0
            &&& if w1.row + 1 >= w1.max_rows {
                w2.row == 0 && ops2 == ops1.push(DrawOp::Clear)
            } else {
                w2.row == w1.row + 1 && ops2 == ops1
            }
        }),
{
    let t = text.push(10u8);
    assert(t.drop_last() =~= text);
    assert(t.last() == 10u8);
    let (w1, ops1) = write_bytes_effect(w, text);
    assert(ops1 + Seq::<DrawOp>::empty() =~= ops1);
    assert(ops1 + seq![DrawOp::Clear] =~= ops1.push(DrawOp::Clear));
}

/// Writing `a` and then `b` draws what writing `a` followed by `b` at once
/// draws, and leaves the cursor in the same place.
pub proof fn law_write_in_pieces(w: WriterView, a: Seq<u8>, b: Seq<u8>)
    ensures
        ({
            let (w1, ops1) = write_bytes_effect(w, a);
            let (w2, ops2) = write_bytes_effect(w1, b);
            write_bytes_effect(w, a + b) == (w2, ops1 + ops2)
        }),
    decreases b.len(),
{
    if b.len() == 0 {
        assert(a + b =~= a);
        let (w1, ops1) = write_bytes_effect(w, a);
        assert(ops1 + Seq::<DrawOp>::empty() =~= ops1);
    } else {
        law_write_in_pieces(w, a, b.drop_last());
        assert((a + b).drop_last() =~= a + b.drop_last());
        assert((a + b).last() == b.last());
        let (w1, ops1) = write_bytes_effect(w, a);
        let (wm, opsm) = write_bytes_effect(w1, b.drop_last());
        let (w3, ops3) = write_byte_effect(wm, shown_byte(b.last()));
        assert(ops1 + opsm + ops3 =~= ops1 + (opsm + ops3));
    }
}

/// Whether pixel (`col`, `row`) of the cell of `ch` is drawn in the text
/// colour: the border of the cell, for anything but a space.
pub open spec fn glyph_pixel(ch: u8, row: usize, col: usize) -> bool {
    ch != 0x20 && (row == 0 || row == FONT_HEIGHT - 1 || col == 0 || col == FONT_WIDTH - 1)
}

/// The colour of pixel (`col`, `row`) of the cell of `ch`.
pub fn cell_color(ch: u8, row: usize, col: usize, fg: u32, bg: u32) -> (r: u32)
    ensures
        r == if glyph_pixel(ch, row, col) {
            fg
        } else {
            bg
        },
{
    let is_char = ch != 0x20 && (row == 0 || row == FONT_HEIGHT - 1 || col == 0 || col == FONT_WIDTH
        - 1);
    if is_char {
        fg
    } else {
        bg
    }
}

/// A text writer over a framebuffer.
#[derive(Debug)]
pub struct Writer {
    column: usize,
    row: usize,
    max_cols: usize,
    max_rows: usize,
}

impl View for Writer {
    type V = WriterView;

    closed spec fn view(&self) -> WriterView {
        WriterView {
            column: self.column,
            row: self.row,
            max_cols: self.max_cols,
            max_rows: self.max_rows,
        }
    }
}

/// The cursor stays on the grid (a grid with no columns lets it one cell
/// past the edge), and pixel positions of the cells fit in a `usize`.
pub open spec fn writer_wf(w: WriterView) -> bool {
    &&& w.column <= w.max_cols || w.column <= 1
    &&& w.row <= w.max_rows
    &&& w.max_cols * FONT_WIDTH <= usize::MAX
    &&& w.max_rows * FONT_HEIGHT <= usize::MAX
}

impl Writer {
    /// A writer for a framebuffer `width` by `height` pixels, its cursor in
    /// the top-left cell.
    pub fn new(width: usize, height: usize) -> (r: Self)
        ensures
            r@ == (WriterView {
                column: 0,
                row: 0,
                max_cols: width / FONT_WIDTH,
                max_rows: height / FONT_HEIGHT,
            }),
            writer_wf(r@),
    {
        proof {
            assert((width / 8) * 8 <= width) by (nonlinear_arith);
            assert((height / 16) * 16 <= height) by (nonlinear_arith);
        }
        Writer { column: 0, row: 0, max_cols: width / FONT_WIDTH, max_rows: height / FONT_HEIGHT }
    }

    fn new_line(&mut self) -> (r: Vec<DrawOp>)
        requires
            writer_wf(old(self)@),
        ensures
            writer_wf(final(self)@),
            (final(self)@, r@) == new_line_effect(old(self)@),
    {
        let mut ops: Vec<DrawOp> = Vec::new();
        if self.row + 1 >= self.max_rows {
            self.row = 0;
            self.column = 0;
            ops.push(DrawOp::Clear);
            proof {
                assert(ops@ =~= seq![DrawOp::Clear]);
            }
        } else {
            self.row = self.row + 1;
            self.column = 0;
        }
        ops
    }

    /// Writes one byte; returns what to draw.
    pub fn write_byte(&mut self, byte: u8) -> (r: Vec<DrawOp>)
        requires
            writer_wf(old(self)@),
        ensures
            writer_wf(final(self)@),
            (final(self)@, r@) == write_byte_effect(old(self)@, byte),
    {
        if byte == 10 {
            return self.new_line();
        }
        let mut ops: Vec<DrawOp> = if self.column >= self.max_cols {
            self.new_line()
        } else {
            Vec::new()
        };
        proof {
            assert(self.column * FONT_WIDTH <= usize::MAX) by (nonlinear_arith)
                requires
                    self.column <= self.max_cols || self.column <= 1,
                    self.max_cols * FONT_WIDTH <= usize::MAX,
            ;
            assert(self.row * FONT_HEIGHT <= usize::MAX) by (nonlinear_arith)
                requires
                    self.row <= self.max_rows,
                    self.max_rows * FONT_HEIGHT <= usize::MAX,
            ;
        }
        let x = self.column * FONT_WIDTH;
        let y = self.row * FONT_HEIGHT;
        ops.push(DrawOp::Char { ch: byte, x, y });
        self.column = self.column + 1;
        ops
    }

    /// Writes the bytes of `s`, printable ASCII and newlines as they are and
    /// anything else as a space; returns what to draw.
    pub fn write_string(&mut self, s: &str) -> (r: Vec<DrawOp>)
        requires
            writer_wf(old(self)@),
        ensures
            writer_wf(final(self)@),
            (final(self)@, r@) == write_bytes_effect(old(self)@, s.spec_bytes()),
    {
        let bytes = s.as_bytes();
        let mut ops: Vec<DrawOp> = Vec::new();
        let mut i: usize = 0;
        proof {
            assert(bytes@.take(0) =~= Seq::<u8>::empty());
        }
        while i < bytes.len()
            invariant
                i <= bytes@.len(),
                bytes@ == s.spec_bytes(),
                writer_wf(self@),
                (self@, ops@) == write_bytes_effect(old(self)@, bytes@.take(i as int)),
            decreases bytes@.len() - i,
        {
            let b = bytes[i];
            let shown = if (0x20 <= b && b <= 0x7e) || b == 10 {
                b
            } else {
                0x20
            };
            let ghost before = ops@;
            let more = self.write_byte(shown);
            let mut k: usize = 0;
            while k < more.len()
                invariant
                    k <= more@.len(),
                    ops@ == before + more@.take(k as int),
                decreases more@.len() - k,
            {
                ops.push(more[k]);
                k = k + 1;
                proof {
                    assert(ops@ =~= before + more@.take(k as int));
                }
            }
            proof {
                assert(more@.take(more@.len() as int) =~= more@);
                assert(bytes@.take(i + 1).drop_last() =~= bytes@.take(i as int));
                assert(bytes@.take(i + 1).last() == b);
            }
            i = i + 1;
        }
        proof {
            assert(bytes@.take(i as int) =~= bytes@);
        }
        ops
    }

    /// Puts the cursor home; the caller paints the screen black.
    pub fn clear_screen(&mut self) -> (r: DrawOp)
        ensures
            final(self)@ == (WriterView { row: 0, column: 0, ..old(self)@ }),
            r == DrawOp::Clear,
    {
        self.row = 0;
        self.column = 0;
        DrawOp::Clear
    }
}

} // verus!
