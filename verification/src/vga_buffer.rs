use vstd::prelude::*;
use volatile::Volatile;
use vstd::string::StringSliceAdditionalSpecFns;

verus! {

#[verifier::external_type_specification]
#[verifier::external_body]
#[verifier::reject_recursive_types(T)]
pub struct ExVolatile<T: Copy>(Volatile<T>);

/// The value a volatile screen cell holds.
pub uninterp spec fn cell_value(cell: Volatile<ScreenChar>) -> ScreenChar;

/// `Volatile::new`: a cell that holds `value`.
#[verifier::external_body]
fn new_cell(value: ScreenChar) -> (r: Volatile<ScreenChar>)
    ensures
        cell_value(r) == value,
{
    Volatile::new(value)
}

/// `Volatile::read`: the value the cell holds.
#[verifier::external_body]
fn read_cell(cell: &Volatile<ScreenChar>) -> (r: ScreenChar)
    ensures
        r == cell_value(*cell),
{
    cell.read()
}

/// `Volatile::write`: afterwards the cell holds `value`.
#[verifier::external_body]
fn write_cell(cell: &mut Volatile<ScreenChar>, value: ScreenChar)
    ensures
        cell_value(*final(cell)) == value,
{
    cell.write(value)
}

/// The sixteen colours of the VGA text mode.
#[derive(Debug, Clone, Copy, PartialEq, Eq, Structural)]
pub enum Color {
    Black,
    Blue,
    Green,
    Cyan,
    Red,
    Megenta,
    Brown,
    LightGray,
    DarkGray,
    LightBlue,
    LightGreen,
    LightCyan,
    Pink,
    Yellow,
    White,
}

/// The hardware number of a colour.
pub open spec fn color_number(c: Color) -> u8 {
    match c {
        Color::Black => 0,
        Color::Blue => 1,
        Color::Green => 2,
        Color::Cyan => 3,
        Color::Red => 4,
        Color::Megenta => 5,
        Color::Brown => 6,
        Color::LightGray => 7,
        Color::DarkGray => 8,
        Color::LightBlue => 9,
        Color::LightGreen => 10,
        Color::LightCyan => 12,
        Color::Pink => 13,
        Color::Yellow => 14,
        Color::White => 15,
    }
}

impl Color {
    /// The hardware number of the colour.
    pub fn as_u8(self) -> (r: u8)
        ensures
            r == color_number(self),
            r < 16,
    {
        match self {
            Color::Black => 0,
            Color::Blue => 1,
            Color::Green => 2,
            Color::Cyan => 3,
            Color::Red => 4,
            Color::Megenta => 5,
            Color::Brown => 6,
            Color::LightGray => 7,
            Color::DarkGray => 8,
            Color::LightBlue => 9,
            Color::LightGreen => 10,
            Color::LightCyan => 12,
            Color::Pink => 13,
            Color::Yellow => 14,
            Color::White => 15,
        }
    }
}

/// A foreground and a background colour packed in one byte: background in
/// the high four bits, foreground in the low four.
#[derive(Debug, Clone, Copy, PartialEq, Eq, Structural)]
pub struct ColorCode(pub u8);

impl ColorCode {
    pub fn new(foreground: Color, background: Color) -> (r: ColorCode)
        ensures
            r.0 == color_number(background) * 16 + color_number(foreground),
    {
        let fg = foreground.as_u8();
        let bg = background.as_u8();
        assert((bg << 4u8) | fg == bg * 16 + fg) by (bit_vector)
            requires
                fg < 16,
                bg < 16;
        ColorCode(bg << 4 | fg)
    }
}

/// A character cell of the screen: a code page 437 byte and its colours.
#[derive(Debug, Clone, Copy, PartialEq, Eq, Structural)]
pub struct ScreenChar {
    pub ascii_character: u8,
    pub color_code: ColorCode,
}

pub const BUFFER_HEIGHT: usize = 25;
pub const BUFFER_WIDTH: usize = 80;

/// The character cells of the screen, row by row.
pub struct Buffer {
    chars: Vec<Volatile<ScreenChar>>,
}

/// What a writer shows: the cursor column in the bottom row, the colour it
/// writes with, and the screen's cells row by row.
#[verifier::ext_equal]
pub struct WriterState {
    pub column: int,
    pub color: ColorCode,
    pub screen: Seq<ScreenChar>,
}

/// The index of the cell at `row`, `col`.
pub open spec fn cell_index(row: int, col: int) -> int {
    row * BUFFER_WIDTH + col
}

/// A space in colour `color`.
pub open spec fn blank(color: ColorCode) -> ScreenChar {
    ScreenChar { ascii_character: 32u8, color_code: color }
}

/// Every row moves up by one, the top row is lost, the bottom row becomes
/// blank and the cursor goes to its start.
pub open spec fn spec_new_line(w: WriterState) -> WriterState {
    WriterState {
        column: 0,
        screen: Seq::new(w.screen.len(), |i: int|
            if i < cell_index(BUFFER_HEIGHT - 1, 0) { w.screen[i + BUFFER_WIDTH] } else { blank(w.color) }),
        ..w
    }
}

/// A newline starts a new line; any other byte goes at the cursor in the
/// bottom row, after a new line where that row is full.
pub open spec fn spec_write_byte(w: WriterState, byte: u8) -> WriterState {
    if byte == 10 {
        spec_new_line(w)
    } else {
        let w1 = if w.column >= BUFFER_WIDTH { spec_new_line(w) } else { w };
        WriterState {
            column: w1.column + 1,
            screen: w1.screen.update(
                cell_index(BUFFER_HEIGHT - 1, w1.column),
                ScreenChar { ascii_character: byte, color_code: w1.color },
            ),
            ..w1
        }
    }
}

/// The byte written for `byte`: printable ASCII and newline as they are,
/// anything else as the block character 0xfe.
pub open spec fn printable(byte: u8) -> u8 {
    if (0x20 <= byte && byte <= 0x7e) || byte == 10 { byte } else { 0xfe }
}

/// The writer after writing `bytes` in order.
pub open spec fn spec_write_bytes(w: WriterState, bytes: Seq<u8>) -> WriterState
    decreases bytes.len(),
{
    if bytes.len() == 0 {
        w
    } else {
        spec_write_byte(spec_write_bytes(w, bytes.drop_last()), printable(bytes.last()))
    }
}

/// Text that fits in the rest of the bottom row and holds no newline and no
/// unprintable byte appears there as it is, after the cursor, and the cursor
/// moves past it; the rest of the screen stays as it was.
pub proof fn lemma_write_within_line(w: WriterState, bytes: Seq<u8>)
    requires
        w.wf(),
        w.column + bytes.len() <= BUFFER_WIDTH,
        forall|i: int| 0 <= i < bytes.len() ==> 0x20 <= #[trigger] bytes[i] <= 0x7e,
    ensures
        spec_write_bytes(w, bytes).wf(),
        spec_write_bytes(w, bytes).column == w.column + bytes.len(),
        spec_write_bytes(w, bytes).color == w.color,
        forall|i: int| 0 <= i < bytes.len() ==>
            #[trigger] spec_write_bytes(w, bytes).screen[cell_index(BUFFER_HEIGHT - 1, w.column + i)]
                == (ScreenChar { ascii_character: bytes[i], color_code: w.color }),
        forall|k: int| 0 <= k < BUFFER_HEIGHT * BUFFER_WIDTH
            && !(cell_index(BUFFER_HEIGHT - 1, w.column) <= k < cell_index(BUFFER_HEIGHT - 1, w.column + bytes.len()))
            ==> #[trigger] spec_write_bytes(w, bytes).screen[k] == w.screen[k],
    decreases bytes.len(),
{
    if bytes.len() > 0 {
        let prefix = bytes.drop_last();
        assert forall|i: int| 0 <= i < prefix.len() implies 0x20 <= #[trigger] prefix[i] <= 0x7e by {
            assert(prefix[i] == bytes[i]);
        }
        lemma_write_within_line(w, prefix);
        let w1 = spec_write_bytes(w, prefix);
        assert(printable(bytes.last()) == bytes.last());
        assert forall|i: int| 0 <= i < bytes.len() implies
            #[trigger] spec_write_bytes(w, bytes).screen[cell_index(BUFFER_HEIGHT - 1, w.column + i)]
                == (ScreenChar { ascii_character: bytes[i], color_code: w.color }) by {
            if i < prefix.len() {
                assert(prefix[i] == bytes[i]);
                assert(w1.screen[cell_index(BUFFER_HEIGHT - 1, w.column + i)]
                    == (ScreenChar { ascii_character: prefix[i], color_code: w.color }));
            }
        }
    }
}

/// Writing one byte moves the cursor to the start of the line for a newline
/// and otherwise one past the written cell, at most to the end of the line;
/// the colour stays, and only the bottom row is written unless the rows move
/// up by one.
pub proof fn lemma_write_byte_effect(w: WriterState, byte: u8)
    requires
        w.wf(),
    ensures
        spec_write_byte(w, byte).wf(),
        spec_write_byte(w, byte).color == w.color,
        byte == 10 ==> spec_write_byte(w, byte).column == 0,
        byte != 10 ==> 1 <= spec_write_byte(w, byte).column <= BUFFER_WIDTH,
        byte != 10 && w.column < BUFFER_WIDTH ==> forall|k: int|
            0 <= k < cell_index(BUFFER_HEIGHT - 1, 0) ==> #[trigger] spec_write_byte(w, byte).screen[k] == w.screen[k],
{
}

/// `k` newline bytes.
pub open spec fn newlines(k: nat) -> Seq<u8> {
    Seq::new(k, |i: int| 10u8)
}

/// Writing `k` newlines (fewer than the screen's rows) moves every row up
/// by `k`: the row `r` then shows what row `r + k` showed, the bottom `k`
/// rows are blank, and the cursor is at the start of the bottom row. In
/// particular the bottom row reaches the top row after `BUFFER_HEIGHT - 1`
/// newlines.
pub proof fn lemma_newlines_scroll(w: WriterState, k: nat)
    requires
        w.wf(),
        k < BUFFER_HEIGHT,
    ensures
        spec_write_bytes(w, newlines(k)).wf(),
        spec_write_bytes(w, newlines(k)).color == w.color,
        k > 0 ==> spec_write_bytes(w, newlines(k)).column == 0,
        forall|r: int, c: int| 0 <= r && r + k < BUFFER_HEIGHT && 0 <= c < BUFFER_WIDTH ==>
            #[trigger] spec_write_bytes(w, newlines(k)).screen[cell_index(r, c)] == w.screen[cell_index(r + k, c)],
        forall|r: int, c: int| BUFFER_HEIGHT - k <= r < BUFFER_HEIGHT && 0 <= c < BUFFER_WIDTH ==>
            #[trigger] spec_write_bytes(w, newlines(k)).screen[cell_index(r, c)] == blank(w.color),
    decreases k,
{
    if k == 0 {
        assert(newlines(0) =~= Seq::<u8>::empty());
    } else {
        let k1 = (k - 1) as nat;
        assert(newlines(k).drop_last() =~= newlines(k1));
        assert(newlines(k).last() == 10u8);
        lemma_newlines_scroll(w, k1);
        let prev = spec_write_bytes(w, newlines(k1));
        let now = spec_write_bytes(w, newlines(k));
        assert(now == spec_new_line(prev));
        assert forall|r: int, c: int| 0 <= r && r + k < BUFFER_HEIGHT && 0 <= c < BUFFER_WIDTH implies
            #[trigger] now.screen[cell_index(r, c)] == w.screen[cell_index(r + k, c)] by {
            assert(cell_index(r, c) + BUFFER_WIDTH == cell_index(r + 1, c));
            assert(prev.screen[cell_index(r + 1, c)] == w.screen[cell_index(r + 1 + k1, c)]);
        }
        assert forall|r: int, c: int| BUFFER_HEIGHT - k <= r < BUFFER_HEIGHT && 0 <= c < BUFFER_WIDTH implies
            #[trigger] now.screen[cell_index(r, c)] == blank(w.color) by {
            if r < BUFFER_HEIGHT - 1 {
                assert(cell_index(r, c) + BUFFER_WIDTH == cell_index(r + 1, c));
                assert(prev.screen[cell_index(r + 1, c)] == blank(w.color));
            }
        }
    }
}

/// Writing two pieces of text one after the other is writing them joined.
pub proof fn lemma_write_bytes_concat(w: WriterState, a: Seq<u8>, b: Seq<u8>)
    ensures
        spec_write_bytes(w, a + b) == spec_write_bytes(spec_write_bytes(w, a), b),
    decreases b.len(),
{
    if b.len() == 0 {
        assert(a + b =~= a);
    } else {
        assert((a + b).drop_last() =~= a + b.drop_last());
        assert((a + b).last() == b.last());
        lemma_write_bytes_concat(w, a, b.drop_last());
    }
}

impl WriterState {
    pub open spec fn wf(self) -> bool {
        &&& 0 <= self.column <= BUFFER_WIDTH
        &&& self.screen.len() == BUFFER_HEIGHT * BUFFER_WIDTH
    }
}

/// Writes text to the bottom row of the screen and scrolls up at the end of
/// a line.
pub struct Writer {
    column_position: usize,
    color_code: ColorCode,
    buffer: Buffer,
}

impl View for Writer {
    type V = WriterState;

    closed spec fn view(&self) -> WriterState {
        WriterState {
            column: self.column_position as int,
            color: self.color_code,
            screen: Seq::new(self.buffer.chars@.len(), |i: int| cell_value(self.buffer.chars@[i])),
        }
    }
}

impl Writer {
    pub closed spec fn wf(&self) -> bool {
        &&& self.column_position <= BUFFER_WIDTH
        &&& self.buffer.chars@.len() == BUFFER_HEIGHT * BUFFER_WIDTH
    }

    /// A well-formed writer shows a well-formed screen.
    pub proof fn lemma_view_wf(&self)
        requires
            self.wf(),
        ensures
            self@.wf(),
    {
    }

    /// A writer in colour `color_code` on a blank screen.
    pub fn new(color_code: ColorCode) -> (r: Writer)
        ensures
            r.wf(),
            r@.wf(),
            r@.column == 0,
            r@.color == color_code,
            r@.screen == Seq::new((BUFFER_HEIGHT * BUFFER_WIDTH) as nat, |i: int| blank(color_code)),
    {
        let mut chars: Vec<Volatile<ScreenChar>> = Vec::new();
        let mut i: usize = 0;
        while i < BUFFER_HEIGHT * BUFFER_WIDTH
            invariant
                i <= BUFFER_HEIGHT * BUFFER_WIDTH,
                chars@.len() == i,
                forall|j: int| 0 <= j < i ==> cell_value(#[trigger] chars@[j]) == blank(color_code),
            decreases BUFFER_HEIGHT * BUFFER_WIDTH - i,
        {
            chars.push(new_cell(ScreenChar { ascii_character: 0x20u8, color_code }));
            i = i + 1;
        }
        let r = Writer { column_position: 0, color_code, buffer: Buffer { chars } };
        proof {
            assert(r@.screen =~= Seq::new((BUFFER_HEIGHT * BUFFER_WIDTH) as nat, |i: int| blank(color_code)));
        }
        r
    }

    /// The cursor column in the bottom row.
    pub fn column_position(&self) -> (r: usize)
        ensures
            r == self@.column,
    {
        self.column_position
    }

    /// The character shown at `row`, `col`.
    pub fn read_char(&self, row: usize, col: usize) -> (r: ScreenChar)
        requires
            self.wf(),
            row < BUFFER_HEIGHT,
            col < BUFFER_WIDTH,
        ensures
            r == self@.screen[cell_index(row as int, col as int)],
    {
        read_cell(&self.buffer.chars[row * BUFFER_WIDTH + col])
    }

    /// Writes one byte: a newline starts a new line, any other byte goes at
    /// the cursor in the bottom row, after a new line where that row is full.
    /// The colour stays, and above the bottom row nothing changes unless the
    /// rows move up.
    pub fn write_byte(&mut self, byte: u8)
        requires
            old(self).wf(),
        ensures
            final(self).wf(),
            final(self)@.wf(),
            final(self)@ == spec_write_byte(old(self)@, byte),
            final(self)@.color == old(self)@.color,
            byte == 10 ==> final(self)@.column == 0,
            byte != 10 ==> 1 <= final(self)@.column <= BUFFER_WIDTH,
            byte != 10 && old(self)@.column < BUFFER_WIDTH ==> forall|k: int|
                0 <= k < cell_index(BUFFER_HEIGHT - 1, 0) ==> #[trigger] final(self)@.screen[k] == old(self)@.screen[k],
    {
        proof {
            lemma_write_byte_effect(self@, byte);
        }
        if byte == 0x0au8 {
            self.new_line();
        } else {
            if self.column_position >= BUFFER_WIDTH {
                self.new_line();
            }
            let row = BUFFER_HEIGHT - 1;
            let col = self.column_position;
            let color_code = self.color_code;
            let ghost before = self@;
            write_cell(&mut self.buffer.chars[row * BUFFER_WIDTH + col], ScreenChar { ascii_character: byte, color_code });
            self.column_position = self.column_position + 1;
            proof {
                assert(self@.screen =~= before.screen.update(
                    cell_index(BUFFER_HEIGHT - 1, before.column),
                    ScreenChar { ascii_character: byte, color_code: before.color },
                ));
            }
        }
    }

    /// Moves every row up by one and starts a blank bottom row.
    fn new_line(&mut self)
        requires
            old(self).wf(),
        ensures
            final(self).wf(),
            final(self)@ == spec_new_line(old(self)@),
    {
        let ghost old_screen = self@.screen;
        let mut row: usize = 1;
        while row < BUFFER_HEIGHT
            invariant
                self.wf(),
                self@.color == old(self)@.color,
                self@.column == old(self)@.column,
                old_screen == old(self)@.screen,
                1 <= row <= BUFFER_HEIGHT,
                forall|k: int| 0 <= k < (row - 1) * BUFFER_WIDTH ==> self@.screen[k] == old_screen[k + BUFFER_WIDTH],
                forall|k: int| (row - 1) * BUFFER_WIDTH <= k < BUFFER_HEIGHT * BUFFER_WIDTH ==> self@.screen[k] == old_screen[k],
            decreases BUFFER_HEIGHT - row,
        {
            let mut col: usize = 0;
            while col < BUFFER_WIDTH
                invariant
                    self.wf(),
                    self@.color == old(self)@.color,
                    self@.column == old(self)@.column,
                    1 <= row < BUFFER_HEIGHT,
                    col <= BUFFER_WIDTH,
                    forall|k: int| 0 <= k < (row - 1) * BUFFER_WIDTH + col ==> self@.screen[k] == old_screen[k + BUFFER_WIDTH],
                    forall|k: int| (row - 1) * BUFFER_WIDTH + col <= k < BUFFER_HEIGHT * BUFFER_WIDTH ==> self@.screen[k] == old_screen[k],
                decreases BUFFER_WIDTH - col,
            {
                let character = read_cell(&self.buffer.chars[row * BUFFER_WIDTH + col]);
                let ghost prev = self@.screen;
                write_cell(&mut self.buffer.chars[(row - 1) * BUFFER_WIDTH + col], character);
                proof {
                    assert(self@.screen =~= prev.update((row - 1) * BUFFER_WIDTH + col, character));
                }
                col = col + 1;
            }
            row = row + 1;
        }
        self.clear_row(BUFFER_HEIGHT - 1);
        self.column_position = 0;
        proof {
            assert(self@.screen =~= spec_new_line(old(self)@).screen);
        }
    }

    /// Fills `row` with spaces in the writer's colour.
    fn clear_row(&mut self, row: usize)
        requires
            old(self).wf(),
            row < BUFFER_HEIGHT,
        ensures
            final(self).wf(),
            final(self)@.column == old(self)@.column,
            final(self)@.color == old(self)@.color,
            final(self)@.screen == Seq::new(old(self)@.screen.len(), |i: int|
                if cell_index(row as int, 0) <= i < cell_index(row as int + 1, 0) { blank(old(self)@.color) }
                else { old(self)@.screen[i] }),
    {
        let space = ScreenChar { ascii_character: 0x20u8, color_code: self.color_code };
        let mut col: usize = 0;
        while col < BUFFER_WIDTH
            invariant
                self.wf(),
                self@.color == old(self)@.color,
                self@.column == old(self)@.column,
                row < BUFFER_HEIGHT,
                col <= BUFFER_WIDTH,
                space == blank(old(self)@.color),
                forall|k: int| 0 <= k < BUFFER_HEIGHT * BUFFER_WIDTH ==> #[trigger] self@.screen[k] ==
                    if cell_index(row as int, 0) <= k < cell_index(row as int, col as int) { blank(old(self)@.color) }
                    else { old(self)@.screen[k] },
            decreases BUFFER_WIDTH - col,
        {
            let ghost prev = self@.screen;
            write_cell(&mut self.buffer.chars[row * BUFFER_WIDTH + col], space);
            proof {
                assert(self@.screen =~= prev.update(row * BUFFER_WIDTH + col, space));
            }
            col = col + 1;
        }
        proof {
            assert(self@.screen =~= Seq::new(old(self)@.screen.len(), |i: int|
                if cell_index(row as int, 0) <= i < cell_index(row as int + 1, 0) { blank(old(self)@.color) }
                else { old(self)@.screen[i] }));
        }
    }

    /// Writes the bytes of `s`: printable ASCII and newlines as they are,
    /// every other byte as the block character 0xfe.
    pub fn write_string(&mut self, s: &str)
        requires
            old(self).wf(),
        ensures
            final(self).wf(),
            final(self)@.wf(),
            final(self)@ == spec_write_bytes(old(self)@, s.spec_bytes()),
    {
        let bytes = s.as_bytes();
        let mut i: usize = 0;
        while i < bytes.len()
            invariant
                self.wf(),
                bytes@ == s.spec_bytes(),
                i <= bytes@.len(),
                self@ == spec_write_bytes(old(self)@, bytes@.take(i as int)),
            decreases bytes@.len() - i,
        {
            let byte = bytes[i];
            proof {
                assert(bytes@.take(i as int + 1).drop_last() =~= bytes@.take(i as int));
            }
            match byte {
                0x20..=0x7e | 0x0au8 => self.write_byte(byte),
                _ => self.write_byte(0xfe),
            }
            i = i + 1;
        }
        proof {
            assert(bytes@.take(i as int) =~= bytes@);
        }
    }
}

} // verus!
