//! The text display: 25 rows of 80 characters, each with a colour, a place
//! at which the next character goes, and the cursor of the hardware.

use vstd::prelude::*;

verus! {

/// Characters in a row.
pub const BUFFER_WIDTH: usize = 80;

/// Rows on the screen.
pub const BUFFER_HEIGHT: usize = 25;

/// A colour of the text display.
#[derive(Debug, Clone, Copy, PartialEq, Eq, Structural)]
pub enum Color {
    Black,
    Blue,
    Green,
    Cyan,
    Red,
    Magenta,
    Brown,
    LightGray,
    DarkGray,
    LightBlue,
    LightGreen,
    LightCyan,
    LightRed,
    Pink,
    Yellow,
    White,
}

impl Color {
    /// The number of the colour on the hardware.
    pub open spec fn number(self) -> u8 {
        match self {
            Color::Black => 0,
            Color::Blue => 1,
            Color::Green => 2,
            Color::Cyan => 3,
            Color::Red => 4,
            Color::Magenta => 5,
            Color::Brown => 6,
            Color::LightGray => 7,
            Color::DarkGray => 8,
            Color::LightBlue => 9,
            Color::LightGreen => 10,
            Color::LightCyan => 11,
            Color::LightRed => 12,
            Color::Pink => 13,
            Color::Yellow => 14,
            Color::White => 15,
        }
    }

    /// The number of the colour on the hardware.
    pub fn value(self) -> (number: u8)
        ensures
            number == self.number(),
    {
        match self {
            Color::Black => 0,
            Color::Blue => 1,
            Color::Green => 2,
            Color::Cyan => 3,
            Color::Red => 4,
            Color::Magenta => 5,
            Color::Brown => 6,
            Color::LightGray => 7,
            Color::DarkGray => 8,
            Color::LightBlue => 9,
            Color::LightGreen => 10,
            Color::LightCyan => 11,
            Color::LightRed => 12,
            Color::Pink => 13,
            Color::Yellow => 14,
            Color::White => 15,
        }
    }
}

/// The colours of a character: the background in the upper four bits, the
/// foreground in the lower four.
#[derive(Debug, Clone, Copy, PartialEq, Eq, Structural)]
pub struct ColorCode(pub u8);

impl ColorCode {
    /// The colour code of `foreground` on `background`.
    pub fn new(foreground: Color, background: Color) -> (code: ColorCode)
        ensures
            code.0 == background.number() * 16 + foreground.number(),
    {
        let back = background.value();
        let fore = foreground.value();
        assert((back << 4 | fore) as int == back * 16 + fore) by (bit_vector)
            requires
                back < 16,
                fore < 16,
        ;
        ColorCode(back << 4 | fore)
    }
}

/// A character on the screen.
#[derive(Debug, Clone, Copy, PartialEq, Eq, Structural)]
pub struct ScreenChar {
    pub ascii_character: u8,
    pub color_code: ColorCode,
}

/// The screen as it is shown: where the next character goes, and the
/// characters, row by row.
pub struct Screen {
    pub row: int,
    pub column: int,
    pub chars: Seq<ScreenChar>,
}

/// The blank in the colours `color_code`.
pub open spec fn blank(color_code: ColorCode) -> ScreenChar {
    ScreenChar { ascii_character: 0x20, color_code }
}

/// `chars` moved up by one row: the first row is gone, the last is blank.
pub open spec fn scrolled(chars: Seq<ScreenChar>, color_code: ColorCode) -> Seq<ScreenChar> {
    Seq::new(
        2000,
        |i: int|
            if i < 1920 {
                chars[i + 80]
            } else {
                blank(color_code)
            },
    )
}

/// `screen` after a new line: the place moves to the start of the next row;
/// on the last row the rows move up instead.
pub open spec fn line_broken(screen: Screen, color_code: ColorCode) -> Screen {
    if screen.row + 1 >= 25 {
        Screen { row: screen.row, column: 0, chars: scrolled(screen.chars, color_code) }
    } else {
        Screen { row: screen.row + 1, column: 0, chars: screen.chars }
    }
}

/// `screen` after the byte `byte` was written in the colours `color_code`:
/// a line feed breaks the line; any other byte is put at the place, after a
/// new line where the row is full, and the place moves on by one.
pub open spec fn written(screen: Screen, byte: u8, color_code: ColorCode) -> Screen {
    if byte == 0x0a {
        line_broken(screen, color_code)
    } else {
        let at = if screen.column >= 80 {
            line_broken(screen, color_code)
        } else {
            screen
        };
        Screen {
            row: at.row,
            column: at.column + 1,
            chars: at.chars.update(
                at.row * 80 + at.column,
                ScreenChar { ascii_character: byte, color_code },
            ),
        }
    }
}

/// `screen` after the bytes `bytes` were written one by one.
pub open spec fn written_all(screen: Screen, bytes: Seq<u8>, color_code: ColorCode) -> Screen
    decreases bytes.len(),
{
    if bytes.len() == 0 {
        screen
    } else {
        written(written_all(screen, bytes.drop_last(), color_code), bytes.last(), color_code)
    }
}

/// The two commands that move the cursor of the hardware to the place
/// `(row, column)`: each names a register of the display controller and the
/// byte for it, the upper byte of the index of the place first.
pub fn move_cursor(row: usize, column: usize) -> (commands: [(u8, u8); 2])
    requires
        row < 25,
        column <= 80,
    ensures
        commands[0] == (14u8, ((row * 80 + column) / 256) as u8),
        commands[1] == (15u8, ((row * 80 + column) % 256) as u8),
{
    let cursor_index = row * BUFFER_WIDTH + column;
    assert(cursor_index >> 8 == cursor_index / 256 && cursor_index & 0xff == cursor_index % 256)
        by (bit_vector)
        requires
            cursor_index <= 2000,
    ;
    [(14, (cursor_index >> 8) as u8), (15, (cursor_index & 0xff) as u8)]
}

/// Writes text to the screen.
pub struct Writer {
    row: usize,
    column: usize,
    color_code: ColorCode,
    buffer: Vec<ScreenChar>,
}

impl Writer {
    #[verifier::type_invariant]
    spec fn on_screen(self) -> bool {
        self.row < 25 && self.column <= 80 && self.buffer@.len() == 2000
    }

    /// The screen as it is shown.
    pub closed spec fn screen(&self) -> Screen {
        Screen { row: self.row as int, column: self.column as int, chars: self.buffer@ }
    }

    /// The colours in which the writer writes.
    pub closed spec fn colors(&self) -> ColorCode {
        self.color_code
    }

    /// A writer in the colours `color_code` at the top left of a blank
    /// screen.
    pub fn new(color_code: ColorCode) -> (writer: Writer)
        ensures
            writer.colors() == color_code,
            writer.screen().row == 0,
            writer.screen().column == 0,
            writer.screen().chars == Seq::new(2000, |i: int| blank(color_code)),
    {
        let mut buffer: Vec<ScreenChar> = Vec::new();
        let mut i: usize = 0;
        while i < 2000
            invariant
                i <= 2000,
                buffer@.len() == i,
                forall|k: int| 0 <= k < i ==> buffer@[k] == blank(color_code),
            decreases 2000 - i,
        {
            buffer.push(ScreenChar { ascii_character: 0x20, color_code });
            i += 1;
        }
        assert(buffer@ =~= Seq::new(2000, |i: int| blank(color_code)));
        Writer { row: 0, column: 0, color_code, buffer }
    }

    /// The row and the column at which the next character goes.
    pub fn position(&self) -> (place: (usize, usize))
        ensures
            place.0 == self.screen().row,
            place.1 == self.screen().column,
            place.0 < 25,
            place.1 <= 80,
    {
        proof {
            use_type_invariant(self);
        }
        (self.row, self.column)
    }

    /// The character at `row` and `column`.
    pub fn char_at(&self, row: usize, column: usize) -> (character: ScreenChar)
        requires
            row < 25,
            column < 80,
        ensures
            character == self.screen().chars[row * 80 + column],
    {
        proof {
            use_type_invariant(self);
        }
        self.buffer[row * BUFFER_WIDTH + column]
    }

    /// Writes `byte` at the place and moves the place on.  Gives the
    /// commands that move the cursor of the hardware there.
    #[verifier::rlimit(30)]
    pub fn write_byte(&mut self, byte: u8) -> (commands: [(u8, u8); 2])
        ensures
            final(self).colors() == old(self).colors(),
            final(self).screen() == written(old(self).screen(), byte, old(self).colors()),
            commands[0] == (
                14u8,
                ((final(self).screen().row * 80 + final(self).screen().column) / 256) as u8,
            ),
            commands[1] == (
                15u8,
                ((final(self).screen().row * 80 + final(self).screen().column) % 256) as u8,
            ),
    {
        proof {
            use_type_invariant(&*self);
        }
        if byte == 0x0a {
            self.new_line();
        } else {
            if self.column >= BUFFER_WIDTH {
                self.new_line();
            }
            proof {
                use_type_invariant(&*self);
            }
            let row = self.row;
            let col = self.column;
            let color_code = self.color_code;
            self.buffer[row * BUFFER_WIDTH + col] = ScreenChar {
                ascii_character: byte,
                color_code,
            };
            self.column += 1;
        }
        proof {
            use_type_invariant(&*self);
        }
        move_cursor(self.row, self.column)
    }

    fn new_line(&mut self)
        ensures
            final(self).colors() == old(self).colors(),
            final(self).screen() == line_broken(old(self).screen(), old(self).colors()),
            final(self).screen().column == 0,
        no_unwind
    {
        proof {
            use_type_invariant(&*self);
        }
        self.column = 0;
        if self.row + 1 >= BUFFER_HEIGHT {
            self.scroll();
        } else {
            self.row += 1;
        }
    }

    #[verifier::rlimit(30)]
    fn scroll(&mut self)
        ensures
            final(self).colors() == old(self).colors(),
            final(self).screen().row == old(self).screen().row,
            final(self).screen().column == old(self).screen().column,
            final(self).screen().chars == scrolled(old(self).screen().chars, old(self).colors()),
        no_unwind
    {
        proof {
            use_type_invariant(&*self);
        }
        // Move all but the first row up one row
        let mut index: usize = 0;
        while index < 1920
            invariant
                index <= 1920,
                self.buffer@.len() == 2000,
                self.row == old(self).row,
                self.column == old(self).column,
                self.row < 25,
                self.column <= 80,
                self.color_code == old(self).color_code,
                forall|k: int| 0 <= k < index ==> self.buffer@[k] == old(self).buffer@[k + 80],
                forall|k: int| index <= k < 2000 ==> self.buffer@[k] == old(self).buffer@[k],
            decreases 1920 - index,
        {
            let character = self.buffer[index + BUFFER_WIDTH];
            self.buffer[index] = character;
            index += 1;
        }
        // Clear the last row
        let blank = ScreenChar { ascii_character: 0x20, color_code: self.color_code };
        while index < 2000
            invariant
                1920 <= index <= 2000,
                self.buffer@.len() == 2000,
                self.row == old(self).row,
                self.column == old(self).column,
                self.row < 25,
                self.column <= 80,
                self.color_code == old(self).color_code,
                blank == self::blank(self.color_code),
                forall|k: int| 0 <= k < 1920 ==> self.buffer@[k] == old(self).buffer@[k + 80],
                forall|k: int| 1920 <= k < index ==> self.buffer@[k] == blank,
            decreases 2000 - index,
        {
            self.buffer[index] = blank;
            index += 1;
        }
        assert(self.buffer@ =~= scrolled(old(self).buffer@, old(self).color_code));
    }

    /// Blanks the screen and moves the place to the top left.  Gives the
    /// commands that move the cursor of the hardware there.
    pub fn clear(&mut self) -> (commands: [(u8, u8); 2])
        ensures
            final(self).colors() == old(self).colors(),
            final(self).screen().row == 0,
            final(self).screen().column == 0,
            final(self).screen().chars == Seq::new(2000, |i: int| blank(old(self).colors())),
            commands[0] == (14u8, 0u8),
            commands[1] == (15u8, 0u8),
    {
        proof {
            use_type_invariant(&*self);
        }
        let blank = ScreenChar { ascii_character: 0x20, color_code: self.color_code };
        let mut index: usize = 0;
        while index < 2000
            invariant
                index <= 2000,
                self.buffer@.len() == 2000,
                self.row < 25,
                self.column <= 80,
                self.color_code == old(self).color_code,
                blank == self::blank(self.color_code),
                forall|k: int| 0 <= k < index ==> self.buffer@[k] == blank,
            decreases 2000 - index,
        {
            self.buffer[index] = blank;
            index += 1;
        }
        self.row = 0;
        self.column = 0;
        assert(self.buffer@ =~= Seq::new(2000, |i: int| self::blank(old(self).colors())));
        move_cursor(self.row, self.column)
    }

    /// Writes the bytes of `bytes` one by one.  Gives the commands that move
    /// the cursor of the hardware to where the place is then; `None` where
    /// there are no bytes.
    #[verifier::rlimit(30)]
    pub fn write_str(&mut self, bytes: &[u8]) -> (commands: Option<[(u8, u8); 2]>)
        ensures
            final(self).colors() == old(self).colors(),
            final(self).screen() == written_all(old(self).screen(), bytes@, old(self).colors()),
            commands.is_some() <==> bytes@.len() > 0,
            commands matches Some(c) ==> c[0] == (
                14u8,
                ((final(self).screen().row * 80 + final(self).screen().column) / 256) as u8,
            ) && c[1] == (
                15u8,
                ((final(self).screen().row * 80 + final(self).screen().column) % 256) as u8,
            ),
    {
        let mut commands: Option<[(u8, u8); 2]> = None;
        let mut i: usize = 0;
        while i < bytes.len()
            invariant
                i <= bytes@.len(),
                self.colors() == old(self).colors(),
                self.screen() == written_all(
                    old(self).screen(),
                    bytes@.take(i as int),
                    old(self).colors(),
                ),
                commands.is_some() <==> i > 0,
                commands matches Some(c) ==> c[0] == (
                    14u8,
                    ((self.screen().row * 80 + self.screen().column) / 256) as u8,
                ) && c[1] == (
                    15u8,
                    ((self.screen().row * 80 + self.screen().column) % 256) as u8,
                ),
            decreases bytes@.len() - i,
        {
            assert(bytes@.take(i + 1).drop_last() =~= bytes@.take(i as int));
            commands = Some(self.write_byte(bytes[i]));
            i += 1;
        }
        assert(bytes@.take(i as int) =~= bytes@);
        commands
    }
}

} // verus!
