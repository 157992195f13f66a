//! A text console on a framebuffer: glyphs of a fixed-width font, drawn
//! pixel by pixel at a cursor that moves from left to right and from line to
//! line.

use vstd::prelude::*;
use noto_sans_mono_bitmap::{get_raster, FontWeight, RasterHeight};

verus! {

/// The height in pixels of a glyph.
pub const FONT_HEIGHT: usize = 20;

/// The width in pixels of a glyph.
pub const FONT_WIDTH: usize = 9;

/// The number of pixels between two glyphs of a line.
pub const CHAR_SPACING: usize = 0;

/// The number of pixels between two lines.
pub const LINE_SPACING: usize = 1;

/// The number of pixels between the border of the screen and the text.
pub const BORDER_PADDING: usize = 2;

/// The character that is drawn in place of one that the font does not know.
pub const REPLACEMENT: char = '\u{fffd}';

/// The least width in pixels of a graphics mode that the console is shown in.
pub const MIN_MODE_WIDTH: usize = 800;

/// The least height in pixels of a graphics mode that the console is shown in.
pub const MIN_MODE_HEIGHT: usize = 600;

/// Whether a graphics mode of `width` by `height` pixels is large enough for
/// the console.
pub fn mode_suitable(width: usize, height: usize) -> (suitable: bool)
    ensures
        suitable == (width >= MIN_MODE_WIDTH && height >= MIN_MODE_HEIGHT),
{
    width >= MIN_MODE_WIDTH && height >= MIN_MODE_HEIGHT
}

/// How the colours of a pixel lie in the framebuffer.
#[derive(Clone, Copy, Debug, PartialEq, Eq, Structural)]
pub enum PixelFormat {
    /// One byte each of red, green and blue, and one unused byte.
    Rgb,
    /// One byte each of blue, green and red, and one unused byte.
    Bgr,
    /// Colours given by bit masks.
    Bitmask,
    /// No framebuffer to draw into.
    BltOnly,
}

/// The minimal required information for the framebuffer to function.
#[derive(Clone, Copy, Debug, PartialEq, Eq, Structural)]
pub struct FramebufferInfo {
    /// The number of pixels from the start of one line to the start of the next.
    pub stride: usize,
    pub pixel_format: PixelFormat,
    /// The number of pixels of a line that are shown.
    pub width: usize,
}

/// Why a character was not drawn.
#[derive(Clone, Copy, Debug, PartialEq, Eq, Structural)]
pub enum DrawError {
    /// The pixel format is neither RGB nor BGR.
    UnsupportedPixelFormat,
    /// A pixel or the cursor lies outside of what can be addressed.
    OutOfBounds,
    /// The font has no glyph for the replacement character.
    NoGlyph,
}

/// A console as mathematics: the bytes of the framebuffer, its layout, and
/// the place of the cursor.
pub struct Console {
    pub buffer: Seq<u8>,
    pub info: FramebufferInfo,
    pub x: usize,
    pub y: usize,
}

/// The rows of intensities of the glyph that the font has for a character, if
/// it has one.
pub uninterp spec fn glyph_of(character: char) -> Option<Seq<Seq<u8>>>;

/// The rows of a glyph as sequences.
pub open spec fn rows_of(raster: &[&[u8]]) -> Seq<Seq<u8>> {
    raster@.map_values(|row: &[u8]| row@)
}

/// Calls `noto_sans_mono_bitmap::get_raster` for the regular weight and the
/// height of 20 pixels, and hands out the rows of the raster: for each line of
/// the glyph the intensities of its pixels from left to right. The font gives
/// the same raster for the same character, and none for a character it does
/// not know.
#[verifier::external_body]
fn raster_of(character: char) -> (raster: Option<&'static [&'static [u8]]>)
    ensures
        match raster {
            Some(rows) => glyph_of(character) == Some(rows_of(rows)),
            None => glyph_of(character) is None,
        },
{
    get_raster(character, FontWeight::Regular, RasterHeight::Size20).map(|found| found.raster())
}

/// The place in the framebuffer of the first byte of the pixel in column `x`
/// of line `y`.
pub open spec fn pixel_offset(info: FramebufferInfo, x: int, y: int) -> int {
    (y * info.stride + x) * 4
}

/// Setting the pixel in column `x` of line `y` to the grey of `intensity`:
/// its three colours get the intensity and its fourth byte zero. It fails
/// where the pixel format is not supported, and where the column or the line
/// is no machine number or the pixel does not lie within the framebuffer.
pub open spec fn put_pixel(console: Console, x: int, y: int, intensity: u8) -> Result<
    Console,
    DrawError,
> {
    let at = pixel_offset(console.info, x, y);
    if console.info.pixel_format != PixelFormat::Rgb && console.info.pixel_format
        != PixelFormat::Bgr {
        Err(DrawError::UnsupportedPixelFormat)
    } else if x > usize::MAX || y > usize::MAX || at + 4 > console.buffer.len() {
        Err(DrawError::OutOfBounds)
    } else {
        Ok(
            Console {
                buffer: console.buffer.update(at, intensity).update(at + 1, intensity).update(
                    at + 2,
                    intensity,
                ).update(at + 3, 0),
                ..console
            },
        )
    }
}

/// Drawing the first `count` pixels of `row` from column `x` of line `y` on,
/// from left to right.
pub open spec fn draw_row(console: Console, row: Seq<u8>, count: nat, x: int, y: int) -> Result<
    Console,
    DrawError,
>
    decreases count,
{
    if count == 0 {
        Ok(console)
    } else {
        match draw_row(console, row, (count - 1) as nat, x, y) {
            Ok(drawn) => put_pixel(drawn, x + count - 1, y, row[count - 1]),
            Err(error) => Err(error),
        }
    }
}

/// Drawing the first `count` rows of `glyph` with its upper left corner in
/// column `x` of line `y`, from top to bottom.
pub open spec fn draw_glyph(console: Console, glyph: Seq<Seq<u8>>, count: nat, x: int, y: int) -> Result<
    Console,
    DrawError,
>
    decreases count,
{
    if count == 0 {
        Ok(console)
    } else {
        match draw_glyph(console, glyph, (count - 1) as nat, x, y) {
            Ok(drawn) => draw_row(
                drawn,
                glyph[count - 1],
                glyph[count - 1].len(),
                x,
                y + count - 1,
            ),
            Err(error) => Err(error),
        }
    }
}

/// Moving the cursor to the start of the next line.
pub open spec fn new_line(console: Console) -> Result<Console, DrawError> {
    if console.y + FONT_HEIGHT + LINE_SPACING > usize::MAX {
        Err(DrawError::OutOfBounds)
    } else {
        Ok(
            Console {
                x: BORDER_PADDING,
                y: (console.y + FONT_HEIGHT + LINE_SPACING) as usize,
                ..console
            },
        )
    }
}

/// Writing one character. A line feed moves the cursor to the start of the
/// next line, a carriage return to the start of its line. Any other
/// character is drawn at the cursor, after a move to the next line where the
/// glyph would reach the right border; the cursor then moves right by the
/// width of the glyph. The glyph is that of the character, or that of the
/// replacement character where the font does not know the character.
pub open spec fn write_char_spec(console: Console, character: char) -> Result<Console, DrawError> {
    if character == '\n' {
        new_line(console)
    } else if character == '\r' {
        Ok(Console { x: BORDER_PADDING, ..console })
    } else {
        let placed = if console.x + FONT_WIDTH + CHAR_SPACING >= console.info.width {
            new_line(console)
        } else {
            Ok(console)
        };
        match (placed, glyph_of(REPLACEMENT)) {
            (Err(error), _) => Err(error),
            (Ok(_), None) => Err(DrawError::NoGlyph),
            (Ok(at), Some(replacement)) => {
                let glyph = match glyph_of(character) {
                    Some(glyph) => glyph,
                    None => replacement,
                };
                match draw_glyph(at, glyph, glyph.len(), at.x as int, at.y as int) {
                    Err(error) => Err(error),
                    Ok(drawn) => if drawn.x + FONT_WIDTH + CHAR_SPACING > usize::MAX {
                        Err(DrawError::OutOfBounds)
                    } else {
                        Ok(Console { x: (drawn.x + FONT_WIDTH + CHAR_SPACING) as usize, ..drawn })
                    },
                }
            },
        }
    }
}

/// Writing the first `count` characters of `text`, one after the other.
pub open spec fn write_str_spec(console: Console, text: Seq<char>, count: nat) -> Result<
    Console,
    DrawError,
>
    decreases count,
{
    if count == 0 {
        Ok(console)
    } else {
        match write_str_spec(console, text, (count - 1) as nat) {
            Ok(written) => write_char_spec(written, text[count - 1]),
            Err(error) => Err(error),
        }
    }
}

/// The actual logger and its functionality.
pub struct FramebufferLogger<'a> {
    framebuffer: &'a mut [u8],
    graphics_mode_info: FramebufferInfo,
    cursor_position_x: usize,
    cursor_position_y: usize,
}

impl<'a> FramebufferLogger<'a> {
    /// The console as mathematics.
    pub closed spec fn view(&self) -> Console {
        Console {
            buffer: self.framebuffer@,
            info: self.graphics_mode_info,
            x: self.cursor_position_x,
            y: self.cursor_position_y,
        }
    }

    /// Creates a new instance with the provided framebuffer, information
    /// about it and default initial cursor position.
    pub fn new(buffer: &'a mut [u8], info: FramebufferInfo) -> (logger: Self)
        ensures
            logger@ == (Console {
                buffer: old(buffer)@,
                info,
                x: BORDER_PADDING,
                y: BORDER_PADDING,
            }),
    {
        FramebufferLogger {
            framebuffer: buffer,
            graphics_mode_info: info,
            cursor_position_x: BORDER_PADDING,
            cursor_position_y: BORDER_PADDING,
        }
    }

    /// Moves the cursor to the start of the next line.
    fn break_line(&mut self) -> (result: Result<(), DrawError>)
        ensures
            match new_line(old(self)@) {
                Ok(moved) => result is Ok && final(self)@ == moved,
                Err(error) => result == Err::<(), DrawError>(error) && final(self)@ == old(self)@,
            },
    {
        match self.cursor_position_y.checked_add(FONT_HEIGHT + LINE_SPACING) {
            Some(y) => {
                self.cursor_position_y = y;
                self.cursor_position_x = BORDER_PADDING;
                Ok(())
            },
            None => Err(DrawError::OutOfBounds),
        }
    }

    /// Inserts the specified character at the cursor's current position and
    /// advances the cursor to the next position. After a failure the cursor
    /// and the pixels drawn so far are left as they are.
    pub fn write_char(&mut self, character: char) -> (result: Result<(), DrawError>)
        ensures
            final(self)@.buffer.len() == old(self)@.buffer.len(),
            final(self)@.info == old(self)@.info,
            match write_char_spec(old(self)@, character) {
                Ok(written) => result is Ok && final(self)@ == written,
                Err(error) => result == Err::<(), DrawError>(error),
            },
    {
        if character == '\n' {
            return self.break_line();
        }
        if character == '\r' {
            self.cursor_position_x = BORDER_PADDING;
            return Ok(());
        }
        let fits = match self.cursor_position_x.checked_add(FONT_WIDTH + CHAR_SPACING) {
            Some(end) => end < self.graphics_mode_info.width,
            None => false,
        };
        if !fits {
            if let Err(error) = self.break_line() {
                return Err(error);
            }
        }
        let replacement = match raster_of(REPLACEMENT) {
            Some(replacement) => replacement,
            None => {
                return Err(DrawError::NoGlyph);
            },
        };
        let raster = match raster_of(character) {
            Some(raster) => raster,
            None => replacement,
        };
        if let Err(error) = self.draw(raster) {
            return Err(error);
        }
        match self.cursor_position_x.checked_add(FONT_WIDTH + CHAR_SPACING) {
            Some(x) => {
                self.cursor_position_x = x;
                Ok(())
            },
            None => Err(DrawError::OutOfBounds),
        }
    }

    /// Writes the characters of `text`, one after the other, up to the first
    /// that fails.
    pub fn write_str(&mut self, text: &str) -> (result: Result<(), DrawError>)
        ensures
            final(self)@.buffer.len() == old(self)@.buffer.len(),
            final(self)@.info == old(self)@.info,
            match write_str_spec(old(self)@, text@, text@.len()) {
                Ok(written) => result is Ok && final(self)@ == written,
                Err(error) => result == Err::<(), DrawError>(error),
            },
    {
        let ghost mut written: nat = 0;
        for character in characters: text.chars()
            invariant
                written == characters.index(),
                characters.seq() == text@,
                self@.buffer.len() == old(self)@.buffer.len(),
                self@.info == old(self)@.info,
                write_str_spec(old(self)@, text@, written) == Ok::<Console, DrawError>(self@),
        {
            if let Err(error) = self.write_char(character) {
                proof {
                    lemma_write_str_fails(old(self)@, text@, written + 1, text@.len());
                }
                return Err(error);
            }
            proof {
                written = written + 1;
            }
        }
        Ok(())
    }

    /// The place of the cursor: its column and its line.
    pub fn cursor(&self) -> (place: (usize, usize))
        ensures
            place == (self@.x, self@.y),
    {
        (self.cursor_position_x, self.cursor_position_y)
    }

    /// Draws the rows of `raster` with the upper left corner at the cursor.
    fn draw(&mut self, raster: &[&[u8]]) -> (result: Result<(), DrawError>)
        ensures
            final(self)@.buffer.len() == old(self)@.buffer.len(),
            final(self)@.info == old(self)@.info,
            final(self)@.x == old(self)@.x,
            final(self)@.y == old(self)@.y,
            match draw_glyph(
                old(self)@,
                rows_of(raster),
                raster@.len(),
                old(self)@.x as int,
                old(self)@.y as int,
            ) {
                Ok(drawn) => result is Ok && final(self)@ == drawn,
                Err(error) => result == Err::<(), DrawError>(error),
            },
    {
        let ghost glyph = rows_of(raster);
        let mut line: usize = 0;
        while line < raster.len()
            invariant
                line <= raster@.len(),
                glyph == rows_of(raster),
                self@.buffer.len() == old(self)@.buffer.len(),
                self@.info == old(self)@.info,
                self@.x == old(self)@.x,
                self@.y == old(self)@.y,
                draw_glyph(old(self)@, glyph, line as nat, self@.x as int, self@.y as int) == Ok::<
                    Console,
                    DrawError,
                >(self@),
            decreases raster@.len() - line,
        {
            let row = raster[line];
            assert(glyph[line as int] == row@);
            let ghost before = self@;
            let mut column: usize = 0;
            while column < row.len()
                invariant
                    column <= row@.len(),
                    line < raster@.len(),
                    self@.buffer.len() == old(self)@.buffer.len(),
                    self@.info == old(self)@.info,
                    self@.x == old(self)@.x,
                    self@.y == old(self)@.y,
                    before.x == self@.x,
                    before.y == self@.y,
                    draw_row(before, row@, column as nat, self@.x as int, self@.y + line) == Ok::<
                        Console,
                        DrawError,
                    >(self@),
                    glyph == rows_of(raster),
                    glyph[line as int] == row@,
                    draw_glyph(old(self)@, glyph, line as nat, self@.x as int, self@.y as int)
                        == Ok::<Console, DrawError>(before),
                decreases row@.len() - column,
            {
                let drawn = match (
                    self.cursor_position_x.checked_add(column),
                    self.cursor_position_y.checked_add(line),
                ) {
                    (Some(x), Some(y)) => self.set_pixel(x, y, row[column]),
                    _ => self.refuse_pixel(),
                };
                if let Err(error) = drawn {
                    assert(draw_row(before, row@, (column + 1) as nat, self@.x as int, self@.y + line)
                        == Err::<Console, DrawError>(error));
                    proof {
                        lemma_draw_row_fails(
                            before,
                            row@,
                            (column + 1) as nat,
                            row@.len(),
                            self@.x as int,
                            self@.y + line,
                        );
                    }
                    assert(draw_glyph(
                        old(self)@,
                        glyph,
                        (line + 1) as nat,
                        self@.x as int,
                        self@.y as int,
                    ) == Err::<Console, DrawError>(error));
                    proof {
                        lemma_draw_glyph_fails(
                            old(self)@,
                            glyph,
                            (line + 1) as nat,
                            raster@.len(),
                            self@.x as int,
                            self@.y as int,
                        );
                    }
                    return Err(error);
                }
                column += 1;
            }
            line += 1;
        }
        Ok(())
    }

    /// The error of a pixel whose column or line is no machine number.
    fn refuse_pixel(&self) -> (result: Result<(), DrawError>)
        ensures
            result == Err::<(), DrawError>(
                if self@.info.pixel_format != PixelFormat::Rgb && self@.info.pixel_format
                    != PixelFormat::Bgr {
                    DrawError::UnsupportedPixelFormat
                } else {
                    DrawError::OutOfBounds
                },
            ),
    {
        match self.graphics_mode_info.pixel_format {
            PixelFormat::Rgb | PixelFormat::Bgr => Err(DrawError::OutOfBounds),
            _ => Err(DrawError::UnsupportedPixelFormat),
        }
    }

    /// Sets a pixel with a given color at the specified framebuffer's
    /// position.
    fn set_pixel(&mut self, x: usize, y: usize, intensity: u8) -> (result: Result<(), DrawError>)
        ensures
            final(self)@.buffer.len() == old(self)@.buffer.len(),
            final(self)@.info == old(self)@.info,
            final(self)@.x == old(self)@.x,
            final(self)@.y == old(self)@.y,
            match put_pixel(old(self)@, x as int, y as int, intensity) {
                Ok(drawn) => result is Ok && final(self)@ == drawn,
                Err(error) => result == Err::<(), DrawError>(error),
            },
    {
        match self.graphics_mode_info.pixel_format {
            PixelFormat::Rgb | PixelFormat::Bgr => {},
            _ => {
                return Err(DrawError::UnsupportedPixelFormat);
            },
        }
        let length = self.framebuffer.len();
        let data_offset = match pixel_place(self.graphics_mode_info.stride, x, y) {
            Some(data_offset) => data_offset,
            None => {
                return Err(DrawError::OutOfBounds);
            },
        };
        if data_offset > length || length - data_offset < 4 {
            return Err(DrawError::OutOfBounds);
        }
        self.framebuffer[data_offset] = intensity;
        self.framebuffer[data_offset + 1] = intensity;
        self.framebuffer[data_offset + 2] = intensity;
        self.framebuffer[data_offset + 3] = 0;
        Ok(())
    }
}

/// Once writing a text has failed, it stays failed however many characters
/// follow.
proof fn lemma_write_str_fails(console: Console, text: Seq<char>, failed: nat, count: nat)
    requires
        failed <= count,
        write_str_spec(console, text, failed) is Err,
    ensures
        write_str_spec(console, text, count) == write_str_spec(console, text, failed),
    decreases count,
{
    if failed < count {
        lemma_write_str_fails(console, text, failed, (count - 1) as nat);
    }
}

/// Once drawing a row has failed, it stays failed however many pixels follow.
proof fn lemma_draw_row_fails(console: Console, row: Seq<u8>, failed: nat, count: nat, x: int, y: int)
    requires
        failed <= count,
        draw_row(console, row, failed, x, y) is Err,
    ensures
        draw_row(console, row, count, x, y) == draw_row(console, row, failed, x, y),
    decreases count,
{
    if failed < count {
        lemma_draw_row_fails(console, row, failed, (count - 1) as nat, x, y);
    }
}

/// Once drawing a glyph has failed, it stays failed however many rows follow.
proof fn lemma_draw_glyph_fails(
    console: Console,
    glyph: Seq<Seq<u8>>,
    failed: nat,
    count: nat,
    x: int,
    y: int,
)
    requires
        failed <= count,
        draw_glyph(console, glyph, failed, x, y) is Err,
    ensures
        draw_glyph(console, glyph, count, x, y) == draw_glyph(console, glyph, failed, x, y),
    decreases count,
{
    if failed < count {
        lemma_draw_glyph_fails(console, glyph, failed, (count - 1) as nat, x, y);
    }
}

/// The place in a framebuffer of the first byte of the pixel in column `x`
/// of line `y`, where it can be addressed.
fn pixel_place(stride: usize, x: usize, y: usize) -> (place: Option<usize>)
    ensures
        match place {
            Some(at) => at == (y * stride + x) * 4,
            None => (y * stride + x) * 4 > usize::MAX,
        },
{
    let line = match y.checked_mul(stride) {
        Some(line) => line,
        None => {
            assert((y * stride + x) * 4 > usize::MAX) by (nonlinear_arith)
                requires
                    y * stride > usize::MAX,
                    x >= 0,
            ;
            return None;
        },
    };
    let pixel = match line.checked_add(x) {
        Some(pixel) => pixel,
        None => {
            return None;
        },
    };
    pixel.checked_mul(4)
}

} // verus!
