//! What each panel transaction looks like on the wire.
use vstd::prelude::*;

use crate::bus::{be16, Signal};
use crate::command::{Command, Rotation};

verus! {

/// Bytes per SPI write when pixel data is streamed: 4096 pixels of two bytes.
pub const CHUNK_BYTES: usize = 8192;

/// A command on its own: select, command mode, the opcode, deselect.
pub open spec fn command_signals(c: Command) -> Seq<Signal> {
    seq![
        Signal::CsPin(false),
        Signal::DcPin(false),
        Signal::Write(seq![c.opcode()]),
        Signal::CsPin(true),
    ]
}

/// A command inside a transaction that the caller frames with chip select.
pub open spec fn command_no_cs_signals(c: Command) -> Seq<Signal> {
    seq![Signal::DcPin(false), Signal::Write(seq![c.opcode()])]
}

/// A block of data on its own: select, data mode, the bytes, deselect.
pub open spec fn data_signals(bytes: Seq<u8>) -> Seq<Signal> {
    seq![Signal::CsPin(false), Signal::DcPin(true), Signal::Write(bytes), Signal::CsPin(true)]
}

/// A command followed by its parameter bytes in one selection.
pub open spec fn command_data_signals(c: Command, bytes: Seq<u8>) -> Seq<Signal> {
    seq![
        Signal::CsPin(false),
        Signal::DcPin(false),
        Signal::Write(seq![c.opcode()]),
        Signal::DcPin(true),
        Signal::Write(bytes),
        Signal::CsPin(true),
    ]
}

/// A command and its parameters inside a transaction the caller frames.
pub open spec fn command_data_no_cs_signals(c: Command, bytes: Seq<u8>) -> Seq<Signal> {
    seq![
        Signal::DcPin(false),
        Signal::Write(seq![c.opcode()]),
        Signal::DcPin(true),
        Signal::Write(bytes),
    ]
}

/// The column-address parameters: start and end, each big-endian.
pub open spec fn range_bytes(start: u16, end: u16) -> Seq<u8> {
    be16(start) + be16(end)
}

/// Selects the memory window `[x0, x1] x [y0, y1]` and starts a memory write.
pub open spec fn window_signals(x0: u16, y0: u16, x1: u16, y1: u16) -> Seq<Signal> {
    command_data_signals(Command::Caset, range_bytes(x0, x1))
        + command_data_signals(Command::Raset, range_bytes(y0, y1))
        + command_signals(Command::Ramwr)
}

/// RGB565 pixels as the panel receives them: each color big-endian, in order.
pub open spec fn color_bytes(colors: Seq<u16>) -> Seq<u8> {
    Seq::new(
        2 * colors.len(),
        |i: int|
            if i % 2 == 0 {
                (colors[i / 2] / 256) as u8
            } else {
                (colors[i / 2] % 256) as u8
            },
    )
}

/// `n` pixels of one color.
pub open spec fn solid(color: u16, n: nat) -> Seq<u16> {
    Seq::new(n, |i: int| color)
}

/// A stream of data bytes sent as successive data blocks of at most
/// [`CHUNK_BYTES`] bytes: full blocks first, then the remainder, if any.
pub open spec fn data_chunks(bytes: Seq<u8>) -> Seq<Signal>
    decreases bytes.len(),
{
    if bytes.len() == 0 {
        Seq::empty()
    } else if bytes.len() <= CHUNK_BYTES {
        data_signals(bytes)
    } else {
        data_signals(bytes.take(CHUNK_BYTES as int)) + data_chunks(bytes.skip(CHUNK_BYTES as int))
    }
}

/// A span of `len` cells from `start` that the panel driver accepts against
/// a limit: it is not empty, its arithmetic fits in 16 bits, and its last
/// cell is at most `limit`.
pub open spec fn span_ok(start: u16, len: u16, limit: u16) -> bool {
    &&& 1 <= len
    &&& start + len <= u16::MAX
    &&& start + len - 1 <= limit
}

/// The last cell of a span.
pub open spec fn span_end(start: u16, len: u16) -> u16 {
    (start + len - 1) as u16
}

/// A rectangle of one color: its window, then its pixels streamed in blocks.
pub open spec fn rect_signals(x: u16, y: u16, width: u16, height: u16, color: u16) -> Seq<Signal> {
    window_signals(x, y, span_end(x, width), span_end(y, height)) + data_chunks(
        color_bytes(solid(color, (width * height) as nat)),
    )
}

/// Filling a `width` by `height` screen: the window of the whole screen,
/// then `width * height` pixels of the color streamed in blocks.
pub open spec fn fill_signals(width: u16, height: u16, color: u16) -> Seq<Signal> {
    window_signals(0, 0, (width - 1) as u16, (height - 1) as u16) + data_chunks(
        color_bytes(solid(color, (width * height) as nat)),
    )
}

/// A vertical line: the window of one column from row `y` down `length`
/// rows, then `length` pixels of the color streamed in blocks.
pub open spec fn vertical_line_signals(x: u16, y: u16, length: u16, color: u16) -> Seq<Signal> {
    window_signals(x, y, x, span_end(y, length)) + data_chunks(
        color_bytes(solid(color, length as nat)),
    )
}

/// A horizontal line: the window of one row from column `x` right `length`
/// columns, then `length` pixels of the color streamed in blocks.
pub open spec fn horizontal_line_signals(x: u16, y: u16, length: u16, color: u16) -> Seq<Signal> {
    window_signals(x, y, span_end(x, length), y) + data_chunks(
        color_bytes(solid(color, length as nat)),
    )
}

/// Filling the screen is drawing the rectangle that covers it.
pub proof fn law_fill_is_screen_rect(width: u16, height: u16, color: u16)
    ensures
        fill_signals(width, height, color) == rect_signals(0, 0, width, height, color),
{
}

/// A vertical line is a rectangle one column wide; a horizontal line is a
/// rectangle one row high.
pub proof fn law_lines_are_thin_rects(x: u16, y: u16, length: u16, color: u16)
    ensures
        vertical_line_signals(x, y, length, color) == rect_signals(x, y, 1, length, color),
        horizontal_line_signals(x, y, length, color) == rect_signals(x, y, length, 1, color),
{
    assert(1 * length == length);
    assert(length * 1 == length);
    assert(span_end(x, 1) == x);
    assert(span_end(y, 1) == y);
}

/// One pixel: a one-by-one window, then the color.
pub open spec fn pixel_signals(x: u16, y: u16, color: u16) -> Seq<Signal> {
    window_signals(x, y, x, y) + data_signals(be16(color))
}

/// A bitmap of colors: its window, then its pixels streamed in blocks.
pub open spec fn color_buf_signals(bitmap: Seq<u16>, x: u16, y: u16, width: u16, height: u16) -> Seq<
    Signal,
> {
    window_signals(x, y, span_end(x, width), span_end(y, height)) + data_chunks(
        color_bytes(bitmap),
    )
}

/// Raw big-endian pixel bytes: their window, then all bytes in one block.
pub open spec fn color_buf_raw_signals(
    buffer: Seq<u8>,
    x: u16,
    y: u16,
    width: u16,
    height: u16,
) -> Seq<Signal> {
    window_signals(x, y, span_end(x, width), span_end(y, height)) + data_signals(buffer)
}

/// The outline of a rectangle: top, bottom, left and right edges, in that order.
pub open spec fn hollow_rect_signals(x: u16, y: u16, width: u16, height: u16, color: u16) -> Seq<
    Signal,
> {
    rect_signals(x, y, width, 1, color) + rect_signals(x, span_end(y, height), width, 1, color)
        + rect_signals(x, y, 1, height, color) + rect_signals(span_end(x, width), y, 1, height, color)
}

/// Pulsing the reset pin, when there is one: high, low, high again.
pub open spec fn hard_reset_signals(has_reset: bool) -> Seq<Signal> {
    if !has_reset {
        Seq::empty()
    } else {
        seq![
            Signal::CsPin(false),
            Signal::ResetPin(true),
            Signal::DelayMs(50),
            Signal::ResetPin(false),
            Signal::DelayMs(50),
            Signal::ResetPin(true),
            Signal::DelayMs(150),
            Signal::CsPin(true),
        ]
    }
}

/// The software reset command and the time the panel needs after it.
pub open spec fn soft_reset_signals() -> Seq<Signal> {
    command_signals(Command::Swreset) + seq![Signal::DelayMs(150)]
}

/// Entering (`true`) or leaving sleep mode.
pub open spec fn sleep_mode_signals(value: bool) -> Seq<Signal> {
    command_signals(if value { Command::Slpin } else { Command::Slpout })
}

/// Turning color inversion on (`true`) or off.
pub open spec fn inversion_mode_signals(value: bool) -> Seq<Signal> {
    command_signals(if value { Command::Invon } else { Command::Invoff })
}

/// Setting the pixel format register.
pub open spec fn color_mode_signals(mode: u8) -> Seq<Signal> {
    command_data_signals(Command::Colmod, seq![mode])
}

/// Setting the orientation register.
pub open spec fn rotation_signals(rotation: Rotation) -> Seq<Signal> {
    command_data_signals(Command::Madctl, seq![rotation.madctl()])
}

/// Defining the vertical scrolling areas: top fixed, scrolling, bottom fixed.
pub open spec fn vscrdef_signals(tfa: u16, vsa: u16, bfa: u16) -> Seq<Signal> {
    command_signals(Command::Vscrdef) + data_signals(be16(tfa)) + data_signals(be16(vsa))
        + data_signals(be16(bfa))
}

/// Setting the vertical scroll start address.
pub open spec fn vscsad_signals(vssa: u16) -> Seq<Signal> {
    command_signals(Command::Vscsad) + data_signals(be16(vssa))
}

/// The pixel format the driver sets up: 65k colors over a 16-bit interface.
pub open spec fn init_color_mode() -> u8 {
    0x55
}

/// The power-up sequence of a `width` by `height` panel: resets, wake-up,
/// pixel format, orientation, inversion, normal mode, a black screen,
/// display on, backlight on.
pub open spec fn init_signals(has_reset: bool, width: u16, height: u16, rotation: Rotation) -> Seq<
    Signal,
> {
    hard_reset_signals(has_reset) + soft_reset_signals() + sleep_mode_signals(false)
        + color_mode_signals(init_color_mode()) + seq![Signal::DelayMs(50)] + rotation_signals(
        rotation,
    ) + inversion_mode_signals(true) + seq![Signal::DelayMs(10)] + command_signals(Command::Noron)
        + seq![Signal::DelayMs(10)] + rect_signals(0, 0, width, height, 0) + command_signals(
        Command::Dispon,
    ) + seq![Signal::BacklightPin(true)] + seq![Signal::DelayMs(500)]
}

/// Appending a pixel appends its two big-endian bytes.
pub proof fn lemma_color_bytes_push(colors: Seq<u16>, c: u16)
    ensures
        color_bytes(colors.push(c)) == color_bytes(colors) + be16(c),
{
    let n = colors.len() as int;
    assert forall|i: int| 0 <= i < 2 * n + 2 implies #[trigger] color_bytes(colors.push(c))[i]
        == (color_bytes(colors) + be16(c))[i] by {
        if i < 2 * n {
            assert(i / 2 < n);
        } else if i == 2 * n {
            assert(i / 2 == n);
        } else {
            assert(i / 2 == n);
        }
    }
    assert(color_bytes(colors.push(c)) =~= color_bytes(colors) + be16(c));
}

/// The bytes of a prefix (suffix) of the pixels are the prefix (suffix) of the bytes.
pub proof fn lemma_color_bytes_take_skip(colors: Seq<u16>, k: int)
    requires
        0 <= k <= colors.len(),
    ensures
        color_bytes(colors).take(2 * k) == color_bytes(colors.take(k)),
        color_bytes(colors).skip(2 * k) == color_bytes(colors.skip(k)),
{
    let a = color_bytes(colors);
    assert forall|i: int| 0 <= i < 2 * k implies #[trigger] a.take(2 * k)[i] == color_bytes(
        colors.take(k),
    )[i] by {
        assert(i / 2 < k);
    }
    assert(a.take(2 * k) =~= color_bytes(colors.take(k)));
    assert forall|i: int| 0 <= i < a.len() - 2 * k implies #[trigger] a.skip(2 * k)[i]
        == color_bytes(colors.skip(k))[i] by {
        assert((i + 2 * k) % 2 == i % 2);
        assert((i + 2 * k) / 2 == i / 2 + k);
    }
    assert(a.skip(2 * k) =~= color_bytes(colors.skip(k)));
}

} // verus!
