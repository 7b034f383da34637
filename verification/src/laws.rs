//! Properties that hold of every operation of the driver.
use vstd::prelude::*;

use crate::bus::{be16, Signal};
use crate::command::{Command, Rotation};
use crate::line::{line_color, line_points, line_signals, pixels_signals};
use crate::protocol::{
    color_buf_raw_signals, color_buf_signals, color_bytes, color_mode_signals, command_data_signals,
    command_signals, data_chunks, data_signals, hard_reset_signals, hollow_rect_signals,
    init_signals, inversion_mode_signals, pixel_signals, rect_signals, rotation_signals,
    sleep_mode_signals, soft_reset_signals, solid, vscrdef_signals, vscsad_signals,
    window_signals, CHUNK_BYTES, fill_signals, law_fill_is_screen_rect,
};
use crate::protocol::span_ok;
use crate::text::{
    glyph_box_signals, glyph_colors, glyph_fits, glyph_signals, placements_signals, Glyph, Placement,
};

verus! {

/// Runs the chip-select line through `s`, starting selected or not: the
/// selection after the last step, or `None` if some SPI write happens while
/// the panel is not selected.
pub open spec fn selection_after(s: Seq<Signal>, selected: bool) -> Option<bool>
    decreases s.len(),
{
    if s.len() == 0 {
        Some(selected)
    } else {
        let next = match s[0] {
            Signal::CsPin(level) => Some(!level),
            Signal::Write(_) => if selected {
                Some(true)
            } else {
                None
            },
            _ => Some(selected),
        };
        match next {
            None => None,
            Some(sel) => selection_after(s.drop_first(), sel),
        }
    }
}

/// Starting with the panel not selected, every SPI write happens while it is
/// selected, and at the end it is released again.
pub open spec fn chip_select_framed(s: Seq<Signal>) -> bool {
    selection_after(s, false) == Some(false)
}

/// Running the chip-select line through two pieces one after the other.
pub proof fn lemma_selection_after_concat(a: Seq<Signal>, b: Seq<Signal>, selected: bool)
    ensures
        selection_after(a + b, selected) == match selection_after(a, selected) {
            None => None,
            Some(t) => selection_after(b, t),
        },
    decreases a.len(),
{
    if a.len() == 0 {
        assert(a + b =~= b);
    } else {
        assert((a + b).drop_first() =~= a.drop_first() + b);
        assert((a + b)[0] == a[0]);
        let next = match a[0] {
            Signal::CsPin(level) => Some(!level),
            Signal::Write(_) => if selected {
                Some(true)
            } else {
                None
            },
            _ => Some(selected),
        };
        match next {
            None => {},
            Some(sel) => {
                lemma_selection_after_concat(a.drop_first(), b, sel);
            },
        }
    }
}

/// Two framed pieces in a row are framed.
pub proof fn lemma_framed_concat(a: Seq<Signal>, b: Seq<Signal>)
    requires
        chip_select_framed(a),
        chip_select_framed(b),
    ensures
        chip_select_framed(a + b),
{
    lemma_selection_after_concat(a, b, false);
}

/// Steps that touch neither chip select nor SPI leave the framing alone.
pub proof fn lemma_framed_quiet(s: Seq<Signal>)
    requires
        forall|i: int|
            0 <= i < s.len() ==> !(#[trigger] s[i] is CsPin) && !(s[i] is Write),
    ensures
        chip_select_framed(s),
    decreases s.len(),
{
    if s.len() > 0 {
        lemma_framed_quiet(s.drop_first());
    }
}

proof fn lemma_framed_command(c: Command)
    ensures
        chip_select_framed(command_signals(c)),
{
    reveal_with_fuel(selection_after, 5);
}

proof fn lemma_framed_data(b: Seq<u8>)
    ensures
        chip_select_framed(data_signals(b)),
{
    reveal_with_fuel(selection_after, 5);
}

proof fn lemma_framed_command_data(c: Command, b: Seq<u8>)
    ensures
        chip_select_framed(command_data_signals(c, b)),
{
    reveal_with_fuel(selection_after, 7);
}

proof fn lemma_framed_window(x0: u16, y0: u16, x1: u16, y1: u16)
    ensures
        chip_select_framed(window_signals(x0, y0, x1, y1)),
{
    lemma_framed_command_data(Command::Caset, be16(x0) + be16(x1));
    lemma_framed_command_data(Command::Raset, be16(y0) + be16(y1));
    lemma_framed_command(Command::Ramwr);
    lemma_framed_concat(
        command_data_signals(Command::Caset, be16(x0) + be16(x1)),
        command_data_signals(Command::Raset, be16(y0) + be16(y1)),
    );
    lemma_framed_concat(
        command_data_signals(Command::Caset, be16(x0) + be16(x1)) + command_data_signals(
            Command::Raset,
            be16(y0) + be16(y1),
        ),
        command_signals(Command::Ramwr),
    );
}

proof fn lemma_framed_chunks(b: Seq<u8>)
    ensures
        chip_select_framed(data_chunks(b)),
    decreases b.len(),
{
    if b.len() == 0 {
    } else if b.len() <= CHUNK_BYTES {
        lemma_framed_data(b);
    } else {
        lemma_framed_data(b.take(CHUNK_BYTES as int));
        lemma_framed_chunks(b.skip(CHUNK_BYTES as int));
        lemma_framed_concat(
            data_signals(b.take(CHUNK_BYTES as int)),
            data_chunks(b.skip(CHUNK_BYTES as int)),
        );
    }
}

/// Every filled rectangle selects the panel only around its SPI writes
/// and releases it at the end.
pub proof fn law_rect_framed(x: u16, y: u16, width: u16, height: u16, color: u16)
    ensures
        chip_select_framed(rect_signals(x, y, width, height, color)),
{
    let ex = (x + width - 1) as u16;
    let ey = (y + height - 1) as u16;
    lemma_framed_window(x, y, ex, ey);
    lemma_framed_chunks(color_bytes(solid(color, (width * height) as nat)));
    lemma_framed_concat(
        window_signals(x, y, ex, ey),
        data_chunks(color_bytes(solid(color, (width * height) as nat))),
    );
}

/// Drawing a pixel frames its SPI writes with chip select.
pub proof fn law_pixel_framed(x: u16, y: u16, color: u16)
    ensures
        chip_select_framed(pixel_signals(x, y, color)),
{
    lemma_framed_window(x, y, x, y);
    lemma_framed_data(be16(color));
    lemma_framed_concat(window_signals(x, y, x, y), data_signals(be16(color)));
}

/// Drawing a bitmap frames its SPI writes with chip select.
pub proof fn law_color_buf_framed(bitmap: Seq<u16>, x: u16, y: u16, width: u16, height: u16)
    ensures
        chip_select_framed(color_buf_signals(bitmap, x, y, width, height)),
        chip_select_framed(color_buf_raw_signals(color_bytes(bitmap), x, y, width, height)),
{
    let ex = (x + width - 1) as u16;
    let ey = (y + height - 1) as u16;
    lemma_framed_window(x, y, ex, ey);
    lemma_framed_chunks(color_bytes(bitmap));
    lemma_framed_concat(window_signals(x, y, ex, ey), data_chunks(color_bytes(bitmap)));
    lemma_framed_data(color_bytes(bitmap));
    lemma_framed_concat(window_signals(x, y, ex, ey), data_signals(color_bytes(bitmap)));
}

/// Drawing raw pixel bytes frames its SPI writes with chip select.
pub proof fn law_color_buf_raw_framed(buffer: Seq<u8>, x: u16, y: u16, width: u16, height: u16)
    ensures
        chip_select_framed(color_buf_raw_signals(buffer, x, y, width, height)),
{
    let ex = (x + width - 1) as u16;
    let ey = (y + height - 1) as u16;
    lemma_framed_window(x, y, ex, ey);
    lemma_framed_data(buffer);
    lemma_framed_concat(window_signals(x, y, ex, ey), data_signals(buffer));
}

/// Drawing an outline frames its SPI writes with chip select.
pub proof fn law_hollow_rect_framed(x: u16, y: u16, width: u16, height: u16, color: u16)
    ensures
        chip_select_framed(hollow_rect_signals(x, y, width, height, color)),
{
    let ey = (y + height - 1) as u16;
    let ex = (x + width - 1) as u16;
    law_rect_framed(x, y, width, 1, color);
    law_rect_framed(x, ey, width, 1, color);
    law_rect_framed(x, y, 1, height, color);
    law_rect_framed(ex, y, 1, height, color);
    let a = rect_signals(x, y, width, 1, color);
    let b = rect_signals(x, ey, width, 1, color);
    let c = rect_signals(x, y, 1, height, color);
    let d = rect_signals(ex, y, 1, height, color);
    lemma_framed_concat(a, b);
    lemma_framed_concat(a + b, c);
    lemma_framed_concat(a + b + c, d);
}

/// Drawing pixel after pixel frames every SPI write with chip select.
pub proof fn law_pixels_framed(points: Seq<(int, int)>, color: u16)
    ensures
        chip_select_framed(pixels_signals(points, color)),
    decreases points.len(),
{
    if points.len() > 0 {
        law_pixels_framed(points.drop_last(), color);
        let p = points.last();
        law_pixel_framed(p.0 as u16, p.1 as u16, color);
        lemma_framed_concat(
            pixels_signals(points.drop_last(), color),
            pixel_signals(p.0 as u16, p.1 as u16, color),
        );
    }
}

/// Drawing a line frames every SPI write with chip select.
pub proof fn law_line_framed(x0: u16, y0: u16, x1: u16, y1: u16)
    ensures
        chip_select_framed(line_signals(x0, y0, x1, y1)),
{
    law_pixels_framed(line_points(x0, y0, x1, y1), line_color());
}

/// Drawing placed glyphs frames every SPI write with chip select.
pub proof fn law_text_framed(
    ps: Seq<Placement>,
    glyphs: Seq<Option<Glyph>>,
    h: u16,
    fg: u16,
    bg: u16,
)
    ensures
        chip_select_framed(placements_signals(ps, glyphs, h, fg, bg)),
    decreases ps.len(),
{
    if ps.len() > 0 {
        law_text_framed(ps.drop_last(), glyphs, h, fg, bg);
        let p = ps.last();
        let g = glyphs[p.index]->Some_0;
        let w = g.width as int;
        let ex = (p.x + w - 1) as u16;
        let ey = (p.y + h - 1) as u16;
        let bytes = color_bytes(glyph_colors(g.bitmap@, w * h, fg, bg));
        lemma_framed_window(p.x as u16, p.y as u16, ex, ey);
        lemma_framed_chunks(bytes);
        lemma_framed_concat(window_signals(p.x as u16, p.y as u16, ex, ey), data_chunks(bytes));
        lemma_framed_concat(
            placements_signals(ps.drop_last(), glyphs, h, fg, bg),
            glyph_signals(p, glyphs, h, fg, bg),
        );
    }
}

/// Register settings frame their SPI writes with chip select.
pub proof fn law_settings_framed(
    value: bool,
    mode: u8,
    rotation: Rotation,
    tfa: u16,
    vsa: u16,
    bfa: u16,
    vssa: u16,
)
    ensures
        chip_select_framed(sleep_mode_signals(value)),
        chip_select_framed(inversion_mode_signals(value)),
        chip_select_framed(color_mode_signals(mode)),
        chip_select_framed(rotation_signals(rotation)),
        chip_select_framed(vscrdef_signals(tfa, vsa, bfa)),
        chip_select_framed(vscsad_signals(vssa)),
        chip_select_framed(soft_reset_signals()),
        chip_select_framed(hard_reset_signals(value)),
{
    lemma_framed_command(if value { Command::Slpin } else { Command::Slpout });
    lemma_framed_command(if value { Command::Invon } else { Command::Invoff });
    lemma_framed_command_data(Command::Colmod, seq![mode]);
    lemma_framed_command_data(Command::Madctl, seq![rotation.madctl()]);
    lemma_framed_command(Command::Vscrdef);
    lemma_framed_data(be16(tfa));
    lemma_framed_data(be16(vsa));
    lemma_framed_data(be16(bfa));
    lemma_framed_concat(command_signals(Command::Vscrdef), data_signals(be16(tfa)));
    lemma_framed_concat(
        command_signals(Command::Vscrdef) + data_signals(be16(tfa)),
        data_signals(be16(vsa)),
    );
    lemma_framed_concat(
        command_signals(Command::Vscrdef) + data_signals(be16(tfa)) + data_signals(be16(vsa)),
        data_signals(be16(bfa)),
    );
    lemma_framed_command(Command::Vscsad);
    lemma_framed_data(be16(vssa));
    lemma_framed_concat(command_signals(Command::Vscsad), data_signals(be16(vssa)));
    lemma_framed_command(Command::Swreset);
    lemma_framed_quiet(seq![Signal::DelayMs(150)]);
    lemma_framed_concat(command_signals(Command::Swreset), seq![Signal::DelayMs(150)]);
    lemma_framed_hard_reset(value);
}

proof fn lemma_framed_hard_reset(has_reset: bool)
    ensures
        chip_select_framed(hard_reset_signals(has_reset)),
{
    reveal_with_fuel(selection_after, 9);
}

/// The power-up sequence frames its SPI writes with chip select.
pub proof fn law_init_framed(has_reset: bool, width: u16, height: u16, rotation: Rotation)
    ensures
        chip_select_framed(init_signals(has_reset, width, height, rotation)),
{
    law_settings_framed(has_reset, 0x55, rotation, 0, 0, 0, 0);
    law_settings_framed(false, 0x55, rotation, 0, 0, 0, 0);
    law_settings_framed(true, 0x55, rotation, 0, 0, 0, 0);
    law_rect_framed(0, 0, width, height, 0);
    lemma_framed_command(Command::Noron);
    lemma_framed_command(Command::Dispon);
    lemma_framed_quiet(seq![Signal::DelayMs(50)]);
    lemma_framed_quiet(seq![Signal::DelayMs(10)]);
    lemma_framed_quiet(seq![Signal::DelayMs(500)]);
    lemma_framed_quiet(seq![Signal::BacklightPin(true)]);
    let s1 = hard_reset_signals(has_reset);
    let s2 = s1 + soft_reset_signals();
    lemma_framed_concat(s1, soft_reset_signals());
    let s3 = s2 + sleep_mode_signals(false);
    lemma_framed_concat(s2, sleep_mode_signals(false));
    let s4 = s3 + color_mode_signals(0x55);
    lemma_framed_concat(s3, color_mode_signals(0x55));
    let s5 = s4 + seq![Signal::DelayMs(50)];
    lemma_framed_concat(s4, seq![Signal::DelayMs(50)]);
    let s6 = s5 + rotation_signals(rotation);
    lemma_framed_concat(s5, rotation_signals(rotation));
    let s7 = s6 + inversion_mode_signals(true);
    lemma_framed_concat(s6, inversion_mode_signals(true));
    let s8 = s7 + seq![Signal::DelayMs(10)];
    lemma_framed_concat(s7, seq![Signal::DelayMs(10)]);
    let s9 = s8 + command_signals(Command::Noron);
    lemma_framed_concat(s8, command_signals(Command::Noron));
    let s10 = s9 + seq![Signal::DelayMs(10)];
    lemma_framed_concat(s9, seq![Signal::DelayMs(10)]);
    let s11 = s10 + rect_signals(0, 0, width, height, 0);
    lemma_framed_concat(s10, rect_signals(0, 0, width, height, 0));
    let s12 = s11 + command_signals(Command::Dispon);
    lemma_framed_concat(s11, command_signals(Command::Dispon));
    let s13 = s12 + seq![Signal::BacklightPin(true)];
    lemma_framed_concat(s12, seq![Signal::BacklightPin(true)]);
    lemma_framed_concat(s13, seq![Signal::DelayMs(500)]);
}

/// Every byte sent over SPI in `s`, in order.
pub open spec fn written_bytes(s: Seq<Signal>) -> Seq<u8>
    decreases s.len(),
{
    if s.len() == 0 {
        Seq::empty()
    } else {
        written_bytes(s.drop_last()) + match s.last() {
            Signal::Write(b) => b,
            _ => Seq::empty(),
        }
    }
}

/// Every SPI write in `s` carries at least one and at most `limit` bytes.
pub open spec fn writes_bounded(s: Seq<Signal>, limit: nat) -> bool {
    forall|i: int|
        0 <= i < s.len() && #[trigger] s[i] is Write ==> 0 < s[i]->Write_0.len() <= limit
}

pub proof fn lemma_written_concat(a: Seq<Signal>, b: Seq<Signal>)
    ensures
        written_bytes(a + b) == written_bytes(a) + written_bytes(b),
    decreases b.len(),
{
    if b.len() == 0 {
        assert(a + b =~= a);
        assert(written_bytes(a) + Seq::<u8>::empty() =~= written_bytes(a));
    } else {
        assert((a + b).drop_last() =~= a + b.drop_last());
        assert((a + b).last() == b.last());
        lemma_written_concat(a, b.drop_last());
        let tail = match b.last() {
            Signal::Write(x) => x,
            _ => Seq::<u8>::empty(),
        };
        assert(written_bytes(a) + written_bytes(b.drop_last()) + tail =~= written_bytes(a) + (
        written_bytes(b.drop_last()) + tail));
    }
}

proof fn lemma_written_data(b: Seq<u8>)
    ensures
        written_bytes(data_signals(b)) == b,
{
    reveal_with_fuel(written_bytes, 5);
    let s = data_signals(b);
    assert(s.drop_last() =~= seq![Signal::CsPin(false), Signal::DcPin(true), Signal::Write(b)]);
    assert(s.drop_last().drop_last() =~= seq![Signal::CsPin(false), Signal::DcPin(true)]);
    assert(s.drop_last().drop_last().drop_last() =~= seq![Signal::CsPin(false)]);
    assert(s.drop_last().drop_last().drop_last().drop_last() =~= Seq::<Signal>::empty());
    assert(Seq::<u8>::empty() + Seq::<u8>::empty() + Seq::<u8>::empty() + b + Seq::<u8>::empty()
        =~= b);
}

/// Streaming bytes in blocks sends exactly those bytes, in order, in blocks
/// of at least one and at most [`CHUNK_BYTES`] bytes.
pub proof fn law_chunks_carry_stream(b: Seq<u8>)
    ensures
        written_bytes(data_chunks(b)) == b,
        writes_bounded(data_chunks(b), CHUNK_BYTES as nat),
    decreases b.len(),
{
    if b.len() == 0 {
        assert(written_bytes(Seq::<Signal>::empty()) =~= b);
    } else if b.len() <= CHUNK_BYTES {
        lemma_written_data(b);
    } else {
        let head = b.take(CHUNK_BYTES as int);
        let rest = b.skip(CHUNK_BYTES as int);
        law_chunks_carry_stream(rest);
        lemma_written_data(head);
        lemma_written_concat(data_signals(head), data_chunks(rest));
        assert(head + rest =~= b);
        let s = data_signals(head) + data_chunks(rest);
        assert forall|i: int| 0 <= i < s.len() && #[trigger] s[i] is Write implies 0 < s[i]->Write_0.len()
            <= CHUNK_BYTES by {
            if i >= 4 {
                assert(s[i] == data_chunks(rest)[i - 4]);
            }
        }
    }
}

/// The window selection takes this many steps.
pub open spec fn window_steps() -> int {
    16
}

/// `s` selects the window `[x0, x1] x [y0, y1]` and then sends exactly two
/// bytes for each of its pixels.
pub open spec fn fills_window(s: Seq<Signal>, x0: int, y0: int, x1: int, y1: int) -> bool {
    &&& s.len() >= window_steps()
    &&& s.take(window_steps()) == window_signals(x0 as u16, y0 as u16, x1 as u16, y1 as u16)
    &&& written_bytes(s.skip(window_steps())) .len() == 2 * (x1 - x0 + 1) * (y1 - y0 + 1)
}

proof fn lemma_window_then(x0: u16, y0: u16, x1: u16, y1: u16, rest: Seq<Signal>)
    ensures
        (window_signals(x0, y0, x1, y1) + rest).take(window_steps()) == window_signals(x0, y0, x1, y1),
        (window_signals(x0, y0, x1, y1) + rest).skip(window_steps()) == rest,
{
    let w = window_signals(x0, y0, x1, y1);
    assert(w.len() == 16);
    assert((w + rest).take(16) =~= w);
    assert((w + rest).skip(16) =~= rest);
}

/// A filled rectangle selects its window and sends its color, big-endian,
/// once for each pixel of it.
pub proof fn law_rect_fills_window(x: u16, y: u16, width: u16, height: u16, color: u16)
    requires
        span_ok(x, width, u16::MAX),
        span_ok(y, height, u16::MAX),
    ensures
        fills_window(
            rect_signals(x, y, width, height, color),
            x as int,
            y as int,
            x + width - 1,
            y + height - 1,
        ),
        written_bytes(rect_signals(x, y, width, height, color).skip(window_steps()))
            == color_bytes(solid(color, (width * height) as nat)),
{
    let d = color_bytes(solid(color, (width * height) as nat));
    lemma_window_then(x, y, (x + width - 1) as u16, (y + height - 1) as u16, data_chunks(d));
    law_chunks_carry_stream(d);
    assert(2 * (width * height) == 2 * ((x + width - 1) - x + 1) * ((y + height - 1) - y + 1)) by (nonlinear_arith);
}

/// A bitmap selects its window and sends its colors, big-endian, in order;
/// when it has one color per pixel of the window, it fills the window.
pub proof fn law_color_buf_fills_window(
    bitmap: Seq<u16>,
    x: u16,
    y: u16,
    width: u16,
    height: u16,
)
    requires
        bitmap.len() == width * height,
        span_ok(x, width, u16::MAX),
        span_ok(y, height, u16::MAX),
    ensures
        fills_window(
            color_buf_signals(bitmap, x, y, width, height),
            x as int,
            y as int,
            x + width - 1,
            y + height - 1,
        ),
        written_bytes(color_buf_signals(bitmap, x, y, width, height).skip(window_steps()))
            == color_bytes(bitmap),
{
    let d = color_bytes(bitmap);
    lemma_window_then(x, y, (x + width - 1) as u16, (y + height - 1) as u16, data_chunks(d));
    law_chunks_carry_stream(d);
    assert(2 * (width * height) == 2 * ((x + width - 1) - x + 1) * ((y + height - 1) - y + 1)) by (nonlinear_arith);
}

/// Raw pixel bytes select their window and are sent as given, in one write;
/// when there are two bytes per pixel of the window, they fill the window.
pub proof fn law_color_buf_raw_fills_window(
    buffer: Seq<u8>,
    x: u16,
    y: u16,
    width: u16,
    height: u16,
)
    requires
        buffer.len() == width * height * 2,
        span_ok(x, width, u16::MAX),
        span_ok(y, height, u16::MAX),
    ensures
        fills_window(
            color_buf_raw_signals(buffer, x, y, width, height),
            x as int,
            y as int,
            x + width - 1,
            y + height - 1,
        ),
        written_bytes(color_buf_raw_signals(buffer, x, y, width, height).skip(window_steps()))
            == buffer,
{
    lemma_window_then(x, y, (x + width - 1) as u16, (y + height - 1) as u16, data_signals(buffer));
    lemma_written_data(buffer);
    assert(width * height * 2 == 2 * ((x + width - 1) - x + 1) * ((y + height - 1) - y + 1)) by (nonlinear_arith);
}

/// Drawing a bitmap and drawing its big-endian bytes raw select the same
/// window and send the same bytes; only how the bytes are split into SPI
/// writes differs.
pub proof fn law_color_buf_matches_raw(
    bitmap: Seq<u16>,
    x: u16,
    y: u16,
    width: u16,
    height: u16,
)
    ensures
        color_buf_signals(bitmap, x, y, width, height).take(window_steps())
            == color_buf_raw_signals(color_bytes(bitmap), x, y, width, height).take(window_steps()),
        written_bytes(color_buf_signals(bitmap, x, y, width, height)) == written_bytes(
            color_buf_raw_signals(color_bytes(bitmap), x, y, width, height),
        ),
{
    let w = window_signals(x, y, (x + width - 1) as u16, (y + height - 1) as u16);
    let d = color_bytes(bitmap);
    lemma_window_then(x, y, (x + width - 1) as u16, (y + height - 1) as u16, data_chunks(d));
    lemma_window_then(x, y, (x + width - 1) as u16, (y + height - 1) as u16, data_signals(d));
    law_chunks_carry_stream(d);
    lemma_written_data(d);
    lemma_written_concat(w, data_chunks(d));
    lemma_written_concat(w, data_signals(d));
}

/// A solid rectangle is the bitmap of that many pixels of its color.
pub proof fn law_rect_is_solid_bitmap(x: u16, y: u16, width: u16, height: u16, color: u16)
    ensures
        rect_signals(x, y, width, height, color) == color_buf_signals(
            solid(color, (width * height) as nat),
            x,
            y,
            width,
            height,
        ),
{
}

/// Filling the screen fills the whole panel with one color.
pub proof fn law_fill_covers_screen(width: u16, height: u16, color: u16)
    requires
        width >= 1,
        height >= 1,
    ensures
        fills_window(fill_signals(width, height, color), 0, 0, width - 1, height - 1),
        written_bytes(fill_signals(width, height, color).skip(window_steps())) == color_bytes(
            solid(color, (width * height) as nat),
        ),
{
    law_fill_is_screen_rect(width, height, color);
    law_rect_fills_window(0, 0, width, height, color);
}

/// A pixel selects its one-pixel window and sends its color, big-endian.
pub proof fn law_pixel_fills_window(x: u16, y: u16, color: u16)
    ensures
        fills_window(pixel_signals(x, y, color), x as int, y as int, x as int, y as int),
        written_bytes(pixel_signals(x, y, color).skip(window_steps())) == be16(color),
{
    lemma_window_then(x, y, x, y, data_signals(be16(color)));
    lemma_written_data(be16(color));
}

/// A glyph selects its box and sends, for each of its pixels in order, the
/// font color where its bit is set and the background color elsewhere.
pub proof fn law_glyph_fills_window(x: int, y: int, g: Glyph, h: u16, fg: u16, bg: u16)
    requires
        glyph_fits(x, y, g.width as int, h as int, u16::MAX, u16::MAX, g.bitmap@.len() as int),
    ensures
        fills_window(glyph_box_signals(x, y, g, h, fg, bg), x, y, x + g.width - 1, y + h - 1),
        written_bytes(glyph_box_signals(x, y, g, h, fg, bg).skip(window_steps())) == color_bytes(
            glyph_colors(g.bitmap@, g.width * h, fg, bg),
        ),
{
    let w = g.width as int;
    let d = color_bytes(glyph_colors(g.bitmap@, w * h, fg, bg));
    lemma_window_then(x as u16, y as u16, (x + w - 1) as u16, (y + h - 1) as u16, data_chunks(d));
    law_chunks_carry_stream(d);
    assert(w * h >= 0) by (nonlinear_arith)
        requires
            w >= 1,
            h >= 1,
    ;
    assert(2 * (w * h) == 2 * ((x + w - 1) - x + 1) * ((y + h - 1) - y + 1)) by (nonlinear_arith);
}

} // verus!
