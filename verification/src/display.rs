//! The ST7789 driver: every operation records its bus steps in a [`Transcript`].
use vstd::arithmetic::div_mod::lemma_div_is_ordered;
use vstd::prelude::*;
use vstd::slice::{slice_subrange, slice_to_vec};
use vstd::std_specs::iter::IteratorSpec;

use crate::bus::{be16_bytes, push_be16, BusOp, Signal, Transcript};
use crate::command::{ColorMode, Command, Rotation};
use crate::line::{
    dist, lemma_line_ends_extent, lemma_line_point_in_box, lemma_minor_steps_bounds,
    lemma_minor_steps_from_error, line_color, line_ends, line_point, line_points, line_signals,
    line_steep, minor_steps, pixels_signals,
};
use crate::protocol::{
    color_buf_raw_signals, color_buf_signals, color_bytes, color_mode_signals,
    command_data_no_cs_signals, command_data_signals, command_no_cs_signals, command_signals,
    data_chunks, data_signals, fill_signals, hard_reset_signals, horizontal_line_signals,
    law_fill_is_screen_rect, law_lines_are_thin_rects, vertical_line_signals, hollow_rect_signals, init_color_mode,
    init_signals, inversion_mode_signals, lemma_color_bytes_push, lemma_color_bytes_take_skip,
    pixel_signals, range_bytes, rect_signals, rotation_signals, sleep_mode_signals, solid,
    soft_reset_signals, span_ok, vscrdef_signals, vscsad_signals, window_signals, CHUNK_BYTES,
};
use crate::text::{
    glyph_box_signals, glyph_colors, glyph_fits, layout_from, placements_signals, text_layout,
    text_step, CharLayout, Glyph, Placement,
};

verus! {

/// Pixels per SPI write when pixel data is streamed.
pub const BUFFER_SIZE: u16 = 4096;

/// An ST7789 panel of `width` by `height` pixels. `has_reset` says whether a
/// reset pin is wired; without one, a hard reset does nothing.
pub struct ST7789Display {
    pub width: u16,
    pub height: u16,
    pub has_reset: bool,
}

impl ST7789Display {
    /// Describes a panel and records its power-up sequence: hard reset, soft
    /// reset, wake-up, 16-bit 65k-color pixels, the orientation, inversion
    /// on, normal mode, a black screen, display on and backlight on.
    pub fn new(
        bus: &mut Transcript,
        has_reset: bool,
        width: u16,
        height: u16,
        rotation: Rotation,
    ) -> (d: ST7789Display)
        requires
            width >= 1,
            height >= 1,
        ensures
            d.width == width,
            d.height == height,
            d.has_reset == has_reset,
            final(bus)@ == old(bus)@ + init_signals(has_reset, width, height, rotation),
    {
        let d = ST7789Display { width, height, has_reset };
        d.hard_reset(bus);
        d.soft_reset(bus);
        d.set_sleep_mode(bus, false);
        let mode = ColorMode::ColorMode65k | ColorMode::ColorMode16bit;
        assert(mode == init_color_mode()) by (bit_vector)
            requires
                mode == 0x50u8 | 0x05u8,
        ;
        d.set_color_mode(bus, mode);
        bus.push(BusOp::DelayMs(50));
        d.set_rotation(bus, rotation);
        d.set_inversion_mode(bus, true);
        bus.push(BusOp::DelayMs(10));
        d.send_command(bus, Command::Noron);
        bus.push(BusOp::DelayMs(10));
        d.fill(bus, 0);
        d.send_command(bus, Command::Dispon);
        d.set_backlight(bus, true);
        bus.push(BusOp::DelayMs(500));
        assert(bus@ =~= old(bus)@ + init_signals(has_reset, width, height, rotation));
        d
    }

    /// Switch the backlight on (`true`) or off.
    pub fn set_backlight(&self, bus: &mut Transcript, val: bool)
        ensures
            final(bus)@ == old(bus)@.push(Signal::BacklightPin(val)),
    {
        bus.push(BusOp::BacklightPin(val));
    }

    /// Reset the panel through its reset pin; does nothing without one.
    pub fn hard_reset(&self, bus: &mut Transcript)
        ensures
            final(bus)@ == old(bus)@ + hard_reset_signals(self.has_reset),
    {
        if !self.has_reset {
            assert(bus@ =~= old(bus)@ + hard_reset_signals(self.has_reset));
            return ;
        }
        bus.push(BusOp::CsPin(false));
        bus.push(BusOp::ResetPin(true));
        bus.push(BusOp::DelayMs(50));
        bus.push(BusOp::ResetPin(false));
        bus.push(BusOp::DelayMs(50));
        bus.push(BusOp::ResetPin(true));
        bus.push(BusOp::DelayMs(150));
        bus.push(BusOp::CsPin(true));
        assert(bus@ =~= old(bus)@ + hard_reset_signals(self.has_reset));
    }

    /// Reset by sending a software reset command.
    /// It is part of the power-up sequence, after `hard_reset`.
    pub fn soft_reset(&self, bus: &mut Transcript)
        ensures
            final(bus)@ == old(bus)@ + soft_reset_signals(),
    {
        self.send_command(bus, Command::Swreset);
        bus.push(BusOp::DelayMs(150));
        assert(bus@ =~= old(bus)@ + soft_reset_signals());
    }

    /// Put the display to sleep (`true`) or wake it up.
    pub fn set_sleep_mode(&self, bus: &mut Transcript, value: bool)
        ensures
            final(bus)@ == old(bus)@ + sleep_mode_signals(value),
    {
        if value {
            self.send_command(bus, Command::Slpin);
        } else {
            self.send_command(bus, Command::Slpout);
        }
    }

    /// Turn color inversion on (`true`) or off.
    pub fn set_inversion_mode(&self, bus: &mut Transcript, value: bool)
        ensures
            final(bus)@ == old(bus)@ + inversion_mode_signals(value),
    {
        if value {
            self.send_command(bus, Command::Invon);
        } else {
            self.send_command(bus, Command::Invoff);
        }
    }

    /// Set the pixel format register (see [`ColorMode`]).
    pub fn set_color_mode(&self, bus: &mut Transcript, mode: u8)
        ensures
            final(bus)@ == old(bus)@ + color_mode_signals(mode),
    {
        let p = vec![mode];
        assert(p@ =~= seq![mode]);
        self.send_command_data(bus, Command::Colmod, p.as_slice());
    }

    /// Set the display orientation.
    pub fn set_rotation(&self, bus: &mut Transcript, rotation: Rotation)
        ensures
            final(bus)@ == old(bus)@ + rotation_signals(rotation),
    {
        let p = vec![rotation.value()];
        assert(p@ =~= seq![rotation.madctl()]);
        self.send_command_data(bus, Command::Madctl, p.as_slice());
    }

    /// Write a command to the display.
    pub fn send_command(&self, bus: &mut Transcript, command: Command)
        ensures
            final(bus)@ == old(bus)@ + command_signals(command),
    {
        bus.push(BusOp::CsPin(false));
        bus.push(BusOp::DcPin(false));
        let op = vec![command.code()];
        assert(op@ =~= seq![command.opcode()]);
        bus.push(BusOp::Write(op));
        bus.push(BusOp::CsPin(true));
        assert(bus@ =~= old(bus)@ + command_signals(command));
    }

    /// Write a command without touching chip select.
    pub fn send_command_no_cs(&self, bus: &mut Transcript, command: Command)
        ensures
            final(bus)@ == old(bus)@ + command_no_cs_signals(command),
    {
        bus.push(BusOp::DcPin(false));
        let op = vec![command.code()];
        assert(op@ =~= seq![command.opcode()]);
        bus.push(BusOp::Write(op));
        assert(bus@ =~= old(bus)@ + command_no_cs_signals(command));
    }

    /// Write data to the display.
    pub fn send_data(&self, bus: &mut Transcript, data: &[u8])
        ensures
            final(bus)@ == old(bus)@ + data_signals(data@),
    {
        bus.push(BusOp::CsPin(false));
        bus.push(BusOp::DcPin(true));
        bus.push(BusOp::Write(slice_to_vec(data)));
        bus.push(BusOp::CsPin(true));
        assert(bus@ =~= old(bus)@ + data_signals(data@));
    }

    /// Write a command and its parameters in one selection.
    pub fn send_command_data(&self, bus: &mut Transcript, command: Command, data: &[u8])
        ensures
            final(bus)@ == old(bus)@ + command_data_signals(command, data@),
    {
        bus.push(BusOp::CsPin(false));
        bus.push(BusOp::DcPin(false));
        let op = vec![command.code()];
        assert(op@ =~= seq![command.opcode()]);
        bus.push(BusOp::Write(op));
        bus.push(BusOp::DcPin(true));
        bus.push(BusOp::Write(slice_to_vec(data)));
        bus.push(BusOp::CsPin(true));
        assert(bus@ =~= old(bus)@ + command_data_signals(command, data@));
    }

    /// Write a command and its parameters without touching chip select.
    pub fn send_command_data_no_cs(&self, bus: &mut Transcript, command: Command, data: &[u8])
        ensures
            final(bus)@ == old(bus)@ + command_data_no_cs_signals(command, data@),
    {
        bus.push(BusOp::DcPin(false));
        let op = vec![command.code()];
        assert(op@ =~= seq![command.opcode()]);
        bus.push(BusOp::Write(op));
        bus.push(BusOp::DcPin(true));
        bus.push(BusOp::Write(slice_to_vec(data)));
        assert(bus@ =~= old(bus)@ + command_data_no_cs_signals(command, data@));
    }

    /// The parameter bytes of a column or row range.
    fn range_param(start: u16, end: u16) -> (p: Vec<u8>)
        ensures
            p@ == range_bytes(start, end),
    {
        let mut p: Vec<u8> = Vec::new();
        push_be16(&mut p, start);
        push_be16(&mut p, end);
        assert(p@ =~= range_bytes(start, end));
        p
    }

    /// Select columns.
    fn set_columns(&self, bus: &mut Transcript, start: u16, end: u16)
        requires
            start <= end <= self.width,
        ensures
            final(bus)@ == old(bus)@ + command_data_signals(Command::Caset, range_bytes(start, end)),
    {
        let p = Self::range_param(start, end);
        self.send_command_data(bus, Command::Caset, p.as_slice());
    }

    /// Select rows.
    fn set_rows(&self, bus: &mut Transcript, start: u16, end: u16)
        requires
            start <= end <= self.height,
        ensures
            final(bus)@ == old(bus)@ + command_data_signals(Command::Raset, range_bytes(start, end)),
    {
        let p = Self::range_param(start, end);
        self.send_command_data(bus, Command::Raset, p.as_slice());
    }

    /// Select columns inside a transaction the caller frames.
    #[allow(dead_code)]
    fn set_columns_no_cs(&self, bus: &mut Transcript, start: u16, end: u16)
        requires
            start <= end <= self.width,
        ensures
            final(bus)@ == old(bus)@ + command_data_no_cs_signals(
                Command::Caset,
                range_bytes(start, end),
            ),
    {
        let p = Self::range_param(start, end);
        self.send_command_data_no_cs(bus, Command::Caset, p.as_slice());
    }

    /// Select rows inside a transaction the caller frames.
    #[allow(dead_code)]
    fn set_rows_no_cs(&self, bus: &mut Transcript, start: u16, end: u16)
        requires
            start <= end <= self.height,
        ensures
            final(bus)@ == old(bus)@ + command_data_no_cs_signals(
                Command::Raset,
                range_bytes(start, end),
            ),
    {
        let p = Self::range_param(start, end);
        self.send_command_data_no_cs(bus, Command::Raset, p.as_slice());
    }

    /// Select a window and start writing pixels into it.
    fn set_window(&self, bus: &mut Transcript, start_x: u16, start_y: u16, end_x: u16, end_y: u16)
        requires
            start_x <= end_x <= self.width,
            start_y <= end_y <= self.height,
        ensures
            final(bus)@ == old(bus)@ + window_signals(start_x, start_y, end_x, end_y),
    {
        self.set_columns(bus, start_x, end_x);
        self.set_rows(bus, start_y, end_y);
        self.send_command(bus, Command::Ramwr);
        assert(bus@ =~= old(bus)@ + window_signals(start_x, start_y, end_x, end_y));
    }

    /// Streams pixels, big-endian, in data blocks of at most 4096 pixels.
    fn stream_pixels(&self, bus: &mut Transcript, colors: &[u16])
        ensures
            final(bus)@ == old(bus)@ + data_chunks(color_bytes(colors@)),
    {
        let n = colors.len();
        let mut p: usize = 0;
        assert(colors@.skip(0) =~= colors@);
        while p < n
            invariant
                p <= n,
                n == colors@.len(),
                old(bus)@ + data_chunks(color_bytes(colors@)) == bus@ + data_chunks(
                    color_bytes(colors@.skip(p as int)),
                ),
            decreases n - p,
        {
            let count: usize = if n - p > 4096 {
                4096
            } else {
                n - p
            };
            let mut chunk: Vec<u8> = Vec::new();
            let mut j: usize = 0;
            assert(colors@.subrange(p as int, p as int) =~= Seq::<u16>::empty());
            assert(color_bytes(Seq::<u16>::empty()) =~= Seq::<u8>::empty());
            while j < count
                invariant
                    j <= count,
                    p + count <= n,
                    n == colors@.len(),
                    chunk@ == color_bytes(colors@.subrange(p as int, p + j)),
                decreases count - j,
            {
                let c = colors[p + j];
                proof {
                    lemma_color_bytes_push(colors@.subrange(p as int, p + j), c);
                    assert(colors@.subrange(p as int, p + j).push(c) =~= colors@.subrange(
                        p as int,
                        p + j + 1,
                    ));
                }
                push_be16(&mut chunk, c);
                j = j + 1;
            }
            let ghost s = colors@.skip(p as int);
            let ghost before = bus@;
            proof {
                lemma_color_bytes_take_skip(s, count as int);
                assert(s.take(count as int) =~= colors@.subrange(p as int, p + count));
                assert(s.skip(count as int) =~= colors@.skip(p + count));
                if count < s.len() {
                    assert(data_chunks(color_bytes(s)) == data_signals(
                        color_bytes(s).take(CHUNK_BYTES as int),
                    ) + data_chunks(color_bytes(s).skip(CHUNK_BYTES as int)));
                } else {
                    assert(color_bytes(s).skip(2 * count as int).len() == 0);
                    assert(data_chunks(color_bytes(s)) == data_signals(color_bytes(s)));
                    assert(color_bytes(s).take(2 * count as int) =~= color_bytes(s));
                }
            }
            self.send_data(bus, chunk.as_slice());
            assert(data_chunks(color_bytes(s)) == data_signals(chunk@) + data_chunks(
                color_bytes(colors@.skip(p + count)),
            ));
            assert(before + (data_signals(chunk@) + data_chunks(
                color_bytes(colors@.skip(p + count)),
            )) =~= bus@ + data_chunks(color_bytes(colors@.skip(p + count))));
            p = p + count;
        }
        assert(colors@.skip(n as int) =~= Seq::<u16>::empty());
        assert(color_bytes(Seq::<u16>::empty()) =~= Seq::<u8>::empty());
        assert(bus@ + data_chunks(Seq::<u8>::empty()) =~= bus@);
    }

    /// Draw a solid rectangle with its top left corner at (`x`, `y`).
    pub fn draw_solid_rect(
        &self,
        bus: &mut Transcript,
        x: u16,
        y: u16,
        width: u16,
        height: u16,
        color: u16,
    )
        requires
            span_ok(x, width, self.width),
            span_ok(y, height, self.height),
        ensures
            final(bus)@ == old(bus)@ + rect_signals(x, y, width, height, color),
    {
        self.set_window(bus, x, y, x + width - 1, y + height - 1);
        assert(width as u32 * height as u32 <= 0xffffu32 * 0xffffu32) by (nonlinear_arith)
            requires
                width <= 0xffff,
                height <= 0xffff,
        ;
        let n: u32 = width as u32 * height as u32;
        let chunks: u32 = n / BUFFER_SIZE as u32;
        let rest: u32 = n % BUFFER_SIZE as u32;
        let mut buf: Vec<u8> = Vec::new();
        let mut i: u32 = 0;
        assert(color_bytes(solid(color, 0)) =~= Seq::<u8>::empty());
        while i < 4096
            invariant
                i <= 4096,
                buf@ == color_bytes(solid(color, i as nat)),
            decreases 4096 - i,
        {
            proof {
                lemma_color_bytes_push(solid(color, i as nat), color);
                assert(solid(color, i as nat).push(color) =~= solid(color, (i + 1) as nat));
            }
            push_be16(&mut buf, color);
            i = i + 1;
        }
        let ghost target = old(bus)@ + rect_signals(x, y, width, height, color);
        assert(target =~= bus@ + data_chunks(color_bytes(solid(color, n as nat))));
        let mut k: u32 = 0;
        while k < chunks
            invariant
                k <= chunks,
                chunks == n / 4096,
                rest == n % 4096,
                buf@ == color_bytes(solid(color, 4096)),
                target == bus@ + data_chunks(color_bytes(solid(color, (n - 4096 * k) as nat))),
            decreases chunks - k,
        {
            let ghost m: nat = (n - 4096 * k) as nat;
            let ghost s = solid(color, m);
            let ghost before = bus@;
            proof {
                lemma_color_bytes_take_skip(s, 4096);
                assert(s.take(4096) =~= solid(color, 4096));
                assert(s.skip(4096) =~= solid(color, (m - 4096) as nat));
                if m > 4096 {
                    assert(data_chunks(color_bytes(s)) == data_signals(
                        color_bytes(s).take(CHUNK_BYTES as int),
                    ) + data_chunks(color_bytes(s).skip(CHUNK_BYTES as int)));
                } else {
                    assert(s =~= solid(color, 4096));
                    assert(color_bytes(solid(color, 0)) =~= Seq::<u8>::empty());
                    assert(data_chunks(color_bytes(s)) == data_signals(color_bytes(s)));
                    assert(data_signals(color_bytes(s)) =~= data_signals(color_bytes(s))
                        + data_chunks(color_bytes(solid(color, 0))));
                }
            }
            self.send_data(bus, buf.as_slice());
            assert(before + (data_signals(buf@) + data_chunks(
                color_bytes(solid(color, (m - 4096) as nat)),
            )) =~= bus@ + data_chunks(color_bytes(solid(color, (m - 4096) as nat))));
            k = k + 1;
        }
        assert(n - 4096 * chunks == rest);
        if rest > 0 {
            let part = slice_subrange(buf.as_slice(), 0, 2 * rest as usize);
            proof {
                lemma_color_bytes_take_skip(solid(color, 4096), rest as int);
                assert(solid(color, 4096).take(rest as int) =~= solid(color, rest as nat));
                assert(part@ =~= color_bytes(solid(color, rest as nat)));
            }
            self.send_data(bus, part);
        } else {
            assert(color_bytes(solid(color, 0)) =~= Seq::<u8>::empty());
            assert(bus@ + data_chunks(Seq::<u8>::empty()) =~= bus@);
        }
    }

    /// Fill the screen with a color.
    pub fn fill(&self, bus: &mut Transcript, color: u16)
        requires
            self.width >= 1,
            self.height >= 1,
        ensures
            final(bus)@ == old(bus)@ + fill_signals(self.width, self.height, color),
    {
        proof {
            law_fill_is_screen_rect(self.width, self.height, color);
        }
        self.draw_solid_rect(bus, 0, 0, self.width, self.height, color);
    }

    /// Draw a vertical line of `length` pixels down from (`x`, `y`).
    pub fn draw_vertical_line(&self, bus: &mut Transcript, x: u16, y: u16, length: u16, color: u16)
        requires
            span_ok(x, 1, self.width),
            span_ok(y, length, self.height),
        ensures
            final(bus)@ == old(bus)@ + vertical_line_signals(x, y, length, color),
    {
        proof {
            law_lines_are_thin_rects(x, y, length, color);
        }
        self.draw_solid_rect(bus, x, y, 1, length, color);
    }

    /// Draw a horizontal line of `length` pixels right from (`x`, `y`).
    pub fn draw_horizontal_line(
        &self,
        bus: &mut Transcript,
        x: u16,
        y: u16,
        length: u16,
        color: u16,
    )
        requires
            span_ok(x, length, self.width),
            span_ok(y, 1, self.height),
        ensures
            final(bus)@ == old(bus)@ + horizontal_line_signals(x, y, length, color),
    {
        proof {
            law_lines_are_thin_rects(x, y, length, color);
        }
        self.draw_solid_rect(bus, x, y, length, 1, color);
    }

    /// Draw the outline of a rectangle with its top left corner at (`x`, `y`).
    pub fn draw_hollow_rect(
        &self,
        bus: &mut Transcript,
        x: u16,
        y: u16,
        width: u16,
        height: u16,
        color: u16,
    )
        requires
            span_ok(x, width, self.width),
            span_ok(y, height, self.height),
        ensures
            final(bus)@ == old(bus)@ + hollow_rect_signals(x, y, width, height, color),
    {
        self.draw_horizontal_line(bus, x, y, width, color);
        self.draw_horizontal_line(bus, x, y + height - 1, width, color);
        self.draw_vertical_line(bus, x, y, height, color);
        self.draw_vertical_line(bus, x + width - 1, y, height, color);
        assert(bus@ =~= old(bus)@ + hollow_rect_signals(x, y, width, height, color));
    }

    /// Draw a single pixel. Drawing many pixels this way is slow.
    pub fn pixel(&self, bus: &mut Transcript, x: u16, y: u16, color: u16)
        requires
            x <= self.width,
            y <= self.height,
        ensures
            final(bus)@ == old(bus)@ + pixel_signals(x, y, color),
    {
        self.set_window(bus, x, y, x, y);
        let c = be16_bytes(color);
        self.send_data(bus, c.as_slice());
        assert(bus@ =~= old(bus)@ + pixel_signals(x, y, color));
    }

    /// Draw a buffer of colors into a `width` by `height` area, row by row.
    pub fn draw_color_buf(
        &self,
        bus: &mut Transcript,
        bitmap: &[u16],
        x: u16,
        y: u16,
        width: u16,
        height: u16,
    )
        requires
            bitmap@.len() == width * height,
            span_ok(x, width, self.width),
            span_ok(y, height, self.height),
        ensures
            final(bus)@ == old(bus)@ + color_buf_signals(bitmap@, x, y, width, height),
    {
        self.set_window(bus, x, y, x + width - 1, y + height - 1);
        self.stream_pixels(bus, bitmap);
        assert(bus@ =~= old(bus)@ + color_buf_signals(bitmap@, x, y, width, height));
    }

    /// Draw raw colors, big-endian bytes, into a `width` by `height` area.
    pub fn draw_color_buf_raw(
        &self,
        bus: &mut Transcript,
        buffer: &[u8],
        x: u16,
        y: u16,
        width: u16,
        height: u16,
    )
        requires
            buffer@.len() == width * height * 2,
            span_ok(x, width, self.width),
            span_ok(y, height, self.height),
        ensures
            final(bus)@ == old(bus)@ + color_buf_raw_signals(buffer@, x, y, width, height),
    {
        self.set_window(bus, x, y, x + width - 1, y + height - 1);
        self.send_data(bus, buffer);
        assert(bus@ =~= old(bus)@ + color_buf_raw_signals(buffer@, x, y, width, height));
    }

    /// Set Vertical Scrolling Definition.
    ///
    /// To scroll a 135x240 display these values should be 40, 240, 40.
    /// There are 40 lines above the display that are not shown followed by
    /// 240 lines that are shown followed by 40 more lines that are not shown.
    /// You could write to these areas off display and scroll them into view by
    /// changing the TFA, VSA and BFA values.
    ///
    /// `tfa`: Top Fixed Area; `vsa`: Vertical Scrolling Area; `bfa`: Bottom Fixed Area.
    pub fn vscrdef(&self, bus: &mut Transcript, tfa: u16, vsa: u16, bfa: u16)
        ensures
            final(bus)@ == old(bus)@ + vscrdef_signals(tfa, vsa, bfa),
    {
        self.send_command(bus, Command::Vscrdef);
        let t = be16_bytes(tfa);
        self.send_data(bus, t.as_slice());
        let v = be16_bytes(vsa);
        self.send_data(bus, v.as_slice());
        let b = be16_bytes(bfa);
        self.send_data(bus, b.as_slice());
        assert(bus@ =~= old(bus)@ + vscrdef_signals(tfa, vsa, bfa));
    }

    /// Set Vertical Scroll Start Address of RAM: which line in the frame
    /// memory is shown first after the last line of the Top Fixed Area.
    pub fn vscsad(&self, bus: &mut Transcript, vssa: u16)
        ensures
            final(bus)@ == old(bus)@ + vscsad_signals(vssa),
    {
        self.send_command(bus, Command::Vscsad);
        let v = be16_bytes(vssa);
        self.send_data(bus, v.as_slice());
        assert(bus@ =~= old(bus)@ + vscsad_signals(vssa));
    }

    /// Draw a white line from (`x0`, `y0`) to (`x1`, `y1`), one pixel at a time.
    pub fn line(&self, bus: &mut Transcript, x0: u16, y0: u16, x1: u16, y1: u16)
        requires
            x0 <= self.width,
            x1 <= self.width,
            y0 <= self.height,
            y1 <= self.height,
        ensures
            final(bus)@ == old(bus)@ + line_signals(x0, y0, x1, y1),
    {
        let ghost ends = line_ends(x0, y0, x1, y1);
        let ghost points = line_points(x0, y0, x1, y1);
        let mut a0 = x0;
        let mut b0 = y0;
        let mut a1 = x1;
        let mut b1 = y1;
        let dxa: u16 = if x1 >= x0 {
            x1 - x0
        } else {
            x0 - x1
        };
        let dya: u16 = if y1 >= y0 {
            y1 - y0
        } else {
            y0 - y1
        };
        let steep = dya > dxa;
        assert(steep == line_steep(x0, y0, x1, y1));
        if steep {
            std::mem::swap(&mut a0, &mut b0);
            std::mem::swap(&mut a1, &mut b1);
        }
        if a0 > a1 {
            std::mem::swap(&mut a0, &mut a1);
            std::mem::swap(&mut b0, &mut b1);
        }
        assert(ends == (a0 as int, b0 as int, a1 as int, b1 as int));
        proof {
            lemma_line_ends_extent(x0, y0, x1, y1);
        }
        let dx: i32 = a1 as i32 - a0 as i32;
        let dy: i32 = if b1 >= b0 {
            (b1 - b0) as i32
        } else {
            (b0 - b1) as i32
        };
        assert(dy == dist(b0 as int, b1 as int));
        let mut derror: i32 = dx / 2;
        let ystep: i32 = if b0 < b1 {
            1
        } else {
            -1
        };
        let mut y: i32 = b0 as i32;
        let ghost mut s: int = 0;
        let n: u32 = dx as u32 + 1;
        let mut k: u32 = 0;
        proof {
            lemma_minor_steps_bounds(0, dx as int, dy as int);
        }
        assert(points.take(0) =~= Seq::<(int, int)>::empty());
        assert(bus@ =~= old(bus)@ + pixels_signals(points.take(0), line_color()));
        while k < n
            invariant
                ends == (a0 as int, b0 as int, a1 as int, b1 as int),
                ends == line_ends(x0, y0, x1, y1),
                points == line_points(x0, y0, x1, y1),
                steep == line_steep(x0, y0, x1, y1),
                a0 <= a1,
                dx == a1 - a0,
                dy == dist(b0 as int, b1 as int),
                0 <= dy <= dx,
                n == dx + 1,
                k <= n,
                ystep == (if b0 < b1 { 1int } else { -1int }),
                y == (if b0 < b1 { b0 + s } else { b0 - s }),
                derror == dx / 2 - k * dy + s * dx,
                dx > 0 ==> 0 <= derror < dx,
                dx == 0 ==> s == 0,
                s == minor_steps(k as int, dx as int, dy as int),
                x0 <= self.width,
                x1 <= self.width,
                y0 <= self.height,
                y1 <= self.height,
                bus@ == old(bus)@ + pixels_signals(points.take(k as int), line_color()),
            decreases n - k,
        {
            assert(k <= dx);
            let a: u16 = a0 + k as u16;
            assert(a == a0 + k);
            assert(ends.2 - ends.0 == dx);
            proof {
                lemma_minor_steps_bounds(k as int, dx as int, dy as int);
                lemma_line_point_in_box(x0, y0, x1, y1, k as int);
            }
            let ghost p = line_point(x0, y0, x1, y1, k as int);
            assert(p == (if steep { (y as int, a as int) } else { (a as int, y as int) }));
            if steep {
                self.pixel(bus, y as u16, a, 0xffff);
            } else {
                self.pixel(bus, a, y as u16, 0xffff);
            }
            proof {
                assert(points.take(k + 1).drop_last() =~= points.take(k as int));
                assert(points.take(k + 1).last() == p);
            }
            derror = derror - dy;
            if derror < 0 {
                y = y + ystep;
                derror = derror + dx;
                proof {
                    s = s + 1;
                }
            }
            proof {
                assert(derror == dx / 2 - (k + 1) * dy + s * dx) by (nonlinear_arith)
                    requires
                        derror == dx / 2 - k * dy + s * dx - dy || derror == dx / 2 - k * dy + (
                        s - 1) * dx - dy + dx,
                ;
                if dx > 0 {
                    lemma_minor_steps_from_error((k + 1) as int, dx as int, dy as int, s, derror as int);
                } else {
                    assert(dy == 0);
                }
            }
            k = k + 1;
        }
        assert(points.take(n as int) =~= points);
    }

    /// The first `n` pixels of a glyph, colored by its bitmap.
    fn glyph_pixels(bitmap: &Vec<u8>, n: usize, fg: u16, bg: u16) -> (v: Vec<u16>)
        requires
            n == 0 || (n - 1) / 8 < bitmap@.len(),
        ensures
            v@ == glyph_colors(bitmap@, n as int, fg, bg),
    {
        let mut v: Vec<u16> = Vec::new();
        let mut j: usize = 0;
        assert(v@ =~= glyph_colors(bitmap@, 0, fg, bg));
        while j < n
            invariant
                j <= n,
                n == 0 || (n - 1) / 8 < bitmap@.len(),
                v@ == glyph_colors(bitmap@, j as int, fg, bg),
            decreases n - j,
        {
            let byte_index = j >> 3;
            let bit = (j & 7) as u8;
            assert(byte_index == j / 8) by (bit_vector)
                requires
                    byte_index == j >> 3,
            ;
            assert((j & 7) == j % 8) by (bit_vector);
            proof {
                lemma_div_is_ordered(j as int, (n - 1) as int, 8);
            }
            if bitmap[byte_index] & (0x80u8 >> bit) != 0 {
                v.push(fg);
            } else {
                v.push(bg);
            }
            assert(v@ =~= glyph_colors(bitmap@, j + 1, fg, bg));
            j = j + 1;
        }
        v
    }

    /// Lays out one character of a text (see [`text_step`]).
    fn layout_char(
        &self,
        start_x: u16,
        height: u16,
        c: char,
        glyph: &Option<Glyph>,
        x: u16,
        y: u16,
        end_x: u16,
    ) -> (r: CharLayout)
        ensures
            r@ == text_step(
                self.width,
                self.height,
                start_x as int,
                height as int,
                c,
                *glyph,
                x as int,
                y as int,
                end_x as int,
            ),
    {
        let wide_end: u16 = if x > end_x {
            x
        } else {
            end_x
        };
        if c == '\n' {
            if y as u32 + height as u32 > 0xffff {
                return CharLayout::Fault;
            }
            if y as u32 + 2 * height as u32 > self.height as u32 {
                return CharLayout::Stop { end_x: wide_end, y: y + height };
            }
            return CharLayout::Next { x: start_x, y: y + height, end_x: wide_end, drawn: None };
        }
        match glyph {
            None => CharLayout::Next { x, y, end_x, drawn: None },
            Some(g) => {
                let w = g.width;
                if x as u32 + w as u32 > 0xffff {
                    return CharLayout::Fault;
                }
                let wraps = x + w > self.width;
                if wraps && y as u32 + height as u32 > 0xffff {
                    return CharLayout::Fault;
                }
                let e = if wraps {
                    wide_end
                } else {
                    end_x
                };
                let px = if wraps {
                    start_x
                } else {
                    x
                };
                let py = if wraps {
                    y + height
                } else {
                    y
                };
                if py as u32 + height as u32 > self.height as u32 {
                    return CharLayout::Stop { end_x: wide_end, y: py };
                }
                assert(w as u32 * height as u32 <= 0xffffu32 * 0xffffu32) by (nonlinear_arith)
                    requires
                        w <= 0xffff,
                        height <= 0xffff,
                ;
                let fits_x = 1 <= w && px as u32 + w as u32 <= 0xffff && px as u32 + w as u32 - 1
                    <= self.width as u32;
                let fits_y = 1 <= height && py as u32 + height as u32 <= 0xffff && py as u32
                    + height as u32 - 1 <= self.height as u32;
                assert(1 <= w && 1 <= height ==> w as u32 * height as u32 >= 1) by (nonlinear_arith);
                let fits = fits_x && fits_y && (((w as u32 * height as u32 - 1) / 8) as usize)
                    < g.bitmap.len();
                if !fits {
                    return CharLayout::Fault;
                }
                CharLayout::Next { x: px + w, y: py, end_x: e, drawn: Some((px, py)) }
            },
        }
    }

    /// Draws glyph `g`, `height` rows high, at (`x`, `y`).
    fn draw_glyph(
        &self,
        bus: &mut Transcript,
        g: &Glyph,
        x: u16,
        y: u16,
        height: u16,
        fg: u16,
        bg: u16,
    )
        requires
            glyph_fits(
                x as int,
                y as int,
                g.width as int,
                height as int,
                self.width,
                self.height,
                g.bitmap@.len() as int,
            ),
        ensures
            final(bus)@ == old(bus)@ + glyph_box_signals(x as int, y as int, *g, height, fg, bg),
    {
        let w = g.width;
        self.set_window(bus, x, y, x + w - 1, y + height - 1);
        assert(w as usize * height as usize <= 0xffffusize * 0xffffusize) by (nonlinear_arith)
            requires
                w <= 0xffff,
                height <= 0xffff,
        ;
        let n: usize = w as usize * height as usize;
        let colors = Self::glyph_pixels(&g.bitmap, n, fg, bg);
        self.stream_pixels(bus, colors.as_slice());
        assert(bus@ =~= old(bus)@ + glyph_box_signals(x as int, y as int, *g, height, fg, bg));
    }

    /// Draw text in a bitmap font; `x` and `y` are the top left corner of the
    /// text, and the bottom right corner of the text box is returned.
    ///
    /// `glyphs[i]` is the font's glyph for the `i`-th character of `text`
    /// (ignored for newlines); characters without one are skipped. All glyphs
    /// are `font_height` rows high. A newline, or a glyph that would cross the
    /// right edge of the screen, starts the next line; when the distance to
    /// the bottom of the screen is less than the font height, drawing stops.
    pub fn draw_text(
        &self,
        bus: &mut Transcript,
        x: u16,
        y: u16,
        text: &str,
        glyphs: &[Option<Glyph>],
        font_height: u16,
        font_color: u16,
        background_color: u16,
    ) -> (corner: (u16, u16))
        requires
            glyphs@.len() == text@.len(),
            text_layout(self.width, self.height, x, y, text@, glyphs@, font_height) is Some,
        ensures
            ({
                let l = text_layout(self.width, self.height, x, y, text@, glyphs@, font_height)->Some_0;
                &&& final(bus)@ == old(bus)@ + placements_signals(
                    l.0,
                    glyphs@,
                    font_height,
                    font_color,
                    background_color,
                )
                &&& corner.0 == l.1
                &&& corner.1 == l.2
            }),
    {
        broadcast use vstd::string::axiom_spec_iter, vstd::string::next_postcondition;

        let start_x = x;
        let start_y = y;
        let mut end_x = x;
        let height = font_height;
        let mut cx = x;
        let mut cy = y;
        let ghost full = text_layout(self.width, self.height, start_x, start_y, text@, glyphs@, font_height)->Some_0;
        let ghost mut done: Seq<Placement> = Seq::empty();
        let mut chars = text.chars();
        let mut i: usize = 0;
        assert(text@.skip(0) =~= text@);
        assert(done + full.0 =~= full.0);
        assert(bus@ =~= old(bus)@ + placements_signals(
            done,
            glyphs@,
            height,
            font_color,
            background_color,
        ));
        loop
            invariant
                i <= text@.len(),
                glyphs@.len() == text@.len(),
                chars.remaining() == text@.skip(i as int),
                height == font_height,
                start_x == x,
                start_y == y,
                full == text_layout(self.width, self.height, start_x, start_y, text@, glyphs@, font_height)->Some_0,
                layout_from(
                    self.width,
                    self.height,
                    start_x as int,
                    height as int,
                    text@,
                    glyphs@,
                    i as nat,
                    cx as int,
                    cy as int,
                    end_x as int,
                ) is Some,
                ({
                    let r = layout_from(
                        self.width,
                        self.height,
                        start_x as int,
                        height as int,
                        text@,
                        glyphs@,
                        i as nat,
                        cx as int,
                        cy as int,
                        end_x as int,
                    )->Some_0;
                    &&& full.0 == done + r.0
                    &&& full.1 == r.1
                    &&& full.2 == r.2
                }),
                bus@ == old(bus)@ + placements_signals(
                    done,
                    glyphs@,
                    height,
                    font_color,
                    background_color,
                ),
            decreases text@.len() - i,
        {
            let ghost rest = layout_from(
                self.width,
                self.height,
                start_x as int,
                height as int,
                text@,
                glyphs@,
                i as nat,
                cx as int,
                cy as int,
                end_x as int,
            );
            let next = chars.next();
            match next {
                None => {
                    assert(done + Seq::<Placement>::empty() =~= done);
                    let right: u16 = if cx > end_x {
                        cx
                    } else {
                        end_x
                    };
                    return (right, cy + height);
                },
                Some(c) => {
                    assert(text@.skip(i as int)[0] == text@[i as int]);
                    assert(text@.skip(i as int).drop_first() =~= text@.skip(i + 1));
                    let step = self.layout_char(start_x, height, c, &glyphs[i], cx, cy, end_x);
                    let ghost r = rest->Some_0;
                    match step {
                        CharLayout::Fault => {
                            // `text_layout` is `Some`, so no character faults.
                            assert(false);
                            return (end_x, cy);
                        },
                        CharLayout::Stop { end_x: ne, y: ny } => {
                            assert(done + Seq::<Placement>::empty() =~= done);
                            return (ne, ny);
                        },
                        CharLayout::Next { x: nx, y: ny, end_x: ne, drawn } => {
                            match drawn {
                                None => {},
                                Some((px, py)) => {
                                    match &glyphs[i] {
                                        Some(g) => {
                                            self.draw_glyph(
                                                bus,
                                                g,
                                                px,
                                                py,
                                                height,
                                                font_color,
                                                background_color,
                                            );
                                        },
                                        None => {},
                                    }
                                    proof {
                                        let p = Placement { index: i as int, x: px as int, y: py as int };
                                        assert(r.0[0] == p);
                                        assert(done + r.0 =~= done.push(p) + r.0.drop_first());
                                        assert(done.push(p).drop_last() =~= done);
                                        done = done.push(p);
                                    }
                                },
                            }
                            cx = nx;
                            cy = ny;
                            end_x = ne;
                            i = i + 1;
                        },
                    }
                },
            }
        }
    }

    /// Whether [`ST7789Display::draw_text`] accepts this text: its layout
    /// fits this panel and the 16-bit coordinates.
    pub fn text_fits(
        &self,
        x: u16,
        y: u16,
        text: &str,
        glyphs: &[Option<Glyph>],
        font_height: u16,
    ) -> (b: bool)
        requires
            glyphs@.len() == text@.len(),
        ensures
            b == text_layout(self.width, self.height, x, y, text@, glyphs@, font_height) is Some,
    {
        broadcast use vstd::string::axiom_spec_iter, vstd::string::next_postcondition;

        let mut cx = x;
        let mut cy = y;
        let mut end_x = x;
        let mut chars = text.chars();
        let mut i: usize = 0;
        assert(text@.skip(0) =~= text@);
        loop
            invariant
                i <= text@.len(),
                glyphs@.len() == text@.len(),
                chars.remaining() == text@.skip(i as int),
                (text_layout(self.width, self.height, x, y, text@, glyphs@, font_height) is Some)
                    == (layout_from(
                    self.width,
                    self.height,
                    x as int,
                    font_height as int,
                    text@,
                    glyphs@,
                    i as nat,
                    cx as int,
                    cy as int,
                    end_x as int,
                ) is Some),
            decreases text@.len() - i,
        {
            let next = chars.next();
            match next {
                None => {
                    assert(i == text@.len());
                    return cy as u32 + font_height as u32 <= 0xffff;
                },
                Some(c) => {
                    assert(text@.skip(i as int)[0] == text@[i as int]);
                    assert(text@.skip(i as int).drop_first() =~= text@.skip(i + 1));
                    match self.layout_char(x, font_height, c, &glyphs[i], cx, cy, end_x) {
                        CharLayout::Fault => {
                            return false;
                        },
                        CharLayout::Stop { .. } => {
                            return true;
                        },
                        CharLayout::Next { x: nx, y: ny, end_x: ne, drawn: _ } => {
                            cx = nx;
                            cy = ny;
                            end_x = ne;
                            i = i + 1;
                        },
                    }
                },
            }
        }
    }
}

} // verus!
