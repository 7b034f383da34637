//! The bytes each operation puts on the SPI bus, written out byte by byte.
use vstd::prelude::*;

use crate::bus::Signal;
use crate::command::{Command, Rotation};
use crate::laws::{law_chunks_carry_stream, lemma_written_concat, written_bytes};
use crate::protocol::{
    color_bytes, color_mode_signals, command_data_signals, command_signals, data_chunks,
    data_signals, hard_reset_signals, hollow_rect_signals, init_signals, inversion_mode_signals,
    rect_signals, rotation_signals, sleep_mode_signals, soft_reset_signals, solid,
    vscrdef_signals, vscsad_signals, window_signals,
};
use crate::command::ColorMode;
use crate::line::{line_color, line_points, line_signals, pixels_signals};
use crate::protocol::{color_buf_raw_signals, color_buf_signals, pixel_signals};
use crate::text::{glyph_box_signals, glyph_colors, Glyph};

verus! {

/// The high byte of a 16-bit value.
pub open spec fn hi(v: u16) -> u8 {
    (v / 256) as u8
}

/// The low byte of a 16-bit value.
pub open spec fn lo(v: u16) -> u8 {
    (v % 256) as u8
}

/// The bytes that select the panel window `[x0, x1] x [y0, y1]`: column
/// address set (0x2A) with start and end column, row address set (0x2B) with
/// start and end row, then memory write (0x2C).
pub open spec fn window_bytes(x0: u16, y0: u16, x1: u16, y1: u16) -> Seq<u8> {
    seq![
        0x2Au8,
        hi(x0),
        lo(x0),
        hi(x1),
        lo(x1),
        0x2Bu8,
        hi(y0),
        lo(y0),
        hi(y1),
        lo(y1),
        0x2Cu8,
    ]
}

/// `n` pixels of color `c`: its high byte, then its low byte, `n` times.
pub open spec fn color_run(c: u16, n: int) -> Seq<u8> {
    Seq::new(
        (2 * n) as nat,
        |i: int|
            if i % 2 == 0 {
                hi(c)
            } else {
                lo(c)
            },
    )
}

proof fn lemma_written_one(s: Signal)
    ensures
        written_bytes(seq![s]) == match s {
            Signal::Write(b) => b,
            _ => Seq::<u8>::empty(),
        },
{
    assert(seq![s].drop_last() =~= Seq::<Signal>::empty());
    assert(seq![s].last() == s);
    assert(seq![s].len() == 1);
    assert(written_bytes(Seq::<Signal>::empty()) == Seq::<u8>::empty());
    assert(Seq::<u8>::empty() + match s {
        Signal::Write(b) => b,
        _ => Seq::<u8>::empty(),
    } =~= match s {
        Signal::Write(b) => b,
        _ => Seq::<u8>::empty(),
    });
}

proof fn lemma_written_command(c: Command)
    ensures
        written_bytes(command_signals(c)) == seq![c.opcode()],
{
    let s = command_signals(c);
    assert(s =~= seq![Signal::CsPin(false)] + seq![Signal::DcPin(false)] + seq![
        Signal::Write(seq![c.opcode()]),
    ] + seq![Signal::CsPin(true)]);
    lemma_written_one(Signal::CsPin(false));
    lemma_written_one(Signal::DcPin(false));
    lemma_written_one(Signal::Write(seq![c.opcode()]));
    lemma_written_one(Signal::CsPin(true));
    lemma_written_concat(seq![Signal::CsPin(false)], seq![Signal::DcPin(false)]);
    lemma_written_concat(
        seq![Signal::CsPin(false)] + seq![Signal::DcPin(false)],
        seq![Signal::Write(seq![c.opcode()])],
    );
    lemma_written_concat(
        seq![Signal::CsPin(false)] + seq![Signal::DcPin(false)] + seq![
            Signal::Write(seq![c.opcode()]),
        ],
        seq![Signal::CsPin(true)],
    );
    assert(Seq::<u8>::empty() + Seq::<u8>::empty() + seq![c.opcode()] + Seq::<u8>::empty()
        =~= seq![c.opcode()]);
}

proof fn lemma_written_data(b: Seq<u8>)
    ensures
        written_bytes(data_signals(b)) == b,
{
    let s = data_signals(b);
    assert(s =~= seq![Signal::CsPin(false)] + seq![Signal::DcPin(true)] + seq![Signal::Write(b)]
        + seq![Signal::CsPin(true)]);
    lemma_written_one(Signal::CsPin(false));
    lemma_written_one(Signal::DcPin(true));
    lemma_written_one(Signal::Write(b));
    lemma_written_one(Signal::CsPin(true));
    lemma_written_concat(seq![Signal::CsPin(false)], seq![Signal::DcPin(true)]);
    lemma_written_concat(
        seq![Signal::CsPin(false)] + seq![Signal::DcPin(true)],
        seq![Signal::Write(b)],
    );
    lemma_written_concat(
        seq![Signal::CsPin(false)] + seq![Signal::DcPin(true)] + seq![Signal::Write(b)],
        seq![Signal::CsPin(true)],
    );
    assert(Seq::<u8>::empty() + Seq::<u8>::empty() + b + Seq::<u8>::empty() =~= b);
}

proof fn lemma_written_command_data(c: Command, b: Seq<u8>)
    ensures
        written_bytes(command_data_signals(c, b)) == seq![c.opcode()] + b,
{
    let head = seq![Signal::CsPin(false), Signal::DcPin(false)];
    let s = command_data_signals(c, b);
    assert(s =~= seq![Signal::CsPin(false)] + seq![Signal::DcPin(false)] + seq![
        Signal::Write(seq![c.opcode()]),
    ] + seq![Signal::DcPin(true)] + seq![Signal::Write(b)] + seq![Signal::CsPin(true)]);
    lemma_written_one(Signal::CsPin(false));
    lemma_written_one(Signal::DcPin(false));
    lemma_written_one(Signal::Write(seq![c.opcode()]));
    lemma_written_one(Signal::DcPin(true));
    lemma_written_one(Signal::Write(b));
    lemma_written_one(Signal::CsPin(true));
    let p1 = seq![Signal::CsPin(false)];
    let p2 = p1 + seq![Signal::DcPin(false)];
    let p3 = p2 + seq![Signal::Write(seq![c.opcode()])];
    let p4 = p3 + seq![Signal::DcPin(true)];
    let p5 = p4 + seq![Signal::Write(b)];
    lemma_written_concat(p1, seq![Signal::DcPin(false)]);
    lemma_written_concat(p2, seq![Signal::Write(seq![c.opcode()])]);
    lemma_written_concat(p3, seq![Signal::DcPin(true)]);
    lemma_written_concat(p4, seq![Signal::Write(b)]);
    lemma_written_concat(p5, seq![Signal::CsPin(true)]);
    assert(Seq::<u8>::empty() + Seq::<u8>::empty() + seq![c.opcode()] + Seq::<u8>::empty() + b
        + Seq::<u8>::empty() =~= seq![c.opcode()] + b);
}

/// Selecting a window writes the column range, the row range and the memory
/// write command, each coordinate high byte first.
pub proof fn law_window_bytes(x0: u16, y0: u16, x1: u16, y1: u16)
    ensures
        written_bytes(window_signals(x0, y0, x1, y1)) == window_bytes(x0, y0, x1, y1),
{
    let a = command_data_signals(Command::Caset, crate::protocol::range_bytes(x0, x1));
    let b = command_data_signals(Command::Raset, crate::protocol::range_bytes(y0, y1));
    let c = command_signals(Command::Ramwr);
    lemma_written_command_data(Command::Caset, crate::protocol::range_bytes(x0, x1));
    lemma_written_command_data(Command::Raset, crate::protocol::range_bytes(y0, y1));
    lemma_written_command(Command::Ramwr);
    lemma_written_concat(a, b);
    lemma_written_concat(a + b, c);
    assert(written_bytes(window_signals(x0, y0, x1, y1)) =~= window_bytes(x0, y0, x1, y1));
}

/// A solid rectangle writes its window's selection, then its color, high
/// byte first, once for each of its `width * height` pixels.
pub proof fn law_rect_bytes(x: u16, y: u16, width: u16, height: u16, color: u16)
    ensures
        written_bytes(rect_signals(x, y, width, height, color)) == window_bytes(
            x,
            y,
            (x + width - 1) as u16,
            (y + height - 1) as u16,
        ) + color_run(color, width * height),
{
    let w = window_signals(x, y, (x + width - 1) as u16, (y + height - 1) as u16);
    let d = color_bytes(solid(color, (width * height) as nat));
    law_window_bytes(x, y, (x + width - 1) as u16, (y + height - 1) as u16);
    law_chunks_carry_stream(d);
    lemma_written_concat(w, data_chunks(d));
    assert(d =~= color_run(color, width * height));
}

/// An outline writes four edges in the color passed in: the top row, the
/// bottom row, the left column and the right column, each as its window's
/// selection followed by one color per pixel of the edge.
pub proof fn law_hollow_rect_bytes(x: u16, y: u16, width: u16, height: u16, color: u16)
    ensures
        written_bytes(hollow_rect_signals(x, y, width, height, color)) == window_bytes(
            x,
            y,
            (x + width - 1) as u16,
            y,
        ) + color_run(color, width as int) + window_bytes(
            x,
            (y + height - 1) as u16,
            (x + width - 1) as u16,
            (y + height - 1) as u16,
        ) + color_run(color, width as int) + window_bytes(x, y, x, (y + height - 1) as u16)
            + color_run(color, height as int) + window_bytes(
            (x + width - 1) as u16,
            y,
            (x + width - 1) as u16,
            (y + height - 1) as u16,
        ) + color_run(color, height as int),
{
    let ey = (y + height - 1) as u16;
    let ex = (x + width - 1) as u16;
    let a = rect_signals(x, y, width, 1, color);
    let b = rect_signals(x, ey, width, 1, color);
    let c = rect_signals(x, y, 1, height, color);
    let d = rect_signals(ex, y, 1, height, color);
    law_rect_bytes(x, y, width, 1, color);
    law_rect_bytes(x, ey, width, 1, color);
    law_rect_bytes(x, y, 1, height, color);
    law_rect_bytes(ex, y, 1, height, color);
    assert((y + 1 - 1) as u16 == y);
    assert((x + 1 - 1) as u16 == x);
    assert((ey + 1 - 1) as u16 == ey);
    assert((ex + 1 - 1) as u16 == ex);
    assert(width * 1 == width as int);
    assert(1 * height == height as int);
    lemma_written_concat(a, b);
    lemma_written_concat(a + b, c);
    lemma_written_concat(a + b + c, d);
    assert(hollow_rect_signals(x, y, width, height, color) == a + b + c + d);
}

/// Defining the scroll areas writes VSCRDEF (0x33), then the top fixed area,
/// the scrolling area and the bottom fixed area, each high byte first.
pub proof fn law_vscrdef_bytes(tfa: u16, vsa: u16, bfa: u16)
    ensures
        written_bytes(vscrdef_signals(tfa, vsa, bfa)) == seq![
            0x33u8,
            hi(tfa),
            lo(tfa),
            hi(vsa),
            lo(vsa),
            hi(bfa),
            lo(bfa),
        ],
{
    let a = command_signals(Command::Vscrdef);
    let b = data_signals(crate::bus::be16(tfa));
    let c = data_signals(crate::bus::be16(vsa));
    let d = data_signals(crate::bus::be16(bfa));
    lemma_written_command(Command::Vscrdef);
    lemma_written_data(crate::bus::be16(tfa));
    lemma_written_data(crate::bus::be16(vsa));
    lemma_written_data(crate::bus::be16(bfa));
    lemma_written_concat(a, b);
    lemma_written_concat(a + b, c);
    lemma_written_concat(a + b + c, d);
    assert(written_bytes(vscrdef_signals(tfa, vsa, bfa)) =~= seq![
        0x33u8,
        hi(tfa),
        lo(tfa),
        hi(vsa),
        lo(vsa),
        hi(bfa),
        lo(bfa),
    ]);
}

/// Setting the scroll start writes VSCSAD (0x37), then the start line, high
/// byte first.
pub proof fn law_vscsad_bytes(vssa: u16)
    ensures
        written_bytes(vscsad_signals(vssa)) == seq![0x37u8, hi(vssa), lo(vssa)],
{
    let a = command_signals(Command::Vscsad);
    let b = data_signals(crate::bus::be16(vssa));
    lemma_written_command(Command::Vscsad);
    lemma_written_data(crate::bus::be16(vssa));
    lemma_written_concat(a, b);
    assert(written_bytes(vscsad_signals(vssa)) =~= seq![0x37u8, hi(vssa), lo(vssa)]);
}

/// The register value of each command, as the ST7789 defines it.
pub open spec fn opcode_table(c: Command) -> u8 {
    match c {
        Command::Nop => 0x00,
        Command::Swreset => 0x01,
        Command::Rddid => 0x04,
        Command::Rddst => 0x09,
        Command::Slpin => 0x10,
        Command::Slpout => 0x11,
        Command::Ptlon => 0x12,
        Command::Noron => 0x13,
        Command::Invoff => 0x20,
        Command::Invon => 0x21,
        Command::Dispoff => 0x28,
        Command::Dispon => 0x29,
        Command::Caset => 0x2A,
        Command::Raset => 0x2B,
        Command::Ramwr => 0x2C,
        Command::Ramrd => 0x2E,
        Command::Ptlar => 0x30,
        Command::Vscrdef => 0x33,
        Command::Colmod => 0x3A,
        Command::Madctl => 0x36,
        Command::Vscsad => 0x37,
    }
}

/// Sending a command writes exactly its ST7789 register value, and distinct
/// commands write distinct values; turning the display, sleep or inversion
/// on and off differ in the lowest bit only.
pub proof fn law_command_bytes(c: Command, d: Command)
    ensures
        written_bytes(command_signals(c)) == seq![opcode_table(c)],
        c != d ==> c.opcode() != d.opcode(),
        Command::Dispon.opcode() == Command::Dispoff.opcode() + 1,
        Command::Slpout.opcode() == Command::Slpin.opcode() + 1,
        Command::Invon.opcode() == Command::Invoff.opcode() + 1,
{
    lemma_written_command(c);
}

/// The MADCTL value of an orientation, from the register's row/column
/// exchange (0x20), column order (0x40) and row order (0x80) bits.
pub open spec fn madctl_bits(r: Rotation) -> u8 {
    match r {
        Rotation::Portrait => 0x00,
        Rotation::Landscape => 0x20u8 | 0x40u8,
        Rotation::InvertedPortrait => 0x40u8 | 0x80u8,
        Rotation::InvertedLandscape => 0x20u8 | 0x80u8,
    }
}

proof fn lemma_written_quiet(s: Seq<Signal>)
    requires
        forall|i: int| 0 <= i < s.len() ==> !(#[trigger] s[i] is Write),
    ensures
        written_bytes(s) == Seq::<u8>::empty(),
    decreases s.len(),
{
    if s.len() > 0 {
        lemma_written_quiet(s.drop_last());
        assert(!(s.last() is Write));
        assert(Seq::<u8>::empty() + Seq::<u8>::empty() =~= Seq::<u8>::empty());
    }
}

/// The power-up sequence writes, in order: software reset (0x01), sleep out
/// (0x11), the pixel format 0x55 (COLMOD, 0x3A), the orientation asked for
/// (MADCTL, 0x36), inversion on (0x21), normal mode (0x13), a black screen
/// over the whole panel, and display on (0x29).
pub proof fn law_init_bytes(has_reset: bool, width: u16, height: u16, rotation: Rotation)
    ensures
        written_bytes(init_signals(has_reset, width, height, rotation)) == seq![
            0x01u8,
            0x11u8,
            0x3Au8,
            0x55u8,
            0x36u8,
            madctl_bits(rotation),
            0x21u8,
            0x13u8,
        ] + window_bytes(0, 0, (width - 1) as u16, (height - 1) as u16) + color_run(
            0,
            width * height,
        ) + seq![0x29u8],
{
    assert(0x20u8 | 0x40u8 == 0x60u8) by (bit_vector);
    assert(0x40u8 | 0x80u8 == 0xC0u8) by (bit_vector);
    assert(0x20u8 | 0x80u8 == 0xA0u8) by (bit_vector);
    let p1 = hard_reset_signals(has_reset);
    let p2 = soft_reset_signals();
    let p3 = sleep_mode_signals(false);
    let p4 = color_mode_signals(0x55);
    let p5 = seq![Signal::DelayMs(50)];
    let p6 = rotation_signals(rotation);
    let p7 = inversion_mode_signals(true);
    let p8 = seq![Signal::DelayMs(10)];
    let p9 = command_signals(Command::Noron);
    let p10 = seq![Signal::DelayMs(10)];
    let p11 = rect_signals(0, 0, width, height, 0);
    let p12 = command_signals(Command::Dispon);
    let p13 = seq![Signal::BacklightPin(true)];
    let p14 = seq![Signal::DelayMs(500)];
    if has_reset {
        assert forall|i: int| 0 <= i < p1.len() implies !(#[trigger] p1[i] is Write) by {}
    }
    lemma_written_quiet(p1);
    lemma_written_command(Command::Swreset);
    lemma_written_concat(command_signals(Command::Swreset), seq![Signal::DelayMs(150)]);
    lemma_written_one(Signal::DelayMs(150));
    lemma_written_command(Command::Slpout);
    lemma_written_command_data(Command::Colmod, seq![0x55u8]);
    lemma_written_one(Signal::DelayMs(50));
    lemma_written_command_data(Command::Madctl, seq![rotation.madctl()]);
    lemma_written_command(Command::Invon);
    lemma_written_one(Signal::DelayMs(10));
    lemma_written_command(Command::Noron);
    law_rect_bytes(0, 0, width, height, 0);
    lemma_written_command(Command::Dispon);
    lemma_written_one(Signal::BacklightPin(true));
    lemma_written_one(Signal::DelayMs(500));
    let q2 = p1 + p2;
    let q3 = q2 + p3;
    let q4 = q3 + p4;
    let q5 = q4 + p5;
    let q6 = q5 + p6;
    let q7 = q6 + p7;
    let q8 = q7 + p8;
    let q9 = q8 + p9;
    let q10 = q9 + p10;
    let q11 = q10 + p11;
    let q12 = q11 + p12;
    let q13 = q12 + p13;
    lemma_written_concat(p1, p2);
    lemma_written_concat(q2, p3);
    lemma_written_concat(q3, p4);
    lemma_written_concat(q4, p5);
    lemma_written_concat(q5, p6);
    lemma_written_concat(q6, p7);
    lemma_written_concat(q7, p8);
    lemma_written_concat(q8, p9);
    lemma_written_concat(q9, p10);
    lemma_written_concat(q10, p11);
    lemma_written_concat(q11, p12);
    lemma_written_concat(q12, p13);
    lemma_written_concat(q13, p14);
    assert(init_signals(has_reset, width, height, rotation) == q13 + p14);
    assert(written_bytes(q13 + p14) =~= seq![
        0x01u8,
        0x11u8,
        0x3Au8,
        0x55u8,
        0x36u8,
        madctl_bits(rotation),
        0x21u8,
        0x13u8,
    ] + window_bytes(0, 0, (width - 1) as u16, (height - 1) as u16) + color_run(
        0,
        width * height,
    ) + seq![0x29u8]);
}

proof fn lemma_bit_forms(b: u8, k: u8)
    requires
        k < 8,
    ensures
        (b & (0x80u8 >> k) != 0u8) == ((b >> ((7u8 - k) as u8)) & 1u8 == 1u8),
{
    assert((b & (0x80u8 >> k) != 0u8) == ((b >> ((7u8 - k) as u8)) & 1u8 == 1u8)) by (bit_vector)
        requires
            k < 8,
    ;
}

/// A glyph writes its box's selection, then for each of its `width * h`
/// pixels in order, high byte first, the font color where the pixel's bit
/// is set and the background color elsewhere; pixel `j`'s bit is bit
/// `7 - j % 8` of bitmap byte `j / 8`.
pub proof fn law_glyph_bytes(x: int, y: int, g: Glyph, h: u16, fg: u16, bg: u16)
    ensures
        written_bytes(glyph_box_signals(x, y, g, h, fg, bg)) == window_bytes(
            x as u16,
            y as u16,
            (x + g.width - 1) as u16,
            (y + h - 1) as u16,
        ) + Seq::new(
            (2 * (g.width * h)) as nat,
            |i: int|
                {
                    let j = i / 2;
                    let c = if (g.bitmap@[j / 8] >> ((7 - j % 8) as u8)) & 1u8 == 1u8 {
                        fg
                    } else {
                        bg
                    };
                    if i % 2 == 0 {
                        hi(c)
                    } else {
                        lo(c)
                    }
                },
        ),
{
    let w = g.width as int;
    let n = w * h;
    let d = color_bytes(glyph_colors(g.bitmap@, n, fg, bg));
    let win = window_signals(x as u16, y as u16, (x + w - 1) as u16, (y + h - 1) as u16);
    law_window_bytes(x as u16, y as u16, (x + w - 1) as u16, (y + h - 1) as u16);
    law_chunks_carry_stream(d);
    lemma_written_concat(win, data_chunks(d));
    assert(n >= 0) by (nonlinear_arith)
        requires
            w >= 0,
            h >= 0,
            n == w * h,
    ;
    let expect = Seq::new(
        (2 * n) as nat,
        |i: int|
            {
                let j = i / 2;
                let c = if (g.bitmap@[j / 8] >> ((7 - j % 8) as u8)) & 1u8 == 1u8 {
                    fg
                } else {
                    bg
                };
                if i % 2 == 0 {
                    hi(c)
                } else {
                    lo(c)
                }
            },
    );
    assert forall|i: int| 0 <= i < d.len() implies #[trigger] d[i] == expect[i] by {
        let j = i / 2;
        let k = (j % 8) as u8;
        lemma_bit_forms(g.bitmap@[j / 8], k);
        assert(((7 - j % 8) as u8) == ((7u8 - k) as u8));
    }
    assert(d =~= expect);
}

/// The register settings write their command, then their value: sleep in
/// (0x10) or out (0x11), inversion on (0x21) or off (0x20), the pixel format
/// (COLMOD, 0x3A) as given, the orientation (MADCTL, 0x36), and the
/// software reset (0x01).
pub proof fn law_settings_bytes(value: bool, mode: u8, rotation: Rotation)
    ensures
        written_bytes(sleep_mode_signals(value)) == seq![if value { 0x10u8 } else { 0x11u8 }],
        written_bytes(inversion_mode_signals(value)) == seq![
            if value {
                0x21u8
            } else {
                0x20u8
            },
        ],
        written_bytes(color_mode_signals(mode)) == seq![0x3Au8, mode],
        written_bytes(rotation_signals(rotation)) == seq![0x36u8, madctl_bits(rotation)],
        written_bytes(soft_reset_signals()) == seq![0x01u8],
{
    assert(0x20u8 | 0x40u8 == 0x60u8) by (bit_vector);
    assert(0x40u8 | 0x80u8 == 0xC0u8) by (bit_vector);
    assert(0x20u8 | 0x80u8 == 0xA0u8) by (bit_vector);
    lemma_written_command(if value { Command::Slpin } else { Command::Slpout });
    lemma_written_command(if value { Command::Invon } else { Command::Invoff });
    lemma_written_command_data(Command::Colmod, seq![mode]);
    lemma_written_command_data(Command::Madctl, seq![rotation.madctl()]);
    assert(seq![Command::Colmod.opcode()] + seq![mode] =~= seq![0x3Au8, mode]);
    assert(seq![Command::Madctl.opcode()] + seq![rotation.madctl()] =~= seq![
        0x36u8,
        madctl_bits(rotation),
    ]);
    lemma_written_command(Command::Swreset);
    lemma_written_one(Signal::DelayMs(150));
    lemma_written_concat(command_signals(Command::Swreset), seq![Signal::DelayMs(150)]);
    assert(seq![0x01u8] + Seq::<u8>::empty() =~= seq![0x01u8]);
}

/// The pixel formats: the interface formats set the upper nibble (65k colors
/// 0x50, 262k colors 0x60), the control formats the lower one (12, 16 and
/// 18 bits 0x03, 0x05, 0x06; 16M colors 0x07), and `|` combines the two.
pub proof fn law_color_mode_bits(a: ColorMode, b: ColorMode)
    ensures
        a.bits() == match a {
            ColorMode::ColorMode65k => 0x50u8,
            ColorMode::ColorMode262k => 0x60u8,
            ColorMode::ColorMode12bit => 0x03u8,
            ColorMode::ColorMode16bit => 0x05u8,
            ColorMode::ColorMode18bit => 0x06u8,
            ColorMode::ColorMode16m => 0x07u8,
        },
        (ColorMode::ColorMode65k.bits() | ColorMode::ColorMode16bit.bits()) == 0x55u8,
        (ColorMode::ColorMode262k.bits() | ColorMode::ColorMode18bit.bits()) == 0x66u8,
{
    assert(0x50u8 | 0x05u8 == 0x55u8) by (bit_vector);
    assert(0x60u8 | 0x06u8 == 0x66u8) by (bit_vector);
}

/// A pixel writes its one-pixel window's selection, then its color, high
/// byte first.
pub proof fn law_pixel_bytes(x: u16, y: u16, color: u16)
    ensures
        written_bytes(pixel_signals(x, y, color)) == window_bytes(x, y, x, y) + seq![
            hi(color),
            lo(color),
        ],
{
    law_window_bytes(x, y, x, y);
    lemma_written_data(crate::bus::be16(color));
    lemma_written_concat(window_signals(x, y, x, y), data_signals(crate::bus::be16(color)));
}

/// A bitmap writes its window's selection, then each of its colors in order,
/// high byte first; raw bytes are written as given after the selection.
pub proof fn law_color_buf_bytes(
    bitmap: Seq<u16>,
    buffer: Seq<u8>,
    x: u16,
    y: u16,
    width: u16,
    height: u16,
)
    ensures
        written_bytes(color_buf_signals(bitmap, x, y, width, height)) == window_bytes(
            x,
            y,
            (x + width - 1) as u16,
            (y + height - 1) as u16,
        ) + Seq::new(
            2 * bitmap.len(),
            |i: int|
                if i % 2 == 0 {
                    hi(bitmap[i / 2])
                } else {
                    lo(bitmap[i / 2])
                },
        ),
        written_bytes(color_buf_raw_signals(buffer, x, y, width, height)) == window_bytes(
            x,
            y,
            (x + width - 1) as u16,
            (y + height - 1) as u16,
        ) + buffer,
{
    let ex = (x + width - 1) as u16;
    let ey = (y + height - 1) as u16;
    let d = color_bytes(bitmap);
    law_window_bytes(x, y, ex, ey);
    law_chunks_carry_stream(d);
    lemma_written_concat(window_signals(x, y, ex, ey), data_chunks(d));
    assert(d =~= Seq::new(
        2 * bitmap.len(),
        |i: int|
            if i % 2 == 0 {
                hi(bitmap[i / 2])
            } else {
                lo(bitmap[i / 2])
            },
    ));
    lemma_written_data(buffer);
    lemma_written_concat(window_signals(x, y, ex, ey), data_signals(buffer));
}

/// The bytes drawing `points` one pixel at a time writes: for each point in
/// order, its one-pixel window's selection and the color.
pub open spec fn pixel_run(points: Seq<(int, int)>, color: u16) -> Seq<u8> {
    Seq::new(
        13 * points.len(),
        |i: int|
            (window_bytes(
                points[i / 13].0 as u16,
                points[i / 13].1 as u16,
                points[i / 13].0 as u16,
                points[i / 13].1 as u16,
            ) + seq![hi(color), lo(color)])[i % 13],
    )
}

/// Drawing pixels one at a time writes each point's selection and color, in
/// order.
pub proof fn law_pixels_bytes(points: Seq<(int, int)>, color: u16)
    ensures
        written_bytes(pixels_signals(points, color)) == pixel_run(points, color),
    decreases points.len(),
{
    if points.len() == 0 {
        assert(pixel_run(points, color) =~= Seq::<u8>::empty());
    } else {
        let init = points.drop_last();
        let p = points.last();
        law_pixels_bytes(init, color);
        law_pixel_bytes(p.0 as u16, p.1 as u16, color);
        lemma_written_concat(
            pixels_signals(init, color),
            pixel_signals(p.0 as u16, p.1 as u16, color),
        );
        let n = init.len() as int;
        let tail = window_bytes(p.0 as u16, p.1 as u16, p.0 as u16, p.1 as u16) + seq![
            hi(color),
            lo(color),
        ];
        assert forall|i: int| 0 <= i < 13 * (n + 1) implies #[trigger] pixel_run(points, color)[i]
            == (pixel_run(init, color) + tail)[i] by {
            if i < 13 * n {
                assert(i / 13 < n);
                assert(points[i / 13] == init[i / 13]);
            } else {
                assert(i / 13 == n);
                assert(i % 13 == i - 13 * n);
            }
        }
        assert(pixel_run(points, color) =~= pixel_run(init, color) + tail);
    }
}

/// A line writes, for each of its pixels in order, that pixel's selection
/// and white (0xFFFF).
pub proof fn law_line_bytes(x0: u16, y0: u16, x1: u16, y1: u16)
    ensures
        written_bytes(line_signals(x0, y0, x1, y1)) == pixel_run(
            line_points(x0, y0, x1, y1),
            0xFFFF,
        ),
{
    law_pixels_bytes(line_points(x0, y0, x1, y1), line_color());
}

} // verus!
