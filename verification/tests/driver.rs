use st7789::{
    BusOp, ColorMode, Command, Glyph, NoPin, OptionalOutput, Rotation, ST7789Display, Transcript,
};

fn panel(width: u16, height: u16) -> ST7789Display {
    ST7789Display { width, height, has_reset: false }
}

/// The bytes of every SPI write, in order.
fn writes(t: &Transcript) -> Vec<Vec<u8>> {
    t.ops
        .iter()
        .filter_map(|op| match op {
            BusOp::Write(b) => Some(b.clone()),
            _ => None,
        })
        .collect()
}

/// Whether every SPI write happens while chip select is low, starting and
/// ending with it high.
fn framed(t: &Transcript) -> bool {
    let mut selected = false;
    for op in &t.ops {
        match op {
            BusOp::CsPin(level) => selected = !*level,
            BusOp::Write(_) => {
                if !selected {
                    return false;
                }
            }
            _ => {}
        }
    }
    !selected
}

fn window_writes(x0: u16, y0: u16, x1: u16, y1: u16) -> Vec<Vec<u8>> {
    vec![
        vec![0x2A],
        vec![(x0 >> 8) as u8, x0 as u8, (x1 >> 8) as u8, x1 as u8],
        vec![0x2B],
        vec![(y0 >> 8) as u8, y0 as u8, (y1 >> 8) as u8, y1 as u8],
        vec![0x2C],
    ]
}

#[test]
fn no_pin_is_none_and_ignores_set() {
    let mut p = NoPin::new();
    assert!(p.is_none());
    p.set(true);
    p.set(false);
    assert!(p.is_none());
}

#[test]
fn color_mode_bitor_combines_bits() {
    assert_eq!(ColorMode::ColorMode65k | ColorMode::ColorMode16bit, 0x55);
    assert_eq!(ColorMode::ColorMode262k | ColorMode::ColorMode18bit, 0x66);
    assert_eq!(ColorMode::ColorMode12bit.value(), 0x03);
    assert_eq!(ColorMode::ColorMode16m.value(), 0x07);
}

#[test]
fn rotation_and_command_codes() {
    assert_eq!(Rotation::Portrait.value(), 0x00);
    assert_eq!(Rotation::Landscape.value(), 0x60);
    assert_eq!(Rotation::InvertedPortrait.value(), 0xC0);
    assert_eq!(Rotation::InvertedLandscape.value(), 0xA0);
    assert_eq!(Command::Swreset.code(), 0x01);
    assert_eq!(Command::Madctl.code(), 0x36);
    assert_eq!(Command::Colmod.code(), 0x3A);
    assert_eq!(Command::Vscsad.code(), 0x37);
    assert_eq!(Command::Ramwr.code(), 0x2C);
}

#[test]
fn send_command_frames_one_opcode() {
    let d = panel(240, 240);
    let mut t = Transcript::new();
    d.send_command(&mut t, Command::Dispon);
    assert_eq!(
        t.ops,
        vec![
            BusOp::CsPin(false),
            BusOp::DcPin(false),
            BusOp::Write(vec![0x29]),
            BusOp::CsPin(true)
        ]
    );
}

#[test]
fn command_data_and_no_cs_variants() {
    let d = panel(240, 240);
    let mut t = Transcript::new();
    d.send_command_data(&mut t, Command::Colmod, &[0x55]);
    assert_eq!(
        t.ops,
        vec![
            BusOp::CsPin(false),
            BusOp::DcPin(false),
            BusOp::Write(vec![0x3A]),
            BusOp::DcPin(true),
            BusOp::Write(vec![0x55]),
            BusOp::CsPin(true)
        ]
    );
    let mut t = Transcript::new();
    d.send_command_data_no_cs(&mut t, Command::Colmod, &[0x55]);
    assert_eq!(
        t.ops,
        vec![
            BusOp::DcPin(false),
            BusOp::Write(vec![0x3A]),
            BusOp::DcPin(true),
            BusOp::Write(vec![0x55])
        ]
    );
    let mut t = Transcript::new();
    d.send_command_no_cs(&mut t, Command::Nop);
    assert_eq!(t.ops, vec![BusOp::DcPin(false), BusOp::Write(vec![0x00])]);
    let mut t = Transcript::new();
    d.send_data(&mut t, &[1, 2, 3]);
    assert_eq!(
        t.ops,
        vec![
            BusOp::CsPin(false),
            BusOp::DcPin(true),
            BusOp::Write(vec![1, 2, 3]),
            BusOp::CsPin(true)
        ]
    );
    assert_eq!(t.len(), 4);
}

#[test]
fn pixel_selects_one_pixel_window() {
    let d = panel(240, 240);
    let mut t = Transcript::new();
    d.pixel(&mut t, 300 - 290, 20, 0xF81F);
    let mut expect = window_writes(10, 20, 10, 20);
    expect.push(vec![0xF8, 0x1F]);
    assert_eq!(writes(&t), expect);
    assert!(framed(&t));
}

#[test]
fn pixel_at_high_coordinates_uses_both_bytes() {
    let d = panel(320, 320);
    let mut t = Transcript::new();
    d.pixel(&mut t, 0x0123, 0x0140, 0x1234);
    assert_eq!(writes(&t)[1], vec![0x01, 0x23, 0x01, 0x23]);
    assert_eq!(writes(&t)[3], vec![0x01, 0x40, 0x01, 0x40]);
    assert_eq!(writes(&t)[5], vec![0x12, 0x34]);
}

#[test]
fn solid_rect_streams_in_blocks_of_4096_pixels() {
    let d = panel(240, 240);
    let mut t = Transcript::new();
    d.draw_solid_rect(&mut t, 5, 7, 100, 100, 0xABCD);
    let w = writes(&t);
    assert_eq!(w[..5].to_vec(), window_writes(5, 7, 104, 106));
    let data = &w[5..];
    assert_eq!(data.len(), 3);
    assert_eq!(data[0].len(), 8192);
    assert_eq!(data[1].len(), 8192);
    assert_eq!(data[2].len(), 2 * (10000 - 8192));
    for block in data {
        for pair in block.chunks(2) {
            assert_eq!(pair, &[0xAB, 0xCD]);
        }
    }
    assert!(framed(&t));
}

#[test]
fn solid_rect_of_exact_block_multiple_has_no_remainder() {
    let d = panel(240, 240);
    let mut t = Transcript::new();
    d.draw_solid_rect(&mut t, 0, 0, 64, 64, 1);
    let w = writes(&t);
    assert_eq!(w.len(), 6);
    assert_eq!(w[5].len(), 8192);
}

#[test]
fn fill_covers_a_320_by_240_screen() {
    let d = panel(320, 240);
    let mut t = Transcript::new();
    d.fill(&mut t, 0x07E0);
    let w = writes(&t);
    assert_eq!(w[..5].to_vec(), window_writes(0, 0, 319, 239));
    let total: usize = w[5..].iter().map(|b| b.len()).sum();
    assert_eq!(total, 2 * 320 * 240);
    assert_eq!(w.len(), 5 + 19);
    assert_eq!(w.last().unwrap().len(), 2 * (76800 - 18 * 4096));
}

#[test]
fn lines_and_outline_are_rectangles() {
    let d = panel(240, 240);
    let mut t = Transcript::new();
    d.draw_vertical_line(&mut t, 3, 4, 10, 0x1111);
    let w = writes(&t);
    assert_eq!(w[..5].to_vec(), window_writes(3, 4, 3, 13));
    assert_eq!(w[5].len(), 20);

    let mut t = Transcript::new();
    d.draw_horizontal_line(&mut t, 3, 4, 10, 0x1111);
    assert_eq!(writes(&t)[..5].to_vec(), window_writes(3, 4, 12, 4));

    let mut t = Transcript::new();
    d.draw_hollow_rect(&mut t, 10, 20, 5, 4, 0xFFFF);
    let w = writes(&t);
    assert_eq!(w.len(), 4 * 6);
    assert_eq!(w[..5].to_vec(), window_writes(10, 20, 14, 20));
    assert_eq!(w[6..11].to_vec(), window_writes(10, 23, 14, 23));
    assert_eq!(w[12..17].to_vec(), window_writes(10, 20, 10, 23));
    assert_eq!(w[18..23].to_vec(), window_writes(14, 20, 14, 23));
    assert!(framed(&t));
}

#[test]
fn color_buf_sends_colors_big_endian() {
    let d = panel(240, 240);
    let mut t = Transcript::new();
    let bitmap = [0x0102u16, 0x0304, 0x0506, 0x0708, 0x090A, 0x0B0C];
    d.draw_color_buf(&mut t, &bitmap, 1, 2, 3, 2);
    let w = writes(&t);
    assert_eq!(w[..5].to_vec(), window_writes(1, 2, 3, 3));
    assert_eq!(w[5], vec![1, 2, 3, 4, 5, 6, 7, 8, 9, 10, 11, 12]);

    let mut raw = Transcript::new();
    d.draw_color_buf_raw(&mut raw, &[1, 2, 3, 4, 5, 6, 7, 8, 9, 10, 11, 12], 1, 2, 3, 2);
    assert_eq!(writes(&raw), w);
}

#[test]
fn large_color_buf_is_split_into_blocks() {
    let d = panel(240, 240);
    let mut t = Transcript::new();
    let bitmap: Vec<u16> = (0..5000u32).map(|i| i as u16).collect();
    d.draw_color_buf(&mut t, &bitmap, 0, 0, 100, 50);
    let w = writes(&t);
    assert_eq!(w.len(), 7);
    assert_eq!(w[5].len(), 8192);
    assert_eq!(w[6].len(), 2 * (5000 - 4096));
    assert_eq!(&w[6][..2], &[0x10, 0x00]);
    let raw: Vec<u8> = bitmap.iter().flat_map(|c| c.to_be_bytes()).collect();
    let streamed: Vec<u8> = w[5..].concat();
    assert_eq!(streamed, raw);
}

#[test]
fn vscrdef_for_a_135_by_240_panel() {
    let d = panel(135, 240);
    let mut t = Transcript::new();
    d.vscrdef(&mut t, 40, 240, 40);
    assert_eq!(writes(&t), vec![vec![0x33], vec![0, 40], vec![0, 240], vec![0, 40]]);
    assert!(framed(&t));
    let mut t = Transcript::new();
    d.vscsad(&mut t, 0x0102);
    assert_eq!(writes(&t), vec![vec![0x37], vec![1, 2]]);
}

#[test]
fn settings_commands() {
    let d = panel(240, 240);
    let mut t = Transcript::new();
    d.set_sleep_mode(&mut t, true);
    d.set_sleep_mode(&mut t, false);
    d.set_inversion_mode(&mut t, true);
    d.set_inversion_mode(&mut t, false);
    d.set_color_mode(&mut t, 0x55);
    d.set_rotation(&mut t, Rotation::InvertedLandscape);
    assert_eq!(
        writes(&t),
        vec![
            vec![0x10],
            vec![0x11],
            vec![0x21],
            vec![0x20],
            vec![0x3A],
            vec![0x55],
            vec![0x36],
            vec![0xA0]
        ]
    );
    let mut t = Transcript::new();
    d.soft_reset(&mut t);
    assert_eq!(t.ops.last(), Some(&BusOp::DelayMs(150)));
    let mut t = Transcript::new();
    d.set_backlight(&mut t, false);
    assert_eq!(t.ops, vec![BusOp::BacklightPin(false)]);
}

#[test]
fn hard_reset_needs_a_reset_pin() {
    let mut t = Transcript::new();
    panel(240, 240).hard_reset(&mut t);
    assert!(t.ops.is_empty());
    let d = ST7789Display { width: 240, height: 240, has_reset: true };
    d.hard_reset(&mut t);
    assert_eq!(
        t.ops,
        vec![
            BusOp::CsPin(false),
            BusOp::ResetPin(true),
            BusOp::DelayMs(50),
            BusOp::ResetPin(false),
            BusOp::DelayMs(50),
            BusOp::ResetPin(true),
            BusOp::DelayMs(150),
            BusOp::CsPin(true)
        ]
    );
}

#[test]
fn power_up_sequence() {
    let mut t = Transcript::new();
    let d = ST7789Display::new(&mut t, false, 240, 240, Rotation::Landscape);
    assert_eq!(d.width, 240);
    assert_eq!(d.height, 240);
    let w = writes(&t);
    assert_eq!(
        w[..8].to_vec(),
        vec![vec![0x01], vec![0x11], vec![0x3A], vec![0x55], vec![0x36], vec![0x60], vec![0x21], vec![0x13]]
    );
    assert_eq!(w[8..13].to_vec(), window_writes(0, 0, 239, 239));
    let black: usize = w[13..w.len() - 1].iter().map(|b| b.len()).sum();
    assert_eq!(black, 2 * 240 * 240);
    assert!(w[13..w.len() - 1].iter().all(|b| b.iter().all(|x| *x == 0)));
    assert_eq!(w.last().unwrap(), &vec![0x29]);
    let n = t.ops.len();
    assert_eq!(t.ops[n - 2], BusOp::BacklightPin(true));
    assert_eq!(t.ops[n - 1], BusOp::DelayMs(500));
    assert!(framed(&t));
}

/// The pixels a line draws, from the windows of its single-pixel writes.
fn line_pixels(t: &Transcript) -> Vec<(u16, u16)> {
    let w = writes(t);
    w.chunks(6)
        .map(|p| {
            (
                u16::from_be_bytes([p[1][0], p[1][1]]),
                u16::from_be_bytes([p[3][0], p[3][1]]),
            )
        })
        .collect()
}

#[test]
fn line_shallow_and_steep() {
    let d = panel(240, 240);
    let mut t = Transcript::new();
    d.line(&mut t, 0, 0, 4, 2);
    assert_eq!(line_pixels(&t), vec![(0, 0), (1, 0), (2, 1), (3, 1), (4, 2)]);
    assert!(writes(&t).chunks(6).all(|p| p[5] == vec![0xFF, 0xFF]));
    assert!(framed(&t));

    let mut t = Transcript::new();
    d.line(&mut t, 1, 1, 2, 5);
    assert_eq!(line_pixels(&t), vec![(1, 1), (1, 2), (1, 3), (2, 4), (2, 5)]);
}

#[test]
fn line_reaches_both_ends_whatever_the_direction() {
    let d = panel(240, 240);
    for &(x0, y0, x1, y1) in &[(0u16, 5u16, 5u16, 0u16), (5, 0, 0, 5), (9, 3, 2, 7), (3, 3, 3, 3), (7, 2, 7, 9)] {
        let mut t = Transcript::new();
        d.line(&mut t, x0, y0, x1, y1);
        let p = line_pixels(&t);
        let n = 1 + std::cmp::max(x0.abs_diff(x1), y0.abs_diff(y1)) as usize;
        assert_eq!(p.len(), n);
        let ends = (p[0], p[n - 1]);
        assert!(ends == ((x0, y0), (x1, y1)) || ends == ((x1, y1), (x0, y0)));
        for k in 0..n - 1 {
            assert!(p[k].0.abs_diff(p[k + 1].0) <= 1 && p[k].1.abs_diff(p[k + 1].1) <= 1);
            assert_ne!(p[k], p[k + 1]);
        }
    }
}

fn glyph(width: u16, bits: &[u8]) -> Option<Glyph> {
    Some(Glyph { bitmap: bits.to_vec(), width })
}

#[test]
fn text_on_one_line_returns_its_bottom_right_corner() {
    let d = panel(240, 240);
    let mut t = Transcript::new();
    let glyphs = vec![glyph(8, &[0xFF, 0x00]), glyph(8, &[0x80, 0x01])];
    assert!(d.text_fits(10, 20, "AB", &glyphs, 2));
    let corner = d.draw_text(&mut t, 10, 20, "AB", &glyphs, 2, 0xFFFF, 0x0000);
    assert_eq!(corner, (26, 22));
    let w = writes(&t);
    assert_eq!(w.len(), 12);
    assert_eq!(w[..5].to_vec(), window_writes(10, 20, 17, 21));
    let mut first = vec![0xFF; 16];
    first.extend(vec![0x00; 16]);
    assert_eq!(w[5], first);
    assert_eq!(w[6..11].to_vec(), window_writes(18, 20, 25, 21));
    let mut second = vec![0x00; 32];
    second[0] = 0xFF;
    second[1] = 0xFF;
    second[30] = 0xFF;
    second[31] = 0xFF;
    assert_eq!(w[11], second);
    assert!(framed(&t));
}

#[test]
fn text_newline_wrap_and_missing_glyphs() {
    let d = panel(20, 100);
    let glyphs = vec![glyph(8, &[0xAA]), None, glyph(8, &[0x55]), None, glyph(8, &[0x0F]), glyph(8, &[0xF0])];
    let text = "A\nB?CD";
    let mut t = Transcript::new();
    let corner = d.draw_text(&mut t, 2, 3, text, &glyphs, 1, 1, 0);
    assert_eq!(corner, (18, 6));
    let w = writes(&t);
    assert_eq!(w.len(), 4 * 6);
    assert_eq!(w[..5].to_vec(), window_writes(2, 3, 9, 3));
    assert_eq!(w[6..11].to_vec(), window_writes(2, 4, 9, 4));
    assert_eq!(w[12..17].to_vec(), window_writes(10, 4, 17, 4));
    assert_eq!(w[18..23].to_vec(), window_writes(2, 5, 9, 5));
}

#[test]
fn text_stops_near_the_bottom() {
    let d = panel(240, 10);
    let glyphs = vec![glyph(8, &[0; 8]), None, glyph(8, &[0; 8])];
    let mut t = Transcript::new();
    let corner = d.draw_text(&mut t, 0, 0, "A\nB", &glyphs, 8, 1, 0);
    assert_eq!(corner, (8, 8));
    assert_eq!(writes(&t).len(), 6);
}

#[test]
fn text_that_cannot_be_drawn_is_refused() {
    let d = panel(240, 240);
    let empty_glyph = vec![glyph(0, &[])];
    assert!(!d.text_fits(0, 0, "A", &empty_glyph, 8));
    let short_bitmap = vec![glyph(8, &[0; 7])];
    assert!(!d.text_fits(0, 0, "A", &short_bitmap, 8));
    let wide = vec![glyph(300, &[0; 300])];
    assert!(!d.text_fits(0, 0, "A", &wide, 8));
    assert!(d.text_fits(0, 0, "", &[], 8));
    let mut t = Transcript::new();
    assert_eq!(d.draw_text(&mut t, 4, 5, "", &[], 8, 1, 0), (4, 13));
    assert!(t.ops.is_empty());
}

#[test]
fn line_of_one_point_is_that_pixel() {
    let d = panel(240, 240);
    let mut a = Transcript::new();
    d.line(&mut a, 5, 6, 5, 6);
    let mut b = Transcript::new();
    d.pixel(&mut b, 5, 6, 0xFFFF);
    assert_eq!(a.ops, b.ops);
}

#[test]
fn text_glyphs_stay_inside_the_returned_box() {
    let d = panel(30, 60);
    let text = "abcdefgh\nij";
    let glyphs: Vec<Option<Glyph>> = text
        .chars()
        .map(|c| if c == '\n' { None } else { glyph(7, &[0xFF; 7]) })
        .collect();
    let mut t = Transcript::new();
    let (right, bottom) = d.draw_text(&mut t, 1, 2, text, &glyphs, 8, 0xFFFF, 0);
    let w = writes(&t);
    assert_eq!(w.len(), 10 * 6);
    for block in w.chunks(6) {
        let x0 = u16::from_be_bytes([block[1][0], block[1][1]]);
        let x1 = u16::from_be_bytes([block[1][2], block[1][3]]);
        let y0 = u16::from_be_bytes([block[3][0], block[3][1]]);
        let y1 = u16::from_be_bytes([block[3][2], block[3][3]]);
        assert!(1 <= x0 && x1 < right && 2 <= y0 && y1 < bottom);
        assert!(x1 <= 30 && y1 <= 60);
        assert_eq!(block[5].len(), 2 * 7 * 8);
    }
    assert_eq!((right, bottom), (29, 26));
}

#[test]
fn text_starting_too_close_to_the_bottom_draws_nothing() {
    let d = panel(240, 240);
    let glyphs = vec![glyph(8, &[0; 8])];
    assert!(d.text_fits(0, 236, "A", &glyphs, 8));
    let mut t = Transcript::new();
    let corner = d.draw_text(&mut t, 0, 236, "A", &glyphs, 8, 1, 0);
    assert!(t.ops.is_empty());
    assert_eq!(corner, (0, 236));
}

#[test]
fn character_without_glyph_changes_nothing() {
    let d = panel(40, 40);
    let with = vec![glyph(8, &[0x81]), None, glyph(8, &[0x18]), glyph(8, &[0xFF]), glyph(8, &[1])];
    let without = vec![glyph(8, &[0x81]), glyph(8, &[0x18]), glyph(8, &[0xFF]), glyph(8, &[1])];
    let mut a = Transcript::new();
    let ca = d.draw_text(&mut a, 3, 4, "A?BCD", &with, 1, 7, 9);
    let mut b = Transcript::new();
    let cb = d.draw_text(&mut b, 3, 4, "ABCD", &without, 1, 7, 9);
    assert_eq!(ca, cb);
    assert_eq!(a.ops, b.ops);
}

#[test]
fn line_on_a_very_wide_panel() {
    let d = panel(40000, 10);
    let mut t = Transcript::new();
    d.line(&mut t, 0x8000, 0, 0x8003, 1);
    assert_eq!(line_pixels(&t), vec![(0x8000, 0), (0x8001, 0), (0x8002, 1), (0x8003, 1)]);
}

#[test]
fn fill_and_thin_rectangles_match_solid_rectangles() {
    let d = panel(100, 50);
    let mut a = Transcript::new();
    d.fill(&mut a, 0x1234);
    let mut b = Transcript::new();
    d.draw_solid_rect(&mut b, 0, 0, 100, 50, 0x1234);
    assert_eq!(a.ops, b.ops);
    let mut a = Transcript::new();
    d.draw_vertical_line(&mut a, 7, 8, 9, 1);
    let mut b = Transcript::new();
    d.draw_solid_rect(&mut b, 7, 8, 1, 9, 1);
    assert_eq!(a.ops, b.ops);
    let mut a = Transcript::new();
    d.draw_horizontal_line(&mut a, 7, 8, 9, 1);
    let mut b = Transcript::new();
    d.draw_solid_rect(&mut b, 7, 8, 9, 1, 1);
    assert_eq!(a.ops, b.ops);
}
