//! Bitmap-font text: where each glyph goes, and what drawing it sends.
use vstd::prelude::*;

use crate::bus::Signal;
use crate::protocol::{color_bytes, data_chunks, window_signals};

verus! {

/// One character of a bitmap font: `width` columns by the font's height in
/// rows, one bit per pixel, row by row, most significant bit first; a set
/// bit is drawn in the font color, a clear one in the background color.
pub struct Glyph {
    pub bitmap: Vec<u8>,
    pub width: u16,
}

/// Where a glyph of the text is drawn: the index of its character in the
/// text and the top left corner of its box.
pub struct Placement {
    pub index: int,
    pub x: int,
    pub y: int,
}

/// The larger of two coordinates.
pub open spec fn max(a: int, b: int) -> int {
    if a > b {
        a
    } else {
        b
    }
}

/// Whether bit `j` of a glyph's pixels is set.
pub open spec fn glyph_bit(bitmap: Seq<u8>, j: int) -> bool {
    bitmap[j / 8] & (0x80u8 >> ((j % 8) as u8)) != 0
}

/// The first `n` pixels of a glyph, in the font color where the bit is set
/// and in the background color where it is clear.
pub open spec fn glyph_colors(bitmap: Seq<u8>, n: int, fg: u16, bg: u16) -> Seq<u16> {
    Seq::new(
        n as nat,
        |j: int|
            if glyph_bit(bitmap, j) {
                fg
            } else {
                bg
            },
    )
}

/// A glyph of `w` by `h` pixels at (`x`, `y`) can be drawn on a `width` by
/// `height` panel: its box is not empty, its arithmetic fits in 16 bits, its
/// last column and row are within the panel, and its bitmap has a bit for
/// every pixel.
pub open spec fn glyph_fits(
    x: int,
    y: int,
    w: int,
    h: int,
    width: u16,
    height: u16,
    bitmap_len: int,
) -> bool {
    &&& 1 <= w
    &&& x + w <= u16::MAX
    &&& x + w - 1 <= width
    &&& 1 <= h
    &&& y + h <= u16::MAX
    &&& y + h - 1 <= height
    &&& (w * h - 1) / 8 < bitmap_len
}

/// What one character of the text does to the layout.
pub enum TextStep {
    /// The text cannot be laid out on this panel.
    Fault,
    /// Layout ends with this bottom right corner.
    Stop { end_x: int, y: int },
    /// Layout goes on from this cursor; `drawn` is where the character's
    /// glyph was placed, if it was.
    Next { x: int, y: int, end_x: int, drawn: Option<(int, int)> },
}

/// The outcome of laying out one character, as the driver computes it.
pub enum CharLayout {
    Fault,
    Stop { end_x: u16, y: u16 },
    Next { x: u16, y: u16, end_x: u16, drawn: Option<(u16, u16)> },
}

impl View for CharLayout {
    type V = TextStep;

    open spec fn view(&self) -> TextStep {
        match *self {
            CharLayout::Fault => TextStep::Fault,
            CharLayout::Stop { end_x, y } => TextStep::Stop { end_x: end_x as int, y: y as int },
            CharLayout::Next { x, y, end_x, drawn } => TextStep::Next {
                x: x as int,
                y: y as int,
                end_x: end_x as int,
                drawn: match drawn {
                    None => None,
                    Some(p) => Some((p.0 as int, p.1 as int)),
                },
            },
        }
    }
}

/// One character `c`, with its glyph, laid out from the cursor at (`x`, `y`),
/// the widest line so far ending at `end_x`. Lines are `h` rows apart and
/// start at column `start_x`. A newline, or a glyph that would cross the
/// right edge, starts a new line; when the distance from the line to the
/// bottom edge is less than the font height, layout stops there. A
/// character without a glyph is skipped.
pub open spec fn text_step(
    width: u16,
    height: u16,
    start_x: int,
    h: int,
    c: char,
    glyph: Option<Glyph>,
    x: int,
    y: int,
    end_x: int,
) -> TextStep {
    if c == '\n' {
        if y + h > u16::MAX {
            TextStep::Fault
        } else if y + 2 * h > height {
            TextStep::Stop { end_x: max(x, end_x), y: y + h }
        } else {
            TextStep::Next { x: start_x, y: y + h, end_x: max(x, end_x), drawn: None }
        }
    } else {
        match glyph {
            None => TextStep::Next { x, y, end_x, drawn: None },
            Some(g) => {
                let w = g.width as int;
                let wraps = x + w > width;
                if x + w > u16::MAX {
                    TextStep::Fault
                } else if wraps && y + h > u16::MAX {
                    TextStep::Fault
                } else {
                    let e = if wraps {
                        max(x, end_x)
                    } else {
                        end_x
                    };
                    let px = if wraps {
                        start_x
                    } else {
                        x
                    };
                    let py = if wraps {
                        y + h
                    } else {
                        y
                    };
                    if py + h > height {
                        TextStep::Stop { end_x: max(x, end_x), y: py }
                    } else if !glyph_fits(px, py, w, h, width, height, g.bitmap@.len() as int) {
                        TextStep::Fault
                    } else {
                        TextStep::Next { x: px + w, y: py, end_x: e, drawn: Some((px, py)) }
                    }
                }
            },
        }
    }
}

/// Lays out the text from character `i` on, with the cursor at (`x`, `y`) and
/// the widest line so far ending at `end_x` (see [`text_step`]). The result
/// is the glyphs placed and the bottom right corner of the text box, or
/// `None` where the text cannot be laid out on this panel.
pub open spec fn layout_from(
    width: u16,
    height: u16,
    start_x: int,
    h: int,
    text: Seq<char>,
    glyphs: Seq<Option<Glyph>>,
    i: nat,
    x: int,
    y: int,
    end_x: int,
) -> Option<(Seq<Placement>, int, int)>
    decreases text.len() - i,
{
    if i >= text.len() {
        if y + h > u16::MAX {
            None
        } else {
            Some((Seq::empty(), max(x, end_x), y + h))
        }
    } else {
        match text_step(width, height, start_x, h, text[i as int], glyphs[i as int], x, y, end_x) {
            TextStep::Fault => None,
            TextStep::Stop { end_x, y } => Some((Seq::empty(), end_x, y)),
            TextStep::Next { x, y, end_x, drawn } => {
                match layout_from(width, height, start_x, h, text, glyphs, i + 1, x, y, end_x) {
                    None => None,
                    Some(r) => match drawn {
                        None => Some(r),
                        Some(p) => Some(
                            (seq![Placement { index: i as int, x: p.0, y: p.1 }] + r.0, r.1, r.2),
                        ),
                    },
                }
            },
        }
    }
}

/// Lays out `text` with its top left corner at (`x`, `y`) on a `width` by
/// `height` panel, lines `h` rows apart.
pub open spec fn text_layout(
    width: u16,
    height: u16,
    x: u16,
    y: u16,
    text: Seq<char>,
    glyphs: Seq<Option<Glyph>>,
    h: u16,
) -> Option<(Seq<Placement>, int, int)> {
    layout_from(width, height, x as int, h as int, text, glyphs, 0, x as int, y as int, x as int)
}

/// Drawing glyph `g`, `h` rows high, at (`x`, `y`): its window, then its
/// pixels streamed in blocks.
pub open spec fn glyph_box_signals(x: int, y: int, g: Glyph, h: u16, fg: u16, bg: u16) -> Seq<
    Signal,
> {
    let w = g.width as int;
    window_signals(x as u16, y as u16, (x + w - 1) as u16, (y + h - 1) as u16) + data_chunks(
        color_bytes(glyph_colors(g.bitmap@, w * h, fg, bg)),
    )
}

/// Drawing one placed glyph of the text.
pub open spec fn glyph_signals(
    p: Placement,
    glyphs: Seq<Option<Glyph>>,
    h: u16,
    fg: u16,
    bg: u16,
) -> Seq<Signal> {
    glyph_box_signals(p.x, p.y, glyphs[p.index]->Some_0, h, fg, bg)
}

/// Drawing the placed glyphs in order.
pub open spec fn placements_signals(
    ps: Seq<Placement>,
    glyphs: Seq<Option<Glyph>>,
    h: u16,
    fg: u16,
    bg: u16,
) -> Seq<Signal>
    decreases ps.len(),
{
    if ps.len() == 0 {
        Seq::empty()
    } else {
        placements_signals(ps.drop_last(), glyphs, h, fg, bg) + glyph_signals(
            ps.last(),
            glyphs,
            h,
            fg,
            bg,
        )
    }
}

/// Placement `p` draws a glyph of the text (of `n` characters), lies inside
/// the box from (`left`, `top`) to (`right`, `bottom`), and fits the panel.
pub open spec fn placed_in_box(
    p: Placement,
    glyphs: Seq<Option<Glyph>>,
    h: int,
    n: int,
    left: int,
    top: int,
    right: int,
    bottom: int,
    width: u16,
    height: u16,
) -> bool {
    &&& 0 <= p.index < n
    &&& glyphs[p.index] is Some
    &&& left <= p.x
    &&& top <= p.y
    &&& p.x + glyphs[p.index]->Some_0.width <= right
    &&& p.y + h <= bottom
    &&& glyph_fits(
        p.x,
        p.y,
        glyphs[p.index]->Some_0.width as int,
        h,
        width,
        height,
        glyphs[p.index]->Some_0.bitmap@.len() as int,
    )
}

proof fn lemma_layout_box(
    width: u16,
    height: u16,
    start_x: int,
    h: int,
    text: Seq<char>,
    glyphs: Seq<Option<Glyph>>,
    i: nat,
    x: int,
    y: int,
    end_x: int,
)
    requires
        layout_from(width, height, start_x, h, text, glyphs, i, x, y, end_x) is Some,
        start_x <= x,
        0 <= h,
    ensures
        ({
            let r = layout_from(width, height, start_x, h, text, glyphs, i, x, y, end_x)->Some_0;
            &&& r.1 >= max(x, end_x)
            &&& r.2 >= y
            &&& y + h <= height ==> r.2 >= y + h
            &&& forall|j: int|
                0 <= j < r.0.len() ==> i <= (#[trigger] r.0[j]).index && placed_in_box(
                    r.0[j],
                    glyphs,
                    h,
                    text.len() as int,
                    start_x,
                    y,
                    r.1,
                    r.2,
                    width,
                    height,
                )
            &&& forall|j: int, k: int| 0 <= j < k < r.0.len() ==> r.0[j].index < r.0[k].index
        }),
    decreases text.len() - i,
{
    if i < text.len() {
        let step = text_step(width, height, start_x, h, text[i as int], glyphs[i as int], x, y, end_x);
        match step {
            TextStep::Next { x: nx, y: ny, end_x: ne, drawn } => {
                lemma_layout_box(width, height, start_x, h, text, glyphs, i + 1, nx, ny, ne);
                let r2 = layout_from(width, height, start_x, h, text, glyphs, i + 1, nx, ny, ne)->Some_0;
                match drawn {
                    None => {},
                    Some(q) => {
                        let r = layout_from(width, height, start_x, h, text, glyphs, i, x, y, end_x)->Some_0;
                        assert(r.0 == seq![Placement { index: i as int, x: q.0, y: q.1 }] + r2.0);
                        assert forall|j: int| 0 <= j < r.0.len() implies i <= (#[trigger] r.0[j]).index
                            && placed_in_box(
                            r.0[j],
                            glyphs,
                            h,
                            text.len() as int,
                            start_x,
                            y,
                            r.1,
                            r.2,
                            width,
                            height,
                        ) by {
                            if j > 0 {
                                assert(r.0[j] == r2.0[j - 1]);
                            }
                        }
                        assert forall|j: int, k: int| 0 <= j < k < r.0.len() implies r.0[j].index
                            < r.0[k].index by {
                            assert(r.0[k] == r2.0[k - 1]);
                            if j > 0 {
                                assert(r.0[j] == r2.0[j - 1]);
                            }
                        }
                    },
                }
            },
            _ => {},
        }
    }
}

/// Every glyph that text drawing places lies inside the text box, whose top
/// left corner is where the text starts and whose bottom right corner is the
/// one returned, and fits the panel; glyphs are placed in the order of the
/// text, each for a character that has one. The box is at least one line
/// high when the first line fits above the bottom edge.
pub proof fn law_text_in_box(
    width: u16,
    height: u16,
    x: u16,
    y: u16,
    text: Seq<char>,
    glyphs: Seq<Option<Glyph>>,
    h: u16,
)
    requires
        text_layout(width, height, x, y, text, glyphs, h) is Some,
    ensures
        ({
            let l = text_layout(width, height, x, y, text, glyphs, h)->Some_0;
            &&& l.1 >= x
            &&& l.2 >= y
            &&& y + h <= height ==> l.2 >= y + h
            &&& forall|j: int|
                0 <= j < l.0.len() ==> placed_in_box(
                    #[trigger] l.0[j],
                    glyphs,
                    h as int,
                    text.len() as int,
                    x as int,
                    y as int,
                    l.1,
                    l.2,
                    width,
                    height,
                )
            &&& forall|j: int, k: int| 0 <= j < k < l.0.len() ==> l.0[j].index < l.0[k].index
        }),
{
    lemma_layout_box(width, height, x as int, h as int, text, glyphs, 0, x as int, y as int, x as int);
}

/// Two layouts draw alike: both fail, or both end at the same corner and
/// place glyphs at the same corners, one for one, with the same glyphs.
pub open spec fn same_drawing(
    a: Option<(Seq<Placement>, int, int)>,
    ga: Seq<Option<Glyph>>,
    b: Option<(Seq<Placement>, int, int)>,
    gb: Seq<Option<Glyph>>,
) -> bool {
    match a {
        None => b is None,
        Some(ra) => match b {
            None => false,
            Some(rb) => {
                &&& ra.1 == rb.1
                &&& ra.2 == rb.2
                &&& ra.0.len() == rb.0.len()
                &&& forall|j: int|
                    0 <= j < ra.0.len() ==> (#[trigger] ra.0[j]).x == rb.0[j].x && ra.0[j].y
                        == rb.0[j].y && ga[ra.0[j].index] == gb[rb.0[j].index]
            },
        },
    }
}

proof fn lemma_same_drawing_prepend(
    ra: (Seq<Placement>, int, int),
    ga: Seq<Option<Glyph>>,
    pa: Placement,
    rb: (Seq<Placement>, int, int),
    gb: Seq<Option<Glyph>>,
    pb: Placement,
)
    requires
        same_drawing(Some(ra), ga, Some(rb), gb),
        pa.x == pb.x,
        pa.y == pb.y,
        ga[pa.index] == gb[pb.index],
    ensures
        same_drawing(
            Some((seq![pa] + ra.0, ra.1, ra.2)),
            ga,
            Some((seq![pb] + rb.0, rb.1, rb.2)),
            gb,
        ),
{
    let a = seq![pa] + ra.0;
    let b = seq![pb] + rb.0;
    assert forall|j: int| 0 <= j < a.len() implies (#[trigger] a[j]).x == b[j].x && a[j].y
        == b[j].y && ga[a[j].index] == gb[b[j].index] by {
        if j > 0 {
            assert(a[j] == ra.0[j - 1]);
            assert(b[j] == rb.0[j - 1]);
        }
    }
}

proof fn lemma_layout_shifted(
    width: u16,
    height: u16,
    start_x: int,
    h: int,
    t1: Seq<char>,
    g1: Seq<Option<Glyph>>,
    t2: Seq<char>,
    g2: Seq<Option<Glyph>>,
    k: nat,
    i: nat,
    x: int,
    y: int,
    end_x: int,
)
    requires
        k <= i <= t2.len(),
        t1.len() == t2.len() + 1,
        forall|j: int| k <= j < t2.len() ==> t1[j + 1] == t2[j] && g1[j + 1] == g2[j],
    ensures
        same_drawing(
            layout_from(width, height, start_x, h, t1, g1, i + 1, x, y, end_x),
            g1,
            layout_from(width, height, start_x, h, t2, g2, i, x, y, end_x),
            g2,
        ),
    decreases t2.len() - i,
{
    if i < t2.len() {
        assert(t1[i + 1 as int] == t2[i as int] && g1[i + 1 as int] == g2[i as int]);
        let step = text_step(width, height, start_x, h, t2[i as int], g2[i as int], x, y, end_x);
        match step {
            TextStep::Next { x: nx, y: ny, end_x: ne, drawn } => {
                lemma_layout_shifted(
                    width,
                    height,
                    start_x,
                    h,
                    t1,
                    g1,
                    t2,
                    g2,
                    k,
                    i + 1,
                    nx,
                    ny,
                    ne,
                );
                let a = layout_from(width, height, start_x, h, t1, g1, i + 2, nx, ny, ne);
                let b = layout_from(width, height, start_x, h, t2, g2, i + 1, nx, ny, ne);
                match drawn {
                    None => {},
                    Some(q) => {
                        if a is Some {
                            lemma_same_drawing_prepend(
                                a->Some_0,
                                g1,
                                Placement { index: i + 1 as int, x: q.0, y: q.1 },
                                b->Some_0,
                                g2,
                                Placement { index: i as int, x: q.0, y: q.1 },
                            );
                        }
                    },
                }
            },
            _ => {},
        }
    } else {
        assert(same_drawing(
            Some((Seq::<Placement>::empty(), max(x, end_x), y + h)),
            g1,
            Some((Seq::<Placement>::empty(), max(x, end_x), y + h)),
            g2,
        ));
    }
}

proof fn lemma_layout_skip_char(
    width: u16,
    height: u16,
    start_x: int,
    h: int,
    t1: Seq<char>,
    g1: Seq<Option<Glyph>>,
    t2: Seq<char>,
    g2: Seq<Option<Glyph>>,
    k: nat,
    i: nat,
    x: int,
    y: int,
    end_x: int,
)
    requires
        i <= k <= t2.len(),
        t1.len() == t2.len() + 1,
        forall|j: int| 0 <= j < k ==> t1[j] == t2[j] && g1[j] == g2[j],
        forall|j: int| k <= j < t2.len() ==> t1[j + 1] == t2[j] && g1[j + 1] == g2[j],
        t1[k as int] != '\n',
        g1[k as int] is None,
    ensures
        same_drawing(
            layout_from(width, height, start_x, h, t1, g1, i, x, y, end_x),
            g1,
            layout_from(width, height, start_x, h, t2, g2, i, x, y, end_x),
            g2,
        ),
    decreases k - i,
{
    if i == k {
        lemma_layout_shifted(width, height, start_x, h, t1, g1, t2, g2, k, k, x, y, end_x);
    } else {
        assert(t1[i as int] == t2[i as int] && g1[i as int] == g2[i as int]);
        let step = text_step(width, height, start_x, h, t2[i as int], g2[i as int], x, y, end_x);
        match step {
            TextStep::Next { x: nx, y: ny, end_x: ne, drawn } => {
                lemma_layout_skip_char(
                    width,
                    height,
                    start_x,
                    h,
                    t1,
                    g1,
                    t2,
                    g2,
                    k,
                    i + 1,
                    nx,
                    ny,
                    ne,
                );
                let a = layout_from(width, height, start_x, h, t1, g1, i + 1, nx, ny, ne);
                let b = layout_from(width, height, start_x, h, t2, g2, i + 1, nx, ny, ne);
                match drawn {
                    None => {},
                    Some(q) => {
                        if a is Some {
                            lemma_same_drawing_prepend(
                                a->Some_0,
                                g1,
                                Placement { index: i as int, x: q.0, y: q.1 },
                                b->Some_0,
                                g2,
                                Placement { index: i as int, x: q.0, y: q.1 },
                            );
                        }
                    },
                }
            },
            _ => {},
        }
    }
}

proof fn lemma_same_drawing_signals(
    ps1: Seq<Placement>,
    g1: Seq<Option<Glyph>>,
    ps2: Seq<Placement>,
    g2: Seq<Option<Glyph>>,
    h: u16,
    fg: u16,
    bg: u16,
)
    requires
        ps1.len() == ps2.len(),
        forall|j: int|
            0 <= j < ps1.len() ==> (#[trigger] ps1[j]).x == ps2[j].x && ps1[j].y == ps2[j].y
                && g1[ps1[j].index] == g2[ps2[j].index],
    ensures
        placements_signals(ps1, g1, h, fg, bg) == placements_signals(ps2, g2, h, fg, bg),
    decreases ps1.len(),
{
    if ps1.len() > 0 {
        let n = ps1.len() - 1;
        assert(ps1[n as int].x == ps2[n as int].x);
        lemma_same_drawing_signals(ps1.drop_last(), g1, ps2.drop_last(), g2, h, fg, bg);
    }
}

/// A character that the font has no glyph for draws nothing and does not
/// move the cursor: with it taken out, text drawing fails or succeeds alike,
/// returns the same corner and sends the same signals.
pub proof fn law_missing_glyph_draws_nothing(
    width: u16,
    height: u16,
    x: u16,
    y: u16,
    s1: Seq<char>,
    c: char,
    s2: Seq<char>,
    g1: Seq<Option<Glyph>>,
    g2: Seq<Option<Glyph>>,
    h: u16,
    fg: u16,
    bg: u16,
)
    requires
        c != '\n',
        s1.len() == g1.len(),
        s2.len() == g2.len(),
    ensures
        ({
            let with = text_layout(width, height, x, y, s1 + seq![c] + s2, g1 + seq![None] + g2, h);
            let without = text_layout(width, height, x, y, s1 + s2, g1 + g2, h);
            &&& (with is Some) == (without is Some)
            &&& with is Some ==> {
                &&& with->Some_0.1 == without->Some_0.1
                &&& with->Some_0.2 == without->Some_0.2
                &&& placements_signals(with->Some_0.0, g1 + seq![None] + g2, h, fg, bg)
                    == placements_signals(without->Some_0.0, g1 + g2, h, fg, bg)
            }
        }),
{
    let t1 = s1 + seq![c] + s2;
    let gl1 = g1 + seq![None] + g2;
    let t2 = s1 + s2;
    let gl2 = g1 + g2;
    let k = s1.len();
    assert forall|j: int| 0 <= j < k implies t1[j] == t2[j] && gl1[j] == gl2[j] by {}
    assert forall|j: int| k <= j < t2.len() implies t1[j + 1] == t2[j] && gl1[j + 1] == gl2[j] by {}
    assert(t1[k as int] == c);
    assert(gl1[k as int] is None);
    lemma_layout_skip_char(
        width,
        height,
        x as int,
        h as int,
        t1,
        gl1,
        t2,
        gl2,
        k,
        0,
        x as int,
        y as int,
        x as int,
    );
    let with = text_layout(width, height, x, y, t1, gl1, h);
    let without = text_layout(width, height, x, y, t2, gl2, h);
    if with is Some {
        lemma_same_drawing_signals(with->Some_0.0, gl1, without->Some_0.0, gl2, h, fg, bg);
    }
}

} // verus!
