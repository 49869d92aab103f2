use vstd::prelude::*;

use vstd::arithmetic::div_mod::{lemma_fundamental_div_mod, lemma_fundamental_div_mod_converse};

verus! {

/// An RGBA colour, eight bits per channel.
#[derive(Clone, Copy, PartialEq, Eq, Structural, Debug)]
pub struct Color {
    pub r: u8,
    pub g: u8,
    pub b: u8,
    pub a: u8,
}

/// Opaque black.
pub open spec fn black() -> Color {
    Color { r: 0, g: 0, b: 0, a: 255 }
}

/// Opaque white.
pub open spec fn white() -> Color {
    Color { r: 255, g: 255, b: 255, a: 255 }
}

impl Color {
    pub fn new(r: u8, g: u8, b: u8, a: u8) -> (c: Color)
        ensures
            c == (Color { r, g, b, a }),
    {
        Color { r, g, b, a }
    }
}

/// `n` copies of `c`.
pub fn filled(n: usize, c: Color) -> (v: Vec<Color>)
    ensures
        v@.len() == n,
        forall|i: int| 0 <= i < n ==> v@[i] == c,
{
    let mut v: Vec<Color> = Vec::with_capacity(n);
    let mut k: usize = 0;
    while k < n
        invariant
            k <= n,
            v@.len() == k,
            forall|i: int| 0 <= i < k ==> v@[i] == c,
        decreases n - k,
    {
        v.push(c);
        k = k + 1;
    }
    v
}

/// A `width` by `height` canvas stored row by row, with a background colour
/// for clearing and a current colour for plain pixel writes.
pub struct Framebuffer {
    pub width: u32,
    pub height: u32,
    pub color_buffer: Vec<Color>,
    pub background_color: Color,
    pub current_color: Color,
}

/// Position in the buffer of pixel `(x, y)` on a canvas `w` pixels wide.
pub open spec fn pixel_index(w: int, x: int, y: int) -> int {
    y * w + x
}

/// `old` with pixel `(x, y)` set to `c` when it lies on the `w` by `h`
/// canvas, unchanged otherwise.
pub open spec fn plot(old: Seq<Color>, w: int, h: int, x: int, y: int, c: Color) -> Seq<Color> {
    if 0 <= x < w && 0 <= y < h {
        old.update(pixel_index(w, x, y), c)
    } else {
        old
    }
}

proof fn lemma_index_in_range(w: int, h: int, x: int, y: int)
    requires
        0 <= x < w,
        0 <= y < h,
    ensures
        0 <= pixel_index(w, x, y) < w * h,
{
    assert(0 <= y * w + x < w * h) by (nonlinear_arith)
        requires 0 <= x < w, 0 <= y < h;
}

/// `(y * w + x)` splits back into row `y` and column `x`.
pub proof fn lemma_index_split(w: int, x: int, y: int)
    requires
        0 <= x < w,
        0 <= y,
    ensures
        (y * w + x) % w == x,
        (y * w + x) / w == y,
{
    lemma_fundamental_div_mod_converse(y * w + x, w, y, x);
}

/// After one pixel write, every entry is either the written colour (at the
/// written row and column) or what it was.
pub proof fn lemma_plot_effect(old: Seq<Color>, w: int, h: int, x: int, y: int, c: Color)
    requires
        old.len() == w * h,
        0 <= x < w,
        0 <= y < h,
    ensures
        plot(old, w, h, x, y, c).len() == old.len(),
        forall|p: int|
            0 <= p < old.len() ==> #[trigger] plot(old, w, h, x, y, c)[p] == if p % w == x && p / w
                == y {
                c
            } else {
                old[p]
            },
{
    let q = y * w + x;
    lemma_index_in_range(w, h, x, y);
    lemma_fundamental_div_mod_converse(q, w, y, x);
    assert forall|p: int| 0 <= p < old.len() implies #[trigger] plot(old, w, h, x, y, c)[p] == if p
        % w == x && p / w == y {
        c
    } else {
        old[p]
    } by {
        lemma_fundamental_div_mod(p, w);
        if p % w == x && p / w == y {
            assert(p == q) by (nonlinear_arith)
                requires p == w * (p / w) + p % w, p % w == x, p / w == y, q == y * w + x;
        }
    }
}

/// Every buffer entry lies on a row of the canvas.
pub proof fn lemma_row_in_range(w: int, h: int, p: int)
    requires
        w > 0,
        0 <= p < w * h,
    ensures
        0 <= p / w < h,
        0 <= p % w < w,
{
    assert(p / w < h) by (nonlinear_arith)
        requires 0 <= p < w * h, w > 0;
}

/// Pixel `(x, y)` lies in the `rw` by `rh` rectangle whose top-left is `(x0, y0)`.
pub open spec fn in_rect(x: int, y: int, x0: int, y0: int, rw: int, rh: int) -> bool {
    x0 <= x < x0 + rw && y0 <= y < y0 + rh
}

/// Pixel offset `(dx, dy)` from a centre lies in the disc of radius `r`.
pub open spec fn in_disc(dx: int, dy: int, r: int) -> bool {
    -r <= dx <= r && -r <= dy <= r && dx * dx + dy * dy <= r * r
}

/// Largest rectangle or circle coordinate the drawing helpers accept.
pub const MAX_DRAW: i64 = 1048576;

impl Framebuffer {
    /// The buffer holds exactly one colour per pixel.
    pub open spec fn wf(&self) -> bool {
        self.color_buffer@.len() == self.width * self.height
    }

    /// The colour plain pixel writes use.
    pub open spec fn current(&self) -> Color {
        self.current_color
    }

    /// The colour `clear` fills with.
    pub open spec fn background(&self) -> Color {
        self.background_color
    }

    /// A black canvas; black background, white current colour.
    pub fn new(width: u32, height: u32) -> (fb: Framebuffer)
        requires
            width * height <= usize::MAX,
        ensures
            fb.wf(),
            fb.width == width,
            fb.height == height,
            forall|i: int| 0 <= i < fb.color_buffer@.len() ==> fb.color_buffer@[i] == black(),
            fb.background() == black(),
            fb.current() == white(),
    {
        let n = width as usize * height as usize;
        let black = Color::new(0, 0, 0, 255);
        Framebuffer {
            width,
            height,
            color_buffer: filled(n, black),
            background_color: black,
            current_color: Color::new(255, 255, 255, 255),
        }
    }

    /// Fills the whole canvas with the background colour.
    pub fn clear(&mut self)
        requires
            old(self).wf(),
        ensures
            final(self).wf(),
            final(self).width == old(self).width,
            final(self).height == old(self).height,
            final(self).background() == old(self).background(),
            final(self).current() == old(self).current(),
            forall|i: int|
                0 <= i < final(self).color_buffer@.len() ==> final(self).color_buffer@[i] == old(
                    self,
                ).background(),
    {
        let n = self.color_buffer.len();
        self.color_buffer = filled(n, self.background_color);
    }

    /// Writes the current colour at `(x, y)` if that pixel is on the canvas.
    pub fn set_pixel(&mut self, x: u32, y: u32)
        requires
            old(self).wf(),
        ensures
            final(self).wf(),
            final(self).width == old(self).width,
            final(self).height == old(self).height,
            final(self).background() == old(self).background(),
            final(self).current() == old(self).current(),
            final(self).color_buffer@ == plot(
                old(self).color_buffer@,
                old(self).width as int,
                old(self).height as int,
                x as int,
                y as int,
                old(self).current(),
            ),
    {
        let c = self.current_color;
        self.set_pixel_color(x, y, c);
    }

    /// Writes `c` at `(x, y)` if that pixel is on the canvas.
    pub fn set_pixel_color(&mut self, x: u32, y: u32, c: Color)
        requires
            old(self).wf(),
        ensures
            final(self).wf(),
            final(self).width == old(self).width,
            final(self).height == old(self).height,
            final(self).background() == old(self).background(),
            final(self).current() == old(self).current(),
            final(self).color_buffer@ == plot(
                old(self).color_buffer@,
                old(self).width as int,
                old(self).height as int,
                x as int,
                y as int,
                c,
            ),
    {
        let n: usize = self.color_buffer.len();
        if x < self.width && y < self.height {
            proof {
                lemma_index_in_range(self.width as int, self.height as int, x as int, y as int);
                assert(n == self.width * self.height);
            }
            let i = y as usize * self.width as usize + x as usize;
            self.color_buffer.set(i, c);
        }
    }

    /// Writes `color` at `(x, y)` if that pixel is on the canvas; negative
    /// coordinates are off it.
    pub fn set_pixel_with_color_i32(&mut self, x: i32, y: i32, color: Color)
        requires
            old(self).wf(),
        ensures
            final(self).wf(),
            final(self).width == old(self).width,
            final(self).height == old(self).height,
            final(self).background() == old(self).background(),
            final(self).current() == old(self).current(),
            final(self).color_buffer@ == plot(
                old(self).color_buffer@,
                old(self).width as int,
                old(self).height as int,
                x as int,
                y as int,
                color,
            ),
    {
        if x >= 0 && y >= 0 {
            self.set_pixel_color(x as u32, y as u32, color);
        }
    }

    /// Sets the colour `clear` fills with.
    pub fn set_background_color(&mut self, color: Color)
        ensures
            final(self).width == old(self).width,
            final(self).height == old(self).height,
            final(self).color_buffer@ == old(self).color_buffer@,
            final(self).background() == color,
            final(self).current() == old(self).current(),
    {
        self.background_color = color;
    }

    /// Sets the colour plain pixel writes use.
    pub fn set_current_color(&mut self, color: Color)
        ensures
            final(self).width == old(self).width,
            final(self).height == old(self).height,
            final(self).color_buffer@ == old(self).color_buffer@,
            final(self).background() == old(self).background(),
            final(self).current() == color,
    {
        self.current_color = color;
    }

    /// Paints the `rw` by `rh` rectangle whose top-left is `(x0, y0)` with
    /// `color`, clipped to the canvas.
    pub fn fill_rect(&mut self, x0: u64, y0: u64, rw: u64, rh: u64, color: Color)
        requires
            old(self).wf(),
            x0 + rw <= MAX_DRAW,
            y0 + rh <= MAX_DRAW,
        ensures
            final(self).wf(),
            final(self).width == old(self).width,
            final(self).height == old(self).height,
            final(self).background() == old(self).background(),
            final(self).current() == old(self).current(),
            forall|p: int|
                0 <= p < final(self).color_buffer@.len() ==> final(self).color_buffer@[p] == if in_rect(
                    p % (old(self).width as int),
                    p / (old(self).width as int),
                    x0 as int,
                    y0 as int,
                    rw as int,
                    rh as int,
                ) {
                    color
                } else {
                    old(self).color_buffer@[p]
                },
    {
        let ghost w = self.width as int;
        let ghost h = self.height as int;
        let xe: u64 = if x0 + rw < self.width as u64 { x0 + rw } else { self.width as u64 };
        let ye: u64 = if y0 + rh < self.height as u64 { y0 + rh } else { self.height as u64 };
        let mut y: u64 = y0;
        while y < ye
            invariant
                self.wf(),
                self.width == old(self).width,
                self.height == old(self).height,
                self.background() == old(self).background(),
                self.current() == old(self).current(),
                w == self.width,
                h == self.height,
                xe <= w,
                ye <= h,
                xe == (if x0 + rw < w { x0 + rw } else { w }),
                ye == (if y0 + rh < h { y0 + rh } else { h }),
                y0 <= y,
                y <= ye || ye < y0,
                forall|p: int|
                    0 <= p < self.color_buffer@.len() ==> #[trigger] self.color_buffer@[p] == if in_rect(
                        p % w,
                        p / w,
                        x0 as int,
                        y0 as int,
                        rw as int,
                        (y - y0) as int,
                    ) {
                        color
                    } else {
                        old(self).color_buffer@[p]
                    },
            decreases ye - y,
        {
            let mut x: u64 = x0;
            while x < xe
                invariant
                    self.wf(),
                    self.width == old(self).width,
                    self.height == old(self).height,
                    self.background() == old(self).background(),
                    self.current() == old(self).current(),
                    w == self.width,
                    h == self.height,
                    xe <= w,
                    xe == (if x0 + rw < w { x0 + rw } else { w }),
                    y0 <= y < ye,
                    ye <= h,
                    x0 <= x,
                    x <= xe || xe < x0,
                    forall|p: int|
                        0 <= p < self.color_buffer@.len() ==> #[trigger] self.color_buffer@[p] == if in_rect(
                            p % w,
                            p / w,
                            x0 as int,
                            y0 as int,
                            rw as int,
                            (y - y0) as int,
                        ) || (p / w == y && x0 <= p % w < x) {
                            color
                        } else {
                            old(self).color_buffer@[p]
                        },
                decreases xe - x,
            {
                let ghost prev = self.color_buffer@;
                proof {
                    lemma_plot_effect(prev, w, h, x as int, y as int, color);
                }
                self.set_pixel_color(x as u32, y as u32, color);
                x = x + 1;
            }
            proof {
                assert forall|p: int| 0 <= p < self.color_buffer@.len() implies #[trigger] self.color_buffer@[p]
                    == if in_rect(p % w, p / w, x0 as int, y0 as int, rw as int, (y + 1 - y0) as int) {
                    color
                } else {
                    old(self).color_buffer@[p]
                } by {
                    lemma_row_in_range(w, h, p);
                }
            }
            y = y + 1;
        }
        proof {
            assert forall|p: int| 0 <= p < self.color_buffer@.len() implies #[trigger] self.color_buffer@[p]
                == if in_rect(p % w, p / w, x0 as int, y0 as int, rw as int, rh as int) {
                color
            } else {
                old(self).color_buffer@[p]
            } by {
                lemma_row_in_range(w, h, p);
            }
        }
    }

    /// Paints with `color` every canvas pixel within distance `r` of
    /// `(cx, cy)` (offsets `dx`, `dy` with `dx * dx + dy * dy <= r * r`).
    pub fn draw_circle_filled(&mut self, cx: i32, cy: i32, r: i32, color: Color)
        requires
            old(self).wf(),
            -MAX_DRAW <= cx <= MAX_DRAW,
            -MAX_DRAW <= cy <= MAX_DRAW,
            -46340 <= r <= 46340,
        ensures
            final(self).wf(),
            final(self).width == old(self).width,
            final(self).height == old(self).height,
            final(self).background() == old(self).background(),
            final(self).current() == old(self).current(),
            forall|p: int|
                0 <= p < final(self).color_buffer@.len() ==> final(self).color_buffer@[p] == if in_disc(
                    p % (old(self).width as int) - cx,
                    p / (old(self).width as int) - cy,
                    r as int,
                ) {
                    color
                } else {
                    old(self).color_buffer@[p]
                },
    {
        let ghost w = self.width as int;
        let ghost h = self.height as int;
        assert(0 <= r * r <= 46340 * 46340) by (nonlinear_arith)
            requires -46340 <= r <= 46340;
        let rr: i64 = r as i64 * r as i64;
        let mut dy: i32 = -r;
        while dy <= r
            invariant
                self.wf(),
                self.width == old(self).width,
                self.height == old(self).height,
                self.background() == old(self).background(),
                self.current() == old(self).current(),
                w == self.width,
                h == self.height,
                -MAX_DRAW <= cx <= MAX_DRAW,
                -MAX_DRAW <= cy <= MAX_DRAW,
                -46340 <= r <= 46340,
                rr == r * r,
                -r <= dy,
                dy <= r + 1 || r < 0,
                forall|p: int|
                    0 <= p < self.color_buffer@.len() ==> #[trigger] self.color_buffer@[p] == if in_disc(
                        p % w - cx,
                        p / w - cy,
                        r as int,
                    ) && p / w - cy < dy {
                        color
                    } else {
                        old(self).color_buffer@[p]
                    },
            decreases r + 1 - dy,
        {
            let mut dx: i32 = -r;
            while dx <= r
                invariant
                    self.wf(),
                    self.width == old(self).width,
                    self.height == old(self).height,
                    self.background() == old(self).background(),
                    self.current() == old(self).current(),
                    w == self.width,
                    h == self.height,
                    -MAX_DRAW <= cx <= MAX_DRAW,
                    -MAX_DRAW <= cy <= MAX_DRAW,
                    -46340 <= r <= 46340,
                    rr == r * r,
                    -r <= dy <= r,
                    -r <= dx <= r + 1,
                    forall|p: int|
                        0 <= p < self.color_buffer@.len() ==> #[trigger] self.color_buffer@[p] == if in_disc(
                            p % w - cx,
                            p / w - cy,
                            r as int,
                        ) && (p / w - cy < dy || (p / w - cy == dy && p % w - cx < dx)) {
                            color
                        } else {
                            old(self).color_buffer@[p]
                        },
                decreases r + 1 - dx,
            {
                assert(0 <= dx * dx <= 46340 * 46340 && 0 <= dy * dy <= 46340 * 46340) by (nonlinear_arith)
                    requires -46340 <= dx <= 46340, -46340 <= dy <= 46340;
                if dx as i64 * dx as i64 + dy as i64 * dy as i64 <= rr {
                    let ghost prev = self.color_buffer@;
                    let x = cx + dx;
                    let y = cy + dy;
                    proof {
                        if 0 <= x < w && 0 <= y < h {
                            lemma_plot_effect(prev, w, h, x as int, y as int, color);
                        } else {
                            assert forall|p: int| 0 <= p < prev.len() implies !(p % w == x && p / w == y) && #[trigger] prev[p] == prev[p] by {
                                lemma_row_in_range(w, h, p);
                            }
                        }
                    }
                    self.set_pixel_with_color_i32(x, y, color);
                }
                dx = dx + 1;
            }
            dy = dy + 1;
        }
    }
}

} // verus!
