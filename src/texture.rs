use vstd::prelude::*;

use crate::framebuffer::{white, Color};

verus! {

/// Fixed-point scale of texture coordinates: `UV_ONE` is 1.0.
pub const UV_ONE: u64 = 65536;

/// Side of the square reported for a material with no image.
pub const MISSING_SIZE: u32 = 128;

/// A decoded picture, stored row by row.
pub struct Image {
    pub width: u32,
    pub height: u32,
    pub pixels: Vec<Color>,
}

impl Image {
    /// At least one pixel, and one colour per pixel.
    pub open spec fn wf(&self) -> bool {
        &&& self.width >= 1
        &&& self.height >= 1
        &&& self.pixels@.len() == self.width * self.height
    }

    /// The colour at `(x, y)`.
    pub open spec fn at(&self, x: int, y: int) -> Color {
        self.pixels@[y * self.width + x]
    }
}

/// The images of the materials, keyed by material symbol.
pub struct TextureManager {
    pub images: Vec<(char, Image)>,
}

/// Texel index for fixed-point coordinate `t` in `[0, UV_ONE]` along a side
/// of `n` texels: `t * (n - 1)` rounded to the nearest integer.
pub open spec fn texel_spec(t: int, n: int) -> int {
    (t * (n - 1) + UV_ONE / 2) / (UV_ONE as int)
}

/// `a` with its upper bound at `hi`.
pub open spec fn min_spec(a: int, hi: int) -> int {
    if a < hi {
        a
    } else {
        hi
    }
}

proof fn lemma_texel_bound(t: int, n: int)
    requires
        0 <= t <= UV_ONE,
        n >= 1,
    ensures
        0 <= texel_spec(t, n) <= n - 1,
{
    let one = UV_ONE as int;
    assert(0 <= t * (n - 1) <= one * (n - 1)) by (nonlinear_arith)
        requires 0 <= t <= one, n >= 1;
    assert((t * (n - 1) + one / 2) / one <= n - 1) by (nonlinear_arith)
        requires t * (n - 1) <= one * (n - 1), one == 65536, n >= 1;
}

impl TextureManager {
    /// Keys are distinct and every image is well formed.
    pub open spec fn wf(&self) -> bool {
        &&& forall|i: int, j: int|
            0 <= i < j < self.images@.len() ==> self.images@[i].0 != self.images@[j].0
        &&& forall|i: int| 0 <= i < self.images@.len() ==> (#[trigger] self.images@[i]).1.wf()
    }

    /// The image of material `ch`, if one was loaded.
    pub open spec fn image_of(&self, ch: char) -> Option<Image> {
        if exists|i: int| 0 <= i < self.images@.len() && (#[trigger] self.images@[i]).0 == ch {
            let i = choose|i: int| 0 <= i < self.images@.len() && (#[trigger] self.images@[i]).0 == ch;
            Some(self.images@[i].1)
        } else {
            None
        }
    }

    /// The colour `get_pixel_color` reports for material `ch` at `(tx, ty)`.
    pub open spec fn pixel_spec(&self, ch: char, tx: int, ty: int) -> Color {
        match self.image_of(ch) {
            Some(img) => img.at(min_spec(tx, img.width - 1), min_spec(ty, img.height - 1)),
            None => white(),
        }
    }

    /// The colour `sample_uv` reports for material `ch` at `(u, v)`: the
    /// coordinates, clamped into `[0, UV_ONE]`, select the texel, nearest
    /// neighbour, with `v` measured upwards from the bottom row (`v == 0` is
    /// the last row, `v == UV_ONE` the first).
    pub open spec fn sample_spec(&self, ch: char, u: int, v: int) -> Color {
        match self.image_of(ch) {
            Some(img) => {
                let uu = min_spec(u, UV_ONE as int);
                let vv = min_spec(v, UV_ONE as int);
                self.pixel_spec(
                    ch,
                    texel_spec(uu, img.width as int),
                    texel_spec(UV_ONE - vv, img.height as int),
                )
            },
            None => white(),
        }
    }

    /// The size `image_size` reports for material `ch`.
    pub open spec fn size_spec(&self, ch: char) -> (u32, u32) {
        match self.image_of(ch) {
            Some(img) => (img.width, img.height),
            None => (MISSING_SIZE, MISSING_SIZE),
        }
    }

    /// A manager with no images: every material samples as white.
    pub fn new() -> (t: TextureManager)
        ensures
            t.wf(),
            forall|ch: char| t.image_of(ch) is None,
    {
        TextureManager { images: Vec::new() }
    }

    fn find(&self, ch: char) -> (r: Option<usize>)
        requires
            self.wf(),
        ensures
            match r {
                Some(i) => i < self.images@.len() && self.images@[i as int].0 == ch
                    && self.image_of(ch) == Some(self.images@[i as int].1),
                None => self.image_of(ch) is None,
            },
    {
        let mut i: usize = 0;
        while i < self.images.len()
            invariant
                i <= self.images@.len(),
                self.wf(),
                forall|k: int| 0 <= k < i ==> (#[trigger] self.images@[k]).0 != ch,
            decreases self.images@.len() - i,
        {
            if self.images[i].0 == ch {
                proof {
                    assert(self.images@[i as int].0 == ch);
                    let j = choose|j: int|
                        0 <= j < self.images@.len() && (#[trigger] self.images@[j]).0 == ch;
                    if j != i {
                        if j < i {
                            assert(self.images@[j].0 != ch);
                        } else {
                            assert(self.images@[i as int].0 != self.images@[j].0);
                        }
                    }
                }
                return Some(i);
            }
            i = i + 1;
        }
        None
    }

    /// Registers `img` as the image of material `ch`, replacing any earlier one.
    pub fn insert(&mut self, ch: char, img: Image)
        requires
            old(self).wf(),
            img.wf(),
        ensures
            final(self).wf(),
            final(self).image_of(ch) == Some(img),
            forall|c: char| c != ch ==> final(self).image_of(c) == old(self).image_of(c),
    {
        match self.find(ch) {
            Some(i) => {
                let ghost before = self.images@;
                self.images.set(i, (ch, img));
                proof {
                    assert(self.images@[i as int].0 == ch);
                    assert forall|c: char| c != ch implies self.image_of(c) == old(self).image_of(
                        c,
                    ) by {
                        if exists|k: int|
                            0 <= k < before.len() && (#[trigger] before[k]).0 == c {
                            let k = choose|k: int|
                                0 <= k < before.len() && (#[trigger] before[k]).0 == c;
                            assert(self.images@[k].0 == c);
                        }
                        if exists|k: int|
                            0 <= k < self.images@.len() && (#[trigger] self.images@[k]).0 == c {
                            let k = choose|k: int|
                                0 <= k < self.images@.len() && (#[trigger] self.images@[k]).0 == c;
                            assert(before[k].0 == c);
                        }
                        let a = choose|k: int|
                            0 <= k < before.len() && (#[trigger] before[k]).0 == c;
                        let b = choose|k: int|
                            0 <= k < self.images@.len() && (#[trigger] self.images@[k]).0 == c;
                        if self.image_of(c) is Some {
                            assert(a == b);
                        }
                    }
                    let b = choose|k: int|
                        0 <= k < self.images@.len() && (#[trigger] self.images@[k]).0 == ch;
                    assert(b == i);
                }
            },
            None => {
                let ghost before = self.images@;
                self.images.push((ch, img));
                proof {
                    let n = before.len() as int;
                    assert(self.images@[n].0 == ch);
                    assert forall|c: char| c != ch implies self.image_of(c) == old(self).image_of(
                        c,
                    ) by {
                        if exists|k: int|
                            0 <= k < before.len() && (#[trigger] before[k]).0 == c {
                            let k = choose|k: int|
                                0 <= k < before.len() && (#[trigger] before[k]).0 == c;
                            assert(self.images@[k].0 == c);
                        }
                        if exists|k: int|
                            0 <= k < self.images@.len() && (#[trigger] self.images@[k]).0 == c {
                            let k = choose|k: int|
                                0 <= k < self.images@.len() && (#[trigger] self.images@[k]).0 == c;
                            assert(k < n);
                            assert(before[k].0 == c);
                        }
                        let a = choose|k: int|
                            0 <= k < before.len() && (#[trigger] before[k]).0 == c;
                        let b = choose|k: int|
                            0 <= k < self.images@.len() && (#[trigger] self.images@[k]).0 == c;
                        if self.image_of(c) is Some {
                            assert(a == b);
                        }
                    }
                    let b = choose|k: int|
                        0 <= k < self.images@.len() && (#[trigger] self.images@[k]).0 == ch;
                    if b != n {
                        assert(before[b].0 == ch);
                    }
                }
            },
        }
    }

    /// The colour of material `ch` at texel `(tx, ty)`, with coordinates past
    /// the image's edge moved onto it; white for a material with no image.
    pub fn get_pixel_color(&self, ch: char, tx: u32, ty: u32) -> (c: Color)
        requires
            self.wf(),
        ensures
            c == self.pixel_spec(ch, tx as int, ty as int),
    {
        match self.find(ch) {
            Some(i) => {
                let img = &self.images[i].1;
                assert(img.wf());
                let x = if tx < img.width - 1 { tx } else { img.width - 1 };
                let y = if ty < img.height - 1 { ty } else { img.height - 1 };
                let n: usize = img.pixels.len();
                proof {
                    assert(0 <= y * img.width + x < img.width * img.height) by (nonlinear_arith)
                        requires x < img.width, y < img.height;
                }
                img.pixels[y as usize * img.width as usize + x as usize]
            },
            None => Color::new(255, 255, 255, 255),
        }
    }

    /// Nearest-neighbour sample of material `ch` at fixed-point `(u, v)`;
    /// coordinates past `UV_ONE` count as `UV_ONE`, and `v` runs upwards from
    /// the bottom row.
    pub fn sample_uv(&self, ch: char, u: u64, v: u64) -> (c: Color)
        requires
            self.wf(),
        ensures
            c == self.sample_spec(ch, u as int, v as int),
    {
        match self.find(ch) {
            Some(i) => {
                let img = &self.images[i].1;
                let uu = if u < UV_ONE { u } else { UV_ONE };
                let vv = if v < UV_ONE { v } else { UV_ONE };
                proof {
                    lemma_texel_bound(uu as int, img.width as int);
                    lemma_texel_bound(UV_ONE - vv, img.height as int);
                }
                let tx = (uu * (img.width as u64 - 1) + UV_ONE / 2) / UV_ONE;
                let ty = ((UV_ONE - vv) * (img.height as u64 - 1) + UV_ONE / 2) / UV_ONE;
                self.get_pixel_color(ch, tx as u32, ty as u32)
            },
            None => Color::new(255, 255, 255, 255),
        }
    }

    /// Width and height of the image of material `ch`; `MISSING_SIZE` square
    /// when there is none.
    pub fn image_size(&self, ch: char) -> (r: (u32, u32))
        requires
            self.wf(),
        ensures
            r == self.size_spec(ch),
            r.0 >= 1,
            r.1 >= 1,
    {
        match self.find(ch) {
            Some(i) => (self.images[i].1.width, self.images[i].1.height),
            None => (MISSING_SIZE, MISSING_SIZE),
        }
    }
}

} // verus!
