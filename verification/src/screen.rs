use vstd::prelude::*;
use vstd::arithmetic::div_mod::lemma_fundamental_div_mod;

verus! {

/// Mathematical model of the display: its dimensions and a row-major grid
/// of cells, each on or off.
#[verifier::ext_equal]
pub struct ScreenView {
    pub width: int,
    pub height: int,
    pub px: Seq<bool>,
}

/// What drawing a sprite does to a screen model: the new screen, and the
/// collision flag (true exactly when some lit pixel was turned off).
#[verifier::ext_equal]
pub struct DrawEffect {
    pub s: ScreenView,
    pub collision: bool,
}

impl ScreenView {
    /// Well-formed: the classic CHIP-8 resolution, one grid cell per pixel.
    pub open spec fn wf(self) -> bool {
        &&& self.width == 64
        &&& self.height == 32
        &&& self.px.len() == self.width * self.height
    }

    /// The pixel at column x, row y.
    pub open spec fn pixel(self, x: int, y: int) -> bool {
        self.px[y * self.width + x]
    }

    /// The all-off grid with the same dimensions.
    pub open spec fn cleared(self) -> ScreenView {
        ScreenView { width: self.width, height: self.height, px: Seq::new(self.px.len(), |j: int| false) }
    }
}

/// 2^(7-c): the weight of sprite-row bit c, where column 0 is the leftmost
/// pixel (the most significant bit of the row byte).
pub open spec fn col_weight(c: int) -> u8 {
    if c == 0 { 128 }
    else if c == 1 { 64 }
    else if c == 2 { 32 }
    else if c == 3 { 16 }
    else if c == 4 { 8 }
    else if c == 5 { 4 }
    else if c == 6 { 2 }
    else { 1 }
}

/// Bit c of a sprite row byte, counted with column 0 leftmost.
pub open spec fn sprite_bit(b: u8, c: int) -> bool {
    (b as int / col_weight(c) as int) % 2 == 1
}

/// The offset of pos from base on a ring of size m: the inverse of adding
/// an offset to base modulo m, for 0 <= pos < m and 0 <= base < m.
pub open spec fn ring_offset(pos: int, base: int, m: int) -> int {
    if pos >= base { pos - base } else { pos + m - base }
}

/// Whether drawing `sprite` with its top-left corner at (bx, by) flips the
/// pixel with linear index j, counting only the sprite rows before `rows`
/// plus, in row `rows` itself, the columns before `cols`. Coordinates wrap
/// at the screen edges, so the source row and column of a pixel are its
/// ring offsets from the corner.
pub open spec fn flip_upto(
    w: int, h: int, bx: int, by: int, sprite: Seq<u8>, rows: int, cols: int, j: int,
) -> bool {
    let c = ring_offset(j % w, bx, w);
    let r = ring_offset(j / w, by, h);
    &&& r < sprite.len()
    &&& c < 8
    &&& sprite_bit(sprite[r], c)
    &&& (r < rows || (r == rows && c < cols))
}

/// Whether the complete draw of `sprite` at corner (bx, by) flips pixel j.
pub open spec fn flips(w: int, h: int, bx: int, by: int, sprite: Seq<u8>, j: int) -> bool {
    flip_upto(w, h, bx, by, sprite, sprite.len() as int, 0, j)
}

/// The draw operation on the screen model: XOR the sprite rows onto the
/// grid with the top-left corner at (x0 mod width, y0 mod height), rows and
/// columns wrapping at the edges rather than clipping. The collision flag
/// is set exactly when some pixel flips from on to off.
pub open spec fn spec_draw(s: ScreenView, x0: int, y0: int, sprite: Seq<u8>) -> DrawEffect {
    let bx = x0 % s.width;
    let by = y0 % s.height;
    DrawEffect {
        s: ScreenView {
            width: s.width,
            height: s.height,
            px: Seq::new(s.px.len(), |j: int| s.px[j] != flips(s.width, s.height, bx, by, sprite, j)),
        },
        collision: exists|j: int|
            0 <= j < s.px.len() && s.px[j] && #[trigger] flips(s.width, s.height, bx, by, sprite, j),
    }
}

/// The drawing loop's intermediate state: after applying the sprite bits
/// before (rows, cols), the pixel grid is the original XORed with the flips
/// so far, and `collided` records whether a lit pixel has gone dark.
spec fn draw_inv(
    s0: ScreenView, pxs: Seq<bool>, collided: bool, bx: int, by: int, spr: Seq<u8>,
    rows: int, cols: int,
) -> bool {
    &&& pxs.len() == s0.px.len()
    &&& (forall|q: int|
        0 <= q < s0.px.len() ==> pxs[q] == (s0.px[q]
            != #[trigger] flip_upto(64, 32, bx, by, spr, rows, cols, q)))
    &&& (collided == exists|q: int|
        0 <= q < s0.px.len() && s0.px[q] && #[trigger] flip_upto(64, 32, bx, by, spr, rows, cols, q))
}

/// The monochrome display: a 64 by 32 grid of cells, row-major, written by
/// the draw instruction and read by the host for rendering.
pub struct Screen {
    pub(crate) pixels: Vec<bool>,
    /// How many pixels wide the display is (64).
    pub width: usize,
    /// How many pixels high the display is (32).
    pub height: usize,
}

impl View for Screen {
    type V = ScreenView;

    closed spec fn view(&self) -> ScreenView {
        ScreenView { width: self.width as int, height: self.height as int, px: self.pixels@ }
    }
}

impl Screen {
    /// The model's dimensions are the public width and height fields.
    pub(crate) proof fn lemma_dims(&self)
        ensures
            self@.width == self.width as int,
            self@.height == self.height as int,
    {
    }

    /// An all-off display of the standard resolution.
    pub fn new() -> (s: Screen)
        ensures
            s@.wf(),
            s@ == (ScreenView { width: 64, height: 32, px: Seq::new(2048, |j: int| false) }),
    {
        let mut pixels: Vec<bool> = Vec::new();
        while pixels.len() < 2048
            invariant
                pixels@.len() <= 2048,
                forall|j: int| 0 <= j < pixels@.len() ==> !pixels@[j],
            decreases 2048 - pixels@.len(),
        {
            pixels.push(false);
        }
        let s = Screen { pixels, width: 64, height: 32 };
        proof {
            assert(s@.px =~= Seq::new(2048, |j: int| false));
            assert(s@ =~= (ScreenView { width: 64, height: 32, px: Seq::new(2048, |j: int| false) }));
        }
        s
    }

    /// The state of the pixel at column x, row y.
    pub fn get_pixel(&self, x: usize, y: usize) -> (b: bool)
        requires
            self@.wf(),
            x < self@.width,
            y < self@.height,
        ensures
            b == self@.pixel(x as int, y as int),
    {
        self.pixels[x + y * self.width]
    }

    /// Turn every pixel off.
    pub fn clear(&mut self)
        requires
            old(self)@.wf(),
        ensures
            final(self)@.wf(),
            final(self)@ == old(self)@.cleared(),
    {
        let n = self.pixels.len();
        for i in 0..n
            invariant
                self.pixels@.len() == n,
                self.width == old(self).width,
                self.height == old(self).height,
                n == old(self)@.px.len(),
                old(self)@.wf(),
                forall|j: int| 0 <= j < i ==> !self.pixels@[j],
        {
            self.pixels[i] = false;
        }
        proof {
            assert(self@.px =~= old(self)@.cleared().px);
            assert(self@ =~= old(self)@.cleared());
        }
    }

    /// XOR-draw `sprite` with its top-left corner at (x0 mod 64, y0 mod 32),
    /// wrapping at the screen edges, and report whether some lit pixel was
    /// turned off.
    pub fn draw_sprite(&mut self, x0: usize, y0: usize, sprite: &Vec<u8>) -> (collision: bool)
        requires
            old(self)@.wf(),
            sprite@.len() <= 16,
        ensures
            final(self)@.wf(),
            final(self)@ == spec_draw(old(self)@, x0 as int, y0 as int, sprite@).s,
            collision == spec_draw(old(self)@, x0 as int, y0 as int, sprite@).collision,
    {
        let w = self.width;
        let h = self.height;
        let bx = x0 % w;
        let by = y0 % h;
        let n = sprite.len();
        let mut collided = false;
        let ghost s0 = self@;
        let ghost spr = sprite@;
        let ghost bxi = bx as int;
        let ghost byi = by as int;
        proof {
            assert(w == 64 && h == 32);
            assert(s0.px.len() == 2048);
            assert(draw_inv(s0, self.pixels@, false, bxi, byi, spr, 0, 0)) by {
                assert(forall|q: int|
                    0 <= q < 2048 ==> !#[trigger] flip_upto(64, 32, bxi, byi, spr, 0, 0, q));
            }
        }
        for r in 0..n
            invariant
                w == 64,
                h == 32,
                s0.wf(),
                s0.px.len() == 2048,
                spr.len() <= 16,
                n == spr.len(),
                spr == sprite@,
                bxi == bx as int,
                byi == by as int,
                0 <= bxi < 64,
                0 <= byi < 32,
                self.width == w,
                self.height == h,
                self.pixels@.len() == 2048,
                draw_inv(s0, self.pixels@, collided, bxi, byi, spr, r as int, 0),
        {
            let row = sprite[r];
            for c in 0..8usize
                invariant
                    w == 64,
                    h == 32,
                    s0.wf(),
                    s0.px.len() == 2048,
                    spr.len() <= 16,
                    n == spr.len(),
                    spr == sprite@,
                    bxi == bx as int,
                    byi == by as int,
                    0 <= bxi < 64,
                    0 <= byi < 32,
                    r < n,
                    row == spr[r as int],
                    self.width == w,
                    self.height == h,
                    self.pixels@.len() == 2048,
                    draw_inv(s0, self.pixels@, collided, bxi, byi, spr, r as int, c as int),
            {
                let ghost ri = r as int;
                let ghost ci = c as int;
                let mask = bit_weight(c);
                if (row / mask) % 2 == 1 {
                    let tx = if bx + c < w { bx + c } else { bx + c - w };
                    let ty = if by + r < h { by + r } else { by + r - h };
                    let j = tx + ty * w;
                    proof {
                        assert(0 <= tx < 64 && 0 <= ty < 32);
                        assert(j as int == ty as int * 64 + tx as int);
                        assert(0 <= j < 2048);
                        assert(j as int % 64 == tx as int && j as int / 64 == ty as int);
                        assert(ring_offset(j as int % 64, bxi, 64) == ci);
                        assert(ring_offset(j as int / 64, byi, 32) == ri);
                        assert(sprite_bit(spr[ri], ci));
                        assert(!flip_upto(64, 32, bxi, byi, spr, ri, ci, j as int));
                    }
                    let ghost pxs0 = self.pixels@;
                    let ghost col0 = collided;
                    let cur = self.pixels[j];
                    collided = collided || cur;
                    self.pixels[j] = !cur;
                    proof {
                        let ji = j as int;
                        assert(cur == s0.px[ji]);
                        assert(flip_upto(64, 32, bxi, byi, spr, ri, ci + 1, ji));
                        assert(draw_inv(s0, self.pixels@, collided, bxi, byi, spr, ri, ci + 1)) by {
                            assert(self.pixels@ == pxs0.update(ji, !cur));
                            assert forall|q: int| 0 <= q < 2048 implies self.pixels@[q] == (
                                s0.px[q] != flip_upto(64, 32, bxi, byi, spr, ri, ci + 1, q)) by {
                                lemma_fundamental_div_mod(q, 64);
                                assert(pxs0[q] == (s0.px[q]
                                    != flip_upto(64, 32, bxi, byi, spr, ri, ci, q)));
                                if q != ji {
                                    if ring_offset(q % 64, bxi, 64) == ci
                                        && ring_offset(q / 64, byi, 32) == ri {
                                        assert(q % 64 == tx as int && q / 64 == ty as int);
                                        assert(q == ji);
                                    }
                                }
                            }
                            if collided {
                                if col0 {
                                    let q0 = choose|q: int|
                                        0 <= q < 2048 && s0.px[q]
                                            && #[trigger] flip_upto(64, 32, bxi, byi, spr, ri, ci, q);
                                    assert(flip_upto(64, 32, bxi, byi, spr, ri, ci + 1, q0));
                                } else {
                                    assert(s0.px[ji]
                                        && flip_upto(64, 32, bxi, byi, spr, ri, ci + 1, ji));
                                }
                                assert(exists|q: int|
                                    0 <= q < 2048 && s0.px[q]
                                        && #[trigger] flip_upto(64, 32, bxi, byi, spr, ri, ci + 1, q));
                            } else {
                                assert forall|q: int| 0 <= q < 2048 && s0.px[q] implies
                                    !flip_upto(64, 32, bxi, byi, spr, ri, ci + 1, q) by {
                                    lemma_fundamental_div_mod(q, 64);
                                    if flip_upto(64, 32, bxi, byi, spr, ri, ci + 1, q) {
                                        if flip_upto(64, 32, bxi, byi, spr, ri, ci, q) {
                                            assert(col0);
                                        } else {
                                            assert(q % 64 == tx as int && q / 64 == ty as int);
                                            assert(q == ji);
                                            assert(cur);
                                        }
                                    }
                                }
                            }
                        }
                    }
                } else {
                    proof {
                        assert(!sprite_bit(spr[ri], ci));
                        assert(draw_inv(s0, self.pixels@, collided, bxi, byi, spr, ri, ci + 1)) by {
                            assert forall|q: int| 0 <= q < 2048 implies
                                flip_upto(64, 32, bxi, byi, spr, ri, ci + 1, q)
                                    == flip_upto(64, 32, bxi, byi, spr, ri, ci, q) by {
                                if ring_offset(q / 64, byi, 32) == ri
                                    && ring_offset(q % 64, bxi, 64) == ci {
                                    assert(!sprite_bit(spr[ri], ci));
                                }
                            }
                            assert forall|q: int| 0 <= q < 2048 implies self.pixels@[q] == (
                                s0.px[q] != flip_upto(64, 32, bxi, byi, spr, ri, ci + 1, q)) by {
                                assert(self.pixels@[q] == (s0.px[q]
                                    != flip_upto(64, 32, bxi, byi, spr, ri, ci, q)));
                            }
                            if collided {
                                let q0 = choose|q: int|
                                    0 <= q < 2048 && s0.px[q]
                                        && #[trigger] flip_upto(64, 32, bxi, byi, spr, ri, ci, q);
                                assert(flip_upto(64, 32, bxi, byi, spr, ri, ci + 1, q0));
                                assert(exists|q: int|
                                    0 <= q < 2048 && s0.px[q]
                                        && #[trigger] flip_upto(64, 32, bxi, byi, spr, ri, ci + 1, q));
                            } else {
                                assert forall|q: int| 0 <= q < 2048 && s0.px[q] implies
                                    !flip_upto(64, 32, bxi, byi, spr, ri, ci + 1, q) by {
                                    assert(flip_upto(64, 32, bxi, byi, spr, ri, ci + 1, q)
                                        == flip_upto(64, 32, bxi, byi, spr, ri, ci, q));
                                }
                            }
                        }
                    }
                }
            }
            proof {
                let ri = r as int;
                assert(draw_inv(s0, self.pixels@, collided, bxi, byi, spr, ri + 1, 0)) by {
                    assert forall|q: int| 0 <= q < 2048 implies
                        flip_upto(64, 32, bxi, byi, spr, ri + 1, 0, q)
                            == flip_upto(64, 32, bxi, byi, spr, ri, 8, q) by {}
                    assert forall|q: int| 0 <= q < 2048 implies self.pixels@[q] == (
                        s0.px[q] != flip_upto(64, 32, bxi, byi, spr, ri + 1, 0, q)) by {
                        assert(self.pixels@[q] == (s0.px[q]
                            != flip_upto(64, 32, bxi, byi, spr, ri, 8, q)));
                    }
                    if collided {
                        let q0 = choose|q: int|
                            0 <= q < 2048 && s0.px[q]
                                && #[trigger] flip_upto(64, 32, bxi, byi, spr, ri, 8, q);
                        assert(flip_upto(64, 32, bxi, byi, spr, ri + 1, 0, q0));
                        assert(exists|q: int|
                            0 <= q < 2048 && s0.px[q]
                                && #[trigger] flip_upto(64, 32, bxi, byi, spr, ri + 1, 0, q));
                    } else {
                        assert forall|q: int| 0 <= q < 2048 && s0.px[q] implies
                            !flip_upto(64, 32, bxi, byi, spr, ri + 1, 0, q) by {
                            assert(flip_upto(64, 32, bxi, byi, spr, ri + 1, 0, q)
                                == flip_upto(64, 32, bxi, byi, spr, ri, 8, q));
                        }
                    }
                }
            }
        }
        proof {
            let d = spec_draw(s0, x0 as int, y0 as int, spr);
            let ni = n as int;
            assert(x0 as int % 64 == bxi && y0 as int % 32 == byi);
            assert forall|q: int| 0 <= q < 2048 implies
                flip_upto(64, 32, bxi, byi, spr, ni, 0, q)
                    == flips(64, 32, bxi, byi, spr, q) by {}
            assert forall|q: int| 0 <= q < 2048 implies d.s.px[q] == self.pixels@[q] by {
                assert(self.pixels@[q] == (s0.px[q]
                    != flip_upto(64, 32, bxi, byi, spr, ni, 0, q)));
                assert(d.s.px[q] == (s0.px[q] != flips(64, 32, bxi, byi, spr, q)));
            }
            assert(d.s.px =~= self.pixels@);
            assert(d.s =~= self@);
            assert(collided == d.collision) by {
                if collided {
                    let q0 = choose|q: int|
                        0 <= q < 2048 && s0.px[q]
                            && #[trigger] flip_upto(64, 32, bxi, byi, spr, ni, 0, q);
                    assert(s0.px[q0] && flips(64, 32, bxi, byi, spr, q0));
                } else {
                    if d.collision {
                        let q1 = choose|q: int|
                            0 <= q < 2048 && s0.px[q]
                                && #[trigger] flips(64, 32, bxi, byi, spr, q);
                        assert(flip_upto(64, 32, bxi, byi, spr, ni, 0, q1));
                        assert(exists|q: int|
                            0 <= q < 2048 && s0.px[q]
                                && #[trigger] flip_upto(64, 32, bxi, byi, spr, ni, 0, q));
                    }
                }
            }
        }
        collided
    }
}

/// The power of two that weighs sprite-row bit c (column 0 leftmost).
fn bit_weight(c: usize) -> (m: u8)
    requires
        c < 8,
    ensures
        m == col_weight(c as int),
        m >= 1,
{
    if c == 0 { 128 }
    else if c == 1 { 64 }
    else if c == 2 { 32 }
    else if c == 3 { 16 }
    else if c == 4 { 8 }
    else if c == 5 { 4 }
    else if c == 6 { 2 }
    else { 1 }
}

} // verus!
