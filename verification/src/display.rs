use vstd::prelude::*;

verus! {

/// Width of the pixel grid.
pub const WIDTH: usize = 64;
/// Height of the pixel grid.
pub const HEIGHT: usize = 32;
/// Total number of pixels.
pub const PIXELS: usize = WIDTH * HEIGHT;

/// Index of the pixel at `(x, y)` after wrapping both coordinates.
pub open spec fn pix(x: int, y: int) -> int {
    (y % (HEIGHT as int)) * (WIDTH as int) + (x % (WIDTH as int))
}

/// The weight of bit `b` of a sprite row; the most significant bit is the
/// leftmost pixel.
pub open spec fn bit_place(b: int) -> int {
    if b == 0 {
        128
    } else if b == 1 {
        64
    } else if b == 2 {
        32
    } else if b == 3 {
        16
    } else if b == 4 {
        8
    } else if b == 5 {
        4
    } else if b == 6 {
        2
    } else {
        1
    }
}

/// Bit `b` of the row byte `line`, counting from the leftmost pixel.
pub open spec fn row_bit(line: u8, b: int) -> bool {
    (line as int / bit_place(b)) % 2 == 1
}

/// The grid after XOR-drawing bits `b..8` of one sprite row whose leftmost
/// bit lands at `(x, y)`.
pub open spec fn blit_row_from(g: Seq<bool>, line: u8, x: int, y: int, b: int) -> Seq<bool>
    decreases 8 - b,
{
    if b < 0 || b >= 8 {
        g
    } else {
        let g1 = if row_bit(line, b) {
            g.update(pix(x + b, y), !g[pix(x + b, y)])
        } else {
            g
        };
        blit_row_from(g1, line, x, y, b + 1)
    }
}

/// Whether drawing bits `b..8` of one sprite row turns some lit pixel off.
pub open spec fn collide_row_from(g: Seq<bool>, line: u8, x: int, y: int, b: int) -> bool
    decreases 8 - b,
{
    if b < 0 || b >= 8 {
        false
    } else {
        let hit = row_bit(line, b) && g[pix(x + b, y)];
        let g1 = if row_bit(line, b) {
            g.update(pix(x + b, y), !g[pix(x + b, y)])
        } else {
            g
        };
        hit || collide_row_from(g1, line, x, y, b + 1)
    }
}

/// The grid after drawing sprite rows `r..`, row `r` landing at height
/// `y + r`.
pub open spec fn blit_from(g: Seq<bool>, rows: Seq<u8>, x: int, y: int, r: int) -> Seq<bool>
    decreases rows.len() - r,
{
    if r < 0 || r >= rows.len() {
        g
    } else {
        blit_from(blit_row_from(g, rows[r], x, y + r, 0), rows, x, y, r + 1)
    }
}

/// Whether drawing sprite rows `r..` turns some lit pixel off.
pub open spec fn collide_from(g: Seq<bool>, rows: Seq<u8>, x: int, y: int, r: int) -> bool
    decreases rows.len() - r,
{
    if r < 0 || r >= rows.len() {
        false
    } else {
        collide_row_from(g, rows[r], x, y + r, 0) || collide_from(
            blit_row_from(g, rows[r], x, y + r, 0),
            rows,
            x,
            y,
            r + 1,
        )
    }
}

/// The whole grid after XOR-drawing a sprite at `(x, y)`, wrapping at the
/// edges.
pub open spec fn spec_blit(g: Seq<bool>, rows: Seq<u8>, x: int, y: int) -> Seq<bool> {
    blit_from(g, rows, x, y, 0)
}

/// Whether drawing the sprite turned any lit pixel off.
pub open spec fn spec_collision(g: Seq<bool>, rows: Seq<u8>, x: int, y: int) -> bool {
    collide_from(g, rows, x, y, 0)
}

/// Fixed-size monochrome pixel grid with XOR-blit and wraparound.
pub struct Display {
    data: Vec<bool>,
}

impl View for Display {
    type V = Seq<bool>;

    closed spec fn view(&self) -> Seq<bool> {
        self.data@
    }
}

impl Display {
    /// The grid always holds exactly `PIXELS` pixels.
    pub open spec fn wf(&self) -> bool {
        self@.len() == PIXELS
    }

    /// A fresh display with every pixel unset.
    pub fn new() -> (r: Display)
        ensures
            r.wf(),
            forall|p: int| 0 <= p < PIXELS ==> !r@[p],
    {
        let mut data: Vec<bool> = Vec::new();
        while data.len() < PIXELS
            invariant
                data@.len() <= PIXELS,
                forall|p: int| 0 <= p < data@.len() ==> !data@[p],
            decreases PIXELS - data@.len(),
        {
            data.push(false);
        }
        Display { data }
    }

    /// Resets every pixel to unset.
    pub fn clear(&mut self)
        requires
            old(self).wf(),
        ensures
            final(self).wf(),
            forall|p: int| 0 <= p < PIXELS ==> !final(self)@[p],
    {
        let mut p: usize = 0;
        while p < PIXELS
            invariant
                self.wf(),
                p <= PIXELS,
                forall|q: int| 0 <= q < p ==> !self@[q],
            decreases PIXELS - p,
        {
            self.data.set(p, false);
            p = p + 1;
        }
    }

    /// Whether the pixel at `(x, y)` is lit; the host reads the grid
    /// through this, one pixel at a time.
    pub fn is_set(&self, x: u16, y: u16) -> (b: bool)
        requires
            self.wf(),
            x < WIDTH,
            y < HEIGHT,
        ensures
            b == self@[y as int * WIDTH + x as int],
    {
        let i = Display::coords_to_index(x, y);
        self.data[i as usize]
    }

    /// XOR-draws the sprite rows at `(x_pos, y_pos)`, most significant bit
    /// leftmost, wrapping at both edges; reports whether any lit pixel was
    /// turned off.
    pub fn display_sprite(&mut self, spr_data: &[u8], x_pos: u16, y_pos: u16) -> (collision:
        bool)
        requires
            old(self).wf(),
        ensures
            final(self).wf(),
            final(self)@ == spec_blit(old(self)@, spr_data@, x_pos as int, y_pos as int),
            collision == spec_collision(old(self)@, spr_data@, x_pos as int, y_pos as int),
    {
        let ghost g0 = self@;
        let ghost gx = x_pos as int;
        let ghost gy = y_pos as int;
        let ghost rows = spr_data@;
        let mut collision = false;
        let mut r: usize = 0;
        while r < spr_data.len()
            invariant
                self.wf(),
                r <= rows.len(),
                rows == spr_data@,
                gx == x_pos as int,
                gy == y_pos as int,
                spec_blit(g0, rows, gx, gy) == blit_from(self@, rows, gx, gy, r as int),
                spec_collision(g0, rows, gx, gy) == (collision || collide_from(
                    self@,
                    rows,
                    gx,
                    gy,
                    r as int,
                )),
            decreases rows.len() - r,
        {
            let line = spr_data[r];
            let ghost gyr = gy + r;
            let mut b: usize = 0;
            let mut w: u8 = 128;
            while b < 8
                invariant
                    self.wf(),
                    b <= 8,
                    r < rows.len(),
                    rows == spr_data@,
                    gx == x_pos as int,
                    gy == y_pos as int,
                    line == rows[r as int],
                    gyr == gy + r,
                    b < 8 ==> w as int == bit_place(b as int),
                    spec_blit(g0, rows, gx, gy) == blit_from(
                        blit_row_from(self@, line, gx, gyr, b as int),
                        rows,
                        gx,
                        gy,
                        r + 1,
                    ),
                    spec_collision(g0, rows, gx, gy) == (collision || collide_row_from(
                        self@,
                        line,
                        gx,
                        gyr,
                        b as int,
                    ) || collide_from(
                        blit_row_from(self@, line, gx, gyr, b as int),
                        rows,
                        gx,
                        gy,
                        r + 1,
                    )),
                decreases 8 - b,
            {
                let bit_set = (line / w) % 2 == 1;
                let fx = ((x_pos as u128 + b as u128) % (WIDTH as u128)) as u16;
                let fy = ((y_pos as u128 + r as u128) % (HEIGHT as u128)) as u16;
                let i = Display::coords_to_index(fx, fy);
                let ghost gprev = self@;
                proof {
                    assert(i as int == pix(gx + b, gyr));
                }
                if bit_set {
                    let cur = self.data[i as usize];
                    if cur {
                        collision = true;
                    }
                    self.data.set(i as usize, !cur);
                }
                proof {
                    assert(blit_row_from(gprev, line, gx, gyr, b as int) == blit_row_from(
                        self@,
                        line,
                        gx,
                        gyr,
                        b as int + 1,
                    ));
                    assert(collide_row_from(gprev, line, gx, gyr, b as int) == ((row_bit(
                        line,
                        b as int,
                    ) && gprev[pix(gx + b, gyr)]) || collide_row_from(
                        self@,
                        line,
                        gx,
                        gyr,
                        b as int + 1,
                    )));
                }
                b = b + 1;
                w = w / 2;
            }
            r = r + 1;
        }
        collision
    }

    /// Flattens wrapped coordinates into an index of the pixel row-major
    /// order.
    fn coords_to_index(x: u16, y: u16) -> (i: u16)
        requires
            x < WIDTH,
            y < HEIGHT,
        ensures
            i as int == y as int * WIDTH + x as int,
            i < PIXELS,
    {
        y * (WIDTH as u16) + x
    }
}



/// The wrapped display row a pixel index lies in.
pub open spec fn row_of(p: int) -> int {
    p / (WIDTH as int)
}

/// The pixel bit `b` of a sprite row at `(x, y)` lands on.
pub open spec fn row_pix(x: int, y: int, b: int) -> int {
    pix(x + b, y)
}

/// The pixel bit `b` of sprite row `r` lands on when the sprite sits at
/// `(x, y)`: column `(x + b) mod WIDTH`, row `(y + r) mod HEIGHT`.
pub open spec fn bit_pix(x: int, y: int, r: int, b: int) -> int {
    pix(x + b, y + r)
}

/// Whether bits `b..8` of one sprite row flip pixel `p` an odd number of
/// times.
pub open spec fn row_mask_from(line: u8, x: int, y: int, b: int, p: int) -> bool
    decreases 8 - b,
{
    if b < 0 || b >= 8 {
        false
    } else {
        ((row_bit(line, b) && p == pix(x + b, y)) != row_mask_from(line, x, y, b + 1, p))
    }
}

/// Whether sprite rows `r..` flip pixel `p` an odd number of times.
pub open spec fn sprite_mask_from(rows: Seq<u8>, x: int, y: int, r: int, p: int) -> bool
    decreases rows.len() - r,
{
    if r < 0 || r >= rows.len() {
        false
    } else {
        (row_mask_from(rows[r], x, y + r, 0, p) != sprite_mask_from(rows, x, y, r + 1, p))
    }
}

/// A pixel index decomposes into its wrapped row and column.
proof fn lemma_pix_parts(x: int, y: int)
    ensures
        0 <= pix(x, y) < PIXELS,
        row_of(pix(x, y)) == y % (HEIGHT as int),
        pix(x, y) % (WIDTH as int) == x % (WIDTH as int),
{
    let c = x % (WIDTH as int);
    let rr = y % (HEIGHT as int);
    assert(0 <= c < 64);
    assert(0 <= rr < 32);
    assert((rr * 64 + c) / 64 == rr && (rr * 64 + c) % 64 == c) by (nonlinear_arith)
        requires
            0 <= c < 64,
            0 <= rr < 32,
    ;
}

/// Within one sprite row, distinct bits land on distinct pixels.
proof fn lemma_pix_col_inj(x: int, y: int, b1: int, b2: int)
    requires
        0 <= b1 < b2 < 8,
    ensures
        pix(x + b1, y) != pix(x + b2, y),
{
    lemma_pix_parts(x + b1, y);
    lemma_pix_parts(x + b2, y);
    if pix(x + b1, y) == pix(x + b2, y) {
        let a1 = x + b1;
        let a2 = x + b2;
        vstd::arithmetic::div_mod::lemma_fundamental_div_mod(a1, WIDTH as int);
        vstd::arithmetic::div_mod::lemma_fundamental_div_mod(a2, WIDTH as int);
        assert(a2 - a1 == 64 * (a2 / 64 - a1 / 64));
    }
}

/// Rows fewer than the display height apart wrap to distinct display rows.
proof fn lemma_wrapped_rows_differ(y: int, r1: int, r2: int)
    requires
        r1 < r2,
        r2 - r1 < HEIGHT,
    ensures
        (y + r1) % (HEIGHT as int) != (y + r2) % (HEIGHT as int),
{
    if (y + r1) % (HEIGHT as int) == (y + r2) % (HEIGHT as int) {
        let a1 = y + r1;
        let a2 = y + r2;
        vstd::arithmetic::div_mod::lemma_fundamental_div_mod(a1, HEIGHT as int);
        vstd::arithmetic::div_mod::lemma_fundamental_div_mod(a2, HEIGHT as int);
        assert(a2 - a1 == 32 * (a2 / 32 - a1 / 32));
    }
}

/// Pixel-level effect of drawing the tail of one sprite row: each pixel is
/// XORed with the row's mask.
proof fn lemma_blit_row_pixel(g: Seq<bool>, line: u8, x: int, y: int, b: int, p: int)
    requires
        g.len() == PIXELS,
        0 <= p < PIXELS,
    ensures
        blit_row_from(g, line, x, y, b).len() == PIXELS,
        blit_row_from(g, line, x, y, b)[p] == (g[p] != row_mask_from(line, x, y, b, p)),
    decreases 8 - b,
{
    if 0 <= b < 8 {
        lemma_pix_parts(x + b, y);
        let g1 = if row_bit(line, b) {
            g.update(pix(x + b, y), !g[pix(x + b, y)])
        } else {
            g
        };
        lemma_blit_row_pixel(g1, line, x, y, b + 1, p);
    }
}

/// A row's mask only covers its own wrapped display row.
proof fn lemma_row_mask_other_row(line: u8, x: int, y: int, b: int, p: int)
    requires
        row_of(p) != y % (HEIGHT as int),
    ensures
        !row_mask_from(line, x, y, b, p),
    decreases 8 - b,
{
    if 0 <= b < 8 {
        lemma_pix_parts(x + b, y);
        lemma_row_mask_other_row(line, x, y, b + 1, p);
    }
}

/// On its own pixels a row's mask is exactly the sprite bit.
proof fn lemma_row_mask_at(line: u8, x: int, y: int, b0: int, b: int)
    requires
        0 <= b0 <= 8,
        0 <= b < 8,
    ensures
        row_mask_from(line, x, y, b0, pix(x + b, y)) == (b0 <= b && row_bit(line, b)),
    decreases 8 - b0,
{
    if b0 < 8 {
        lemma_row_mask_at(line, x, y, b0 + 1, b);
        if b0 < b {
            lemma_pix_col_inj(x, y, b0, b);
        } else if b < b0 {
            lemma_pix_col_inj(x, y, b, b0);
        }
    }
}

/// Pixel-level effect of drawing sprite rows `r..`: each pixel is XORed
/// with the sprite's mask.
proof fn lemma_blit_pixel_from(g: Seq<bool>, rows: Seq<u8>, x: int, y: int, r: int, p: int)
    requires
        g.len() == PIXELS,
        0 <= p < PIXELS,
    ensures
        blit_from(g, rows, x, y, r).len() == PIXELS,
        blit_from(g, rows, x, y, r)[p] == (g[p] != sprite_mask_from(rows, x, y, r, p)),
    decreases rows.len() - r,
{
    if 0 <= r < rows.len() {
        let g1 = blit_row_from(g, rows[r], x, y + r, 0);
        lemma_blit_row_pixel(g, rows[r], x, y + r, 0, p);
        lemma_blit_pixel_from(g1, rows, x, y, r + 1, p);
    }
}

/// With at most `HEIGHT` rows, every sprite bit has a pixel of its own,
/// and the sprite's mask at that pixel is exactly the bit.
proof fn lemma_sprite_mask_at(rows: Seq<u8>, x: int, y: int, r0: int, r: int, b: int)
    requires
        rows.len() <= HEIGHT,
        0 <= r0 <= rows.len(),
        0 <= r < rows.len(),
        0 <= b < 8,
    ensures
        sprite_mask_from(rows, x, y, r0, pix(x + b, y + r)) == (r0 <= r && row_bit(rows[r], b)),
    decreases rows.len() - r0,
{
    if r0 < rows.len() {
        lemma_sprite_mask_at(rows, x, y, r0 + 1, r, b);
        let p = pix(x + b, y + r);
        if r0 == r {
            lemma_row_mask_at(rows[r0], x, y + r0, 0, b);
        } else {
            if r0 < r {
                lemma_wrapped_rows_differ(y, r0, r);
            } else {
                lemma_wrapped_rows_differ(y, r, r0);
            }
            lemma_pix_parts(x + b, y + r);
            lemma_row_mask_other_row(rows[r0], x, y + r0, 0, p);
        }
    }
}

/// A pixel a row's mask flips is one of the row's own bit pixels.
proof fn lemma_row_mask_touch(line: u8, x: int, y: int, b0: int, p: int)
    requires
        row_mask_from(line, x, y, b0, p),
    ensures
        exists|bb: int| b0 <= bb < 8 && p == #[trigger] row_pix(x, y, bb),
    decreases 8 - b0,
{
    if 0 <= b0 < 8 {
        if row_bit(line, b0) && p == pix(x + b0, y) {
            assert(b0 <= b0 < 8 && p == row_pix(x, y, b0));
        } else {
            lemma_row_mask_touch(line, x, y, b0 + 1, p);
            let w = choose|bb: int| b0 + 1 <= bb < 8 && p == #[trigger] row_pix(x, y, bb);
            assert(b0 <= w < 8 && p == row_pix(x, y, w));
        }
    }
}

/// A pixel the sprite's mask flips is one of the sprite's own bit pixels.
proof fn lemma_sprite_mask_touch(rows: Seq<u8>, x: int, y: int, r0: int, p: int)
    requires
        sprite_mask_from(rows, x, y, r0, p),
    ensures
        exists|r: int, b: int|
            r0 <= r < rows.len() && 0 <= b < 8 && p == #[trigger] bit_pix(x, y, r, b),
    decreases rows.len() - r0,
{
    if 0 <= r0 < rows.len() {
        if row_mask_from(rows[r0], x, y + r0, 0, p) {
            lemma_row_mask_touch(rows[r0], x, y + r0, 0, p);
            let w = choose|bb: int| 0 <= bb < 8 && p == #[trigger] row_pix(x, y + r0, bb);
            assert(r0 <= r0 < rows.len() && 0 <= w < 8 && p == bit_pix(x, y, r0, w));
        } else {
            lemma_sprite_mask_touch(rows, x, y, r0 + 1, p);
            let (wr, wb) = choose|r: int, b: int|
                r0 + 1 <= r < rows.len() && 0 <= b < 8 && p == #[trigger] bit_pix(x, y, r, b);
            assert(r0 <= wr < rows.len() && 0 <= wb < 8 && p == bit_pix(x, y, wr, wb));
        }
    }
}

/// Drawing the same sprite twice at the same spot restores the display
/// exactly: the second blit XORs each pixel with the same mask again.
pub proof fn lemma_blit_twice(g: Seq<bool>, rows: Seq<u8>, x: int, y: int)
    requires
        g.len() == PIXELS,
    ensures
        spec_blit(spec_blit(g, rows, x, y), rows, x, y) == g,
{
    let g1 = spec_blit(g, rows, x, y);
    lemma_blit_pixel_from(g, rows, x, y, 0, 0);
    assert forall|p: int| 0 <= p < PIXELS implies spec_blit(g1, rows, x, y)[p] == g[p] by {
        lemma_blit_pixel_from(g, rows, x, y, 0, p);
        lemma_blit_pixel_from(g1, rows, x, y, 0, p);
    }
    lemma_blit_pixel_from(g1, rows, x, y, 0, 0);
    assert(spec_blit(g1, rows, x, y) =~= g);
}

/// Sprite coordinates wrap: bit `b` of row `r` lands on the pixel at
/// column `(x + b) mod WIDTH`, row `(y + r) mod HEIGHT`, and XORs it with
/// the bit; a pixel no bit lands on keeps its value. The rows are bounded
/// by the display height so that no two bits share a pixel.
pub proof fn lemma_blit_wraparound(g: Seq<bool>, rows: Seq<u8>, x: int, y: int)
    requires
        g.len() == PIXELS,
        rows.len() <= HEIGHT,
    ensures
        forall|r: int, b: int|
            0 <= r < rows.len() && 0 <= b < 8 ==> spec_blit(g, rows, x, y)[#[trigger] bit_pix(
                x,
                y,
                r,
                b,
            )] == (g[bit_pix(x, y, r, b)] != row_bit(rows[r], b)),
        forall|p: int|
            0 <= p < PIXELS && (forall|r: int, b: int|
                0 <= r < rows.len() && 0 <= b < 8 ==> p != #[trigger] bit_pix(x, y, r, b))
                ==> spec_blit(g, rows, x, y)[p] == g[p],
{
    assert forall|r: int, b: int| 0 <= r < rows.len() && 0 <= b < 8 implies spec_blit(
        g,
        rows,
        x,
        y,
    )[#[trigger] bit_pix(x, y, r, b)] == (g[bit_pix(x, y, r, b)] != row_bit(rows[r], b)) by {
        lemma_pix_parts(x + b, y + r);
        lemma_blit_pixel_from(g, rows, x, y, 0, bit_pix(x, y, r, b));
        lemma_sprite_mask_at(rows, x, y, 0, r, b);
    }
    assert forall|p: int|
        0 <= p < PIXELS && (forall|r: int, b: int|
            0 <= r < rows.len() && 0 <= b < 8 ==> p != #[trigger] bit_pix(x, y, r, b))
        implies spec_blit(g, rows, x, y)[p] == g[p] by {
        lemma_blit_pixel_from(g, rows, x, y, 0, p);
        if sprite_mask_from(rows, x, y, 0, p) {
            lemma_sprite_mask_touch(rows, x, y, 0, p);
            let (wr, wb) = choose|r: int, b: int|
                0 <= r < rows.len() && 0 <= b < 8 && p == #[trigger] bit_pix(x, y, r, b);
            assert(p != bit_pix(x, y, wr, wb));
        }
    }
}

/// Collisions in the tail of one sprite row: some set bit lands on a lit
/// pixel.
proof fn lemma_collide_row_iff(g: Seq<bool>, line: u8, x: int, y: int, b: int)
    requires
        g.len() == PIXELS,
        0 <= b <= 8,
    ensures
        collide_row_from(g, line, x, y, b) == (exists|bb: int|
            b <= bb < 8 && row_bit(line, bb) && g[#[trigger] row_pix(x, y, bb)]),
    decreases 8 - b,
{
    if b < 8 {
        lemma_pix_parts(x + b, y);
        let hit = row_bit(line, b) && g[pix(x + b, y)];
        let g1 = if row_bit(line, b) {
            g.update(pix(x + b, y), !g[pix(x + b, y)])
        } else {
            g
        };
        lemma_collide_row_iff(g1, line, x, y, b + 1);
        assert forall|bb: int| b < bb < 8 implies g1[#[trigger] row_pix(x, y, bb)] == g[row_pix(
            x,
            y,
            bb,
        )] by {
            lemma_pix_col_inj(x, y, b, bb);
            lemma_pix_parts(x + bb, y);
        }
        if collide_row_from(g, line, x, y, b) {
            if hit {
                assert(b <= b < 8 && row_bit(line, b) && g[row_pix(x, y, b)]);
            } else {
                let w = choose|bb: int|
                    b + 1 <= bb < 8 && row_bit(line, bb) && g1[#[trigger] row_pix(x, y, bb)];
                assert(b <= w < 8 && row_bit(line, w) && g[row_pix(x, y, w)]);
            }
        }
        if exists|bb: int| b <= bb < 8 && row_bit(line, bb) && g[#[trigger] row_pix(x, y, bb)] {
            let w = choose|bb: int|
                b <= bb < 8 && row_bit(line, bb) && g[#[trigger] row_pix(x, y, bb)];
            if w == b {
                assert(hit);
            } else {
                assert(b + 1 <= w < 8 && row_bit(line, w) && g1[row_pix(x, y, w)]);
                assert(collide_row_from(g1, line, x, y, b + 1));
            }
        }
    }
}

/// Collisions in sprite rows `r0..`: some set bit lands on a pixel that
/// was lit before the whole drawing began.
proof fn lemma_collide_from_iff(g: Seq<bool>, rows: Seq<u8>, x: int, y: int, r0: int)
    requires
        g.len() == PIXELS,
        0 <= r0 <= rows.len(),
        rows.len() <= HEIGHT,
    ensures
        collide_from(g, rows, x, y, r0) == (exists|r: int, b: int|
            r0 <= r < rows.len() && 0 <= b < 8 && row_bit(rows[r], b) && g[#[trigger] bit_pix(
                x,
                y,
                r,
                b,
            )]),
    decreases rows.len() - r0,
{
    if r0 < rows.len() {
        let line = rows[r0];
        let g1 = blit_row_from(g, line, x, y + r0, 0);
        lemma_blit_row_pixel(g, line, x, y + r0, 0, 0);
        lemma_collide_row_iff(g, line, x, y + r0, 0);
        lemma_collide_from_iff(g1, rows, x, y, r0 + 1);
        assert forall|r: int, b: int| r0 < r < rows.len() && 0 <= b < 8 implies g1[
        #[trigger] bit_pix(x, y, r, b)] == g[bit_pix(x, y, r, b)] by {
            lemma_wrapped_rows_differ(y, r0, r);
            lemma_pix_parts(x + b, y + r);
            lemma_blit_row_pixel(g, line, x, y + r0, 0, pix(x + b, y + r));
            lemma_row_mask_other_row(line, x, y + r0, 0, pix(x + b, y + r));
        }
        if collide_from(g, rows, x, y, r0) {
            if collide_row_from(g, line, x, y + r0, 0) {
                let w = choose|bb: int|
                    0 <= bb < 8 && row_bit(line, bb) && g[#[trigger] row_pix(x, y + r0, bb)];
                assert(r0 <= r0 < rows.len() && 0 <= w < 8 && row_bit(rows[r0], w) && g[bit_pix(
                    x,
                    y,
                    r0,
                    w,
                )]);
            } else {
                let (wr, wb) = choose|r: int, b: int|
                    r0 + 1 <= r < rows.len() && 0 <= b < 8 && row_bit(rows[r], b) && g1[
                        #[trigger] bit_pix(x, y, r, b)];
                assert(r0 <= wr < rows.len() && 0 <= wb < 8 && row_bit(rows[wr], wb) && g[bit_pix(
                    x,
                    y,
                    wr,
                    wb,
                )]);
            }
        }
        if exists|r: int, b: int|
            r0 <= r < rows.len() && 0 <= b < 8 && row_bit(rows[r], b) && g[#[trigger] bit_pix(
                x,
                y,
                r,
                b,
            )] {
            let (wr, wb) = choose|r: int, b: int|
                r0 <= r < rows.len() && 0 <= b < 8 && row_bit(rows[r], b) && g[#[trigger] bit_pix(
                    x,
                    y,
                    r,
                    b,
                )];
            if wr == r0 {
                assert(0 <= wb < 8 && row_bit(line, wb) && g[row_pix(x, y + r0, wb)]);
                assert(collide_row_from(g, line, x, y + r0, 0));
            } else {
                assert(r0 + 1 <= wr < rows.len() && 0 <= wb < 8 && row_bit(rows[wr], wb) && g1[
                    bit_pix(x, y, wr, wb)]);
                assert(collide_from(g1, rows, x, y, r0 + 1));
            }
        }
    }
}

/// A blit reports a collision exactly when some set sprite bit lands on a
/// pixel that was lit before the blit, i.e. exactly when a lit pixel is
/// turned off. The rows are bounded by the display height so that the
/// sprite cannot overlay itself.
pub proof fn lemma_collision_iff(g: Seq<bool>, rows: Seq<u8>, x: int, y: int)
    requires
        g.len() == PIXELS,
        rows.len() <= HEIGHT,
    ensures
        spec_collision(g, rows, x, y) == (exists|r: int, b: int|
            0 <= r < rows.len() && 0 <= b < 8 && row_bit(rows[r], b) && g[#[trigger] bit_pix(
                x,
                y,
                r,
                b,
            )]),
{
    lemma_collide_from_iff(g, rows, x, y, 0);
}

} // verus!
