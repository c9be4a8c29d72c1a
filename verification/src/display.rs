use vstd::prelude::*;
use vstd::string::StringExecFns;
use vstd::arithmetic::div_mod::{
    lemma_add_mod_noop, lemma_fundamental_div_mod_converse_div,
    lemma_fundamental_div_mod_converse_mod, lemma_mod_division_less_than_divisor,
    lemma_mod_sub_multiples_vanish, lemma_small_mod,
};

verus! {

/// One cell of the monochrome framebuffer.
#[derive(Clone, Copy, Debug, PartialEq, Eq, Structural)]
pub enum Pixel {
    Off,
    On,
}

/// A fixed-size grid of binary pixels stored row-major: the cell at
/// `(row, column)` lives at index `row * width + column`.
pub struct Display {
    pub width: u32,
    pub height: u32,
    pub pixels: Vec<Pixel>,
}

/// XOR of one framebuffer cell with one sprite bit.
pub open spec fn flip(p: Pixel) -> Pixel {
    if p == Pixel::On {
        Pixel::Off
    } else {
        Pixel::On
    }
}

/// Bit `7 - c` of sprite byte `b`: sprite rows are drawn most significant
/// bit leftmost.
pub open spec fn sprite_bit(b: u8, c: int) -> bool {
    (b >> ((7 - c) as u8)) & 1 == 1
}

/// Distance walked forward (wrapping modulo `m`) from `base % m` to reach
/// position `pos`, for `0 <= pos < m`.
pub open spec fn wrap_delta(base: u8, pos: int, m: int) -> int {
    let b = (base as int) % m;
    if pos >= b {
        pos - b
    } else {
        pos + m - b
    }
}

/// Whether a draw of sprite `s` at `(x, y)` on a `w` by `h` grid toggles the
/// cell at flat index `idx`, counting only the sprite rows before `rows`,
/// plus the columns before `cols` within row `rows` itself.  Row `r`, column
/// `c` of the sprite lands on the cell `((y + r) % h, (x + c) % w)`, and
/// toggles it exactly when bit `7 - c` of `s[r]` is set.
pub open spec fn draws_at_partial(
    s: Seq<u8>,
    x: u8,
    y: u8,
    w: int,
    h: int,
    idx: int,
    rows: int,
    cols: int,
) -> bool {
    let dr = wrap_delta(y, idx / w, h);
    let dc = wrap_delta(x, idx % w, w);
    (dr < rows || (dr == rows && dc < cols)) && dc < 8 && dr < s.len() && sprite_bit(s[dr], dc)
}

/// Whether a full draw of sprite `s` at `(x, y)` toggles the cell at `idx`.
pub open spec fn draws_at(s: Seq<u8>, x: u8, y: u8, w: int, h: int, idx: int) -> bool {
    draws_at_partial(s, x, y, w, h, idx, s.len() as int, 0)
}

/// The framebuffer after XOR-compositing sprite `s` at `(x, y)`.
pub open spec fn draw_seq(d: Seq<Pixel>, s: Seq<u8>, x: u8, y: u8, w: int, h: int) -> Seq<Pixel> {
    Seq::new(d.len(), |idx: int| if draws_at(s, x, y, w, h, idx) {
        flip(d[idx])
    } else {
        d[idx]
    })
}

/// Whether the draw turns some already-lit cell off: the collision signal.
pub open spec fn draw_collides(d: Seq<Pixel>, s: Seq<u8>, x: u8, y: u8, w: int, h: int) -> bool {
    exists|idx: int|
        0 <= idx < d.len() && draws_at(s, x, y, w, h, idx) && d[idx] == Pixel::On
}

/// The character a host render shows for cell `k` of a `w`-wide grid laid
/// out line by line: each row of `w` cells is followed by a newline, a lit
/// cell shows as a filled square and a clear cell as an open one.
pub open spec fn render_char(pixels: Seq<Pixel>, w: int, k: int) -> char {
    if k % (w + 1) == w {
        '\n'
    } else if pixels[(k / (w + 1)) * w + (k % (w + 1))] == Pixel::On {
        '\u{25FC}'
    } else {
        '\u{25FB}'
    }
}

/// The full textual rendering of a `w` by `h` grid: `h` lines of `w`
/// pixel characters, each line newline-terminated.
pub open spec fn render_spec(pixels: Seq<Pixel>, w: int, h: int) -> Seq<char> {
    Seq::new((h * (w + 1)) as nat, |k: int| render_char(pixels, w, k))
}

/// Walking `delta` cells forward from `base` lands at distance `delta`:
/// the wrap-around inverse of `(base + delta) % m`.
proof fn lemma_wrap_delta_mod(base: u8, delta: int, m: int)
    requires
        0 < m,
        0 <= delta < m,
    ensures
        0 <= (base + delta) % m < m,
        wrap_delta(base, (base + delta) % m, m) == delta,
{
    let b = (base as int) % m;
    lemma_mod_division_less_than_divisor(base as int, m);
    lemma_mod_division_less_than_divisor(base + delta, m);
    lemma_add_mod_noop(base as int, delta, m);
    lemma_small_mod(delta as nat, m as nat);
    if b + delta < m {
        lemma_small_mod((b + delta) as nat, m as nat);
    } else {
        lemma_mod_sub_multiples_vanish(b + delta, m);
        lemma_small_mod((b + delta - m) as nat, m as nat);
    }
}

/// `wrap_delta` really is the inverse of wrapping addition: walking the
/// computed distance forward from `base` lands back on `pos`.
proof fn lemma_wrap_delta_inverse(base: u8, pos: int, m: int)
    requires
        0 < m,
        0 <= pos < m,
    ensures
        0 <= wrap_delta(base, pos, m) < m,
        (base + wrap_delta(base, pos, m)) % m == pos,
{
    let b = (base as int) % m;
    lemma_mod_division_less_than_divisor(base as int, m);
    let dr = wrap_delta(base, pos, m);
    lemma_add_mod_noop(base as int, dr, m);
    lemma_small_mod(dr as nat, m as nat);
    if pos >= b {
        lemma_small_mod(pos as nat, m as nat);
    } else {
        lemma_mod_sub_multiples_vanish(pos + m, m);
        lemma_small_mod(pos as nat, m as nat);
    }
}

/// Two flat indices of the same grid covered by the same sprite row and
/// column distances are the same cell: within one draw, no cell is hit
/// twice.
proof fn lemma_cell_unique(x: u8, y: u8, w: int, h: int, j: int, k: int)
    requires
        0 < w,
        0 < h,
        0 <= j < h * w,
        0 <= k < h * w,
        wrap_delta(y, j / w, h) == wrap_delta(y, k / w, h),
        wrap_delta(x, j % w, w) == wrap_delta(x, k % w, w),
    ensures
        j == k,
{
    assert(j < w * h && k < w * h) by (nonlinear_arith)
        requires
            j < h * w,
            k < h * w,
    ;
    vstd::arithmetic::div_mod::lemma_multiply_divide_lt(j, w, h);
    vstd::arithmetic::div_mod::lemma_multiply_divide_lt(k, w, h);
    vstd::arithmetic::div_mod::lemma_div_pos_is_pos(j, w);
    vstd::arithmetic::div_mod::lemma_div_pos_is_pos(k, w);
    lemma_mod_division_less_than_divisor(j, w);
    lemma_mod_division_less_than_divisor(k, w);
    lemma_wrap_delta_inverse(y, j / w, h);
    lemma_wrap_delta_inverse(y, k / w, h);
    lemma_wrap_delta_inverse(x, j % w, w);
    lemma_wrap_delta_inverse(x, k % w, w);
    vstd::arithmetic::div_mod::lemma_fundamental_div_mod(j, w);
    vstd::arithmetic::div_mod::lemma_fundamental_div_mod(k, w);
}

/// A flat index built from an in-range row and column decomposes back into
/// that row and column.
proof fn lemma_row_col_index(row: int, col: int, w: int, h: int)
    requires
        0 < w,
        0 <= row < h,
        0 <= col < w,
    ensures
        0 <= row * w + col < h * w,
        (row * w + col) / w == row,
        (row * w + col) % w == col,
{
    let idx = row * w + col;
    assert(0 <= idx < h * w) by (nonlinear_arith)
        requires
            0 < w,
            0 <= row < h,
            0 <= col < w,
            idx == row * w + col,
    ;
    lemma_fundamental_div_mod_converse_div(idx, w, row, col);
    lemma_fundamental_div_mod_converse_mod(idx, w, row, col);
}

impl Display {
    /// The grid is well formed when the pixel store matches its dimensions.
    pub open spec fn wf(&self) -> bool {
        self.pixels@.len() == self.width * self.height
    }

    /// Builds a grid of the given dimensions.  `Some(pixels)` supplies the
    /// initial contents; `None` leaves every cell off.
    pub fn new(width: u32, height: u32, pixels: Option<Vec<Pixel>>) -> (d: Display)
        requires
            width * height <= usize::MAX,
            pixels matches Some(p) ==> p@.len() == width * height,
        ensures
            d.wf(),
            d.width == width,
            d.height == height,
            pixels matches Some(p) ==> d.pixels@ == p@,
            pixels is None ==> d.pixels@ == Seq::new((width * height) as nat, |i: int| Pixel::Off),
    {
        match pixels {
            Some(p) => Display { width, height, pixels: p },
            None => {
                let n: usize = (width as usize) * (height as usize);
                let mut p: Vec<Pixel> = Vec::new();
                let mut i: usize = 0;
                while i < n
                    invariant
                        i <= n,
                        p@.len() == i,
                        forall|k: int| 0 <= k < i ==> p@[k] == Pixel::Off,
                    decreases n - i,
                {
                    p.push(Pixel::Off);
                    i = i + 1;
                }
                assert(p@ =~= Seq::new((width * height) as nat, |k: int| Pixel::Off));
                Display { width, height, pixels: p }
            },
        }
    }

    /// The standard framebuffer of the interpreter core: 64 columns by 32
    /// rows, every cell off.
    pub fn new_empty() -> (d: Display)
        ensures
            d.wf(),
            d.width == 64,
            d.height == 32,
            d.pixels@ == Seq::new(2048, |i: int| Pixel::Off),
    {
        Display::new(64, 32, None)
    }

    pub fn width(&self) -> (w: u32)
        ensures
            w == self.width,
    {
        self.width
    }

    pub fn height(&self) -> (h: u32)
        ensures
            h == self.height,
    {
        self.height
    }

    /// Read-back access to the raw cell array for a host renderer.
    pub fn pixels(&self) -> (p: &Vec<Pixel>)
        ensures
            p@ == self.pixels@,
    {
        &self.pixels
    }

    /// The flat index of the cell at `(row, column)`.
    pub fn get_index(&self, row: u32, column: u32) -> (idx: usize)
        requires
            self.wf(),
            row < self.height,
            column < self.width,
        ensures
            idx == row * self.width + column,
            idx < self.pixels@.len(),
    {
        let _cells: usize = self.pixels.len();
        proof {
            lemma_row_col_index(row as int, column as int, self.width as int, self.height as int);
            assert(self.height * self.width == self.width * self.height) by (nonlinear_arith);
        }
        (row as usize) * (self.width as usize) + (column as usize)
    }

    /// Sets every cell to off.
    pub fn cls(&mut self)
        requires
            old(self).wf(),
        ensures
            final(self).wf(),
            final(self).width == old(self).width,
            final(self).height == old(self).height,
            final(self).pixels@ == Seq::new(old(self).pixels@.len(), |i: int| Pixel::Off),
    {
        let n: usize = self.pixels.len();
        let mut i: usize = 0;
        while i < n
            invariant
                i <= n,
                self.pixels@.len() == n,
                self.width == old(self).width,
                self.height == old(self).height,
                forall|k: int| 0 <= k < i ==> self.pixels@[k] == Pixel::Off,
            decreases n - i,
        {
            self.pixels[i] = Pixel::Off;
            i = i + 1;
        }
        assert(self.pixels@ =~= Seq::new(old(self).pixels@.len(), |k: int| Pixel::Off));
    }

    /// XORs the single cell at flat index `i` with an on pixel.
    pub fn toggle_pixel(&mut self, i: usize)
        requires
            old(self).wf(),
            i < old(self).pixels@.len(),
        ensures
            final(self).wf(),
            final(self).width == old(self).width,
            final(self).height == old(self).height,
            final(self).pixels@ == old(self).pixels@.update(i as int, flip(old(self).pixels@[i as int])),
    {
        if self.pixels[i] == Pixel::Off {
            self.pixels[i] = Pixel::On;
        } else {
            self.pixels[i] = Pixel::Off;
        }
    }

    pub fn get_pixel(&self, i: usize) -> (p: Pixel)
        requires
            self.wf(),
            i < self.pixels@.len(),
        ensures
            p == self.pixels@[i as int],
    {
        self.pixels[i]
    }

    /// Renders the grid as text: one newline-terminated line per row, a
    /// filled square for a lit cell and an open square for a clear one.
    pub fn render(&self) -> (out: String)
        requires
            self.wf(),
        ensures
            out@ == render_spec(self.pixels@, self.width as int, self.height as int),
    {
        let ghost w = self.width as int;
        let ghost h = self.height as int;
        proof {
            reveal_strlit("\u{25FC}");
            reveal_strlit("\u{25FB}");
            reveal_strlit("\n");
        }
        let mut out = String::new();
        let mut row: u32 = 0;
        while row < self.height
            invariant
                self.wf(),
                w == self.width as int,
                h == self.height as int,
                row <= self.height,
                out@.len() == row * (w + 1),
                forall|k: int| 0 <= k < out@.len() ==> out@[k] == render_char(self.pixels@, w, k),
                ("\u{25FC}")@ =~= seq!['\u{25FC}'],
                ("\u{25FB}")@ =~= seq!['\u{25FB}'],
                ("\n")@ =~= seq!['\n'],
            decreases self.height - row,
        {
            let mut col: u32 = 0;
            while col < self.width
                invariant
                    self.wf(),
                    w == self.width as int,
                    h == self.height as int,
                    row < self.height,
                    col <= self.width,
                    out@.len() == row * (w + 1) + col,
                    forall|k: int| 0 <= k < out@.len() ==> out@[k] == render_char(self.pixels@, w, k),
                    ("\u{25FC}")@ =~= seq!['\u{25FC}'],
                    ("\u{25FB}")@ =~= seq!['\u{25FB}'],
                    ("\n")@ =~= seq!['\n'],
                decreases self.width - col,
            {
                let idx = self.get_index(row, col);
                proof {
                    let k = row * (w + 1) + col;
                    lemma_fundamental_div_mod_converse_div(k, w + 1, row as int, col as int);
                    lemma_fundamental_div_mod_converse_mod(k, w + 1, row as int, col as int);
                    assert(render_char(self.pixels@, w, k) == (if self.pixels@[idx as int]
                        == Pixel::On {
                        '\u{25FC}'
                    } else {
                        '\u{25FB}'
                    }));
                }
                if self.pixels[idx] == Pixel::On {
                    out.append("\u{25FC}");
                } else {
                    out.append("\u{25FB}");
                }
                col = col + 1;
            }
            proof {
                let k = row * (w + 1) + w;
                lemma_fundamental_div_mod_converse_mod(k, w + 1, row as int, w);
                assert(render_char(self.pixels@, w, k) == '\n');
            }
            out.append("\n");
            proof {
                assert((row + 1) * (w + 1) == row * (w + 1) + w + 1) by (nonlinear_arith);
            }
            row = row + 1;
        }
        proof {
            assert(out@ =~= render_spec(self.pixels@, w, h));
        }
        out
    }

    /// XOR-composites the sprite `bytes` (8 cells wide, one row per byte) at
    /// `(x, y)`, wrapping both coordinates around the grid edges.  Returns
    /// true exactly when some already-lit cell was turned off.
    pub fn draw_bytes(&mut self, x: u8, y: u8, bytes: &Vec<u8>) -> (collision: bool)
        requires
            old(self).wf(),
            old(self).width >= 8,
            bytes@.len() <= old(self).height,
        ensures
            final(self).wf(),
            final(self).width == old(self).width,
            final(self).height == old(self).height,
            final(self).pixels@ == draw_seq(
                old(self).pixels@,
                bytes@,
                x,
                y,
                old(self).width as int,
                old(self).height as int,
            ),
            collision == draw_collides(
                old(self).pixels@,
                bytes@,
                x,
                y,
                old(self).width as int,
                old(self).height as int,
            ),
    {
        let ghost d0 = self.pixels@;
        let ghost w = self.width as int;
        let ghost h = self.height as int;
        let ghost s = bytes@;
        let n: usize = self.pixels.len();
        let wu = self.width as usize;
        let hu = self.height as usize;
        let mut collision = false;
        let mut r: usize = 0;
        while r < bytes.len()
            invariant
                old(self).wf(),
                old(self).width >= 8,
                s.len() <= h,
                r <= s.len(),
                s == bytes@,
                d0 == old(self).pixels@,
                w == old(self).width as int,
                h == old(self).height as int,
                wu == w,
                hu == h,
                n == d0.len(),
                self.width == old(self).width,
                self.height == old(self).height,
                self.pixels@.len() == d0.len(),
                forall|idx: int| 0 <= idx < d0.len() ==> self.pixels@[idx] == (
                    if draws_at_partial(s, x, y, w, h, idx, r as int, 0) {
                        flip(d0[idx])
                    } else {
                        d0[idx]
                    }
                ),
                collision == exists|idx: int|
                    0 <= idx < d0.len() && draws_at_partial(s, x, y, w, h, idx, r as int, 0)
                        && d0[idx] == Pixel::On,
            decreases s.len() - r,
        {
            let byte = bytes[r];
            proof {
                assert(8 * h <= w * h) by (nonlinear_arith)
                    requires
                        8 <= w,
                        0 <= h,
                ;
            }
            let row: usize = (y as usize + r) % hu;
            let mut c: usize = 0;
            while c < 8
                invariant
                    old(self).wf(),
                    old(self).width >= 8,
                    s.len() <= h,
                    r < s.len(),
                    c <= 8,
                    s == bytes@,
                    byte == s[r as int],
                    d0 == old(self).pixels@,
                    w == old(self).width as int,
                    h == old(self).height as int,
                    wu == w,
                    hu == h,
                    n == d0.len(),
                    row == (y + r) % h,
                    self.width == old(self).width,
                    self.height == old(self).height,
                    self.pixels@.len() == d0.len(),
                    forall|idx: int| 0 <= idx < d0.len() ==> self.pixels@[idx] == (
                        if draws_at_partial(s, x, y, w, h, idx, r as int, c as int) {
                            flip(d0[idx])
                        } else {
                            d0[idx]
                        }
                    ),
                    collision == exists|idx: int|
                        0 <= idx < d0.len() && draws_at_partial(s, x, y, w, h, idx, r as int, c as int)
                            && d0[idx] == Pixel::On,
                decreases 8 - c,
            {
                let col: usize = (x as usize + c) % wu;
                proof {
                    lemma_wrap_delta_mod(y, r as int, h);
                    lemma_wrap_delta_mod(x, c as int, w);
                    lemma_row_col_index(row as int, col as int, w, h);
                    assert(h * w == w * h) by (nonlinear_arith);
                }
                let idx: usize = row * wu + col;
                let bit = (byte >> ((7 - c) as u8)) & 1 == 1;
                let ghost prev = self.pixels@;
                if bit {
                    if self.pixels[idx] == Pixel::On {
                        collision = true;
                        self.pixels[idx] = Pixel::Off;
                    } else {
                        self.pixels[idx] = Pixel::On;
                    }
                }
                proof {
                    assert(w * h == h * w) by (nonlinear_arith);
                    assert forall|j: int|
                        0 <= j < d0.len() && j != idx implies draws_at_partial(
                        s,
                        x,
                        y,
                        w,
                        h,
                        j,
                        r as int,
                        c + 1,
                    ) == draws_at_partial(s, x, y, w, h, j, r as int, c as int) by {
                        if wrap_delta(y, j / w, h) == r && wrap_delta(x, j % w, w) == c {
                            lemma_cell_unique(x, y, w, h, j, idx as int);
                        }
                    }
                    assert(!draws_at_partial(s, x, y, w, h, idx as int, r as int, c as int));
                    assert(prev[idx as int] == d0[idx as int]);
                    assert(draws_at_partial(s, x, y, w, h, idx as int, r as int, c + 1) == bit);
                    assert forall|j: int| 0 <= j < d0.len() implies self.pixels@[j] == (
                        if draws_at_partial(s, x, y, w, h, j, r as int, c + 1) {
                            flip(d0[j])
                        } else {
                            d0[j]
                        }
                    ) by {
                        if j != idx {
                            assert(self.pixels@[j] == prev[j]);
                        }
                    }
                    if bit && d0[idx as int] == Pixel::On {
                        assert(draws_at_partial(s, x, y, w, h, idx as int, r as int, c + 1)
                            && d0[idx as int] == Pixel::On);
                    }
                }
                c = c + 1;
            }
            proof {
                assert forall|j: int| 0 <= j < d0.len() implies
                    draws_at_partial(s, x, y, w, h, j, r + 1, 0)
                        == draws_at_partial(s, x, y, w, h, j, r as int, 8) by {}
            }
            r = r + 1;
        }
        collision
    }
}


/// Drawing toggles exactly the wrapped target cell: sprite row `r`, column
/// `c` lands on the cell at `((y + r) % h, (x + c) % w)`, so coordinates
/// past an edge wrap around rather than going out of bounds.
pub proof fn lemma_draw_hits_wrapped_cell(
    d: Seq<Pixel>,
    s: Seq<u8>,
    x: u8,
    y: u8,
    w: int,
    h: int,
    r: int,
    c: int,
)
    requires
        w >= 8,
        0 < h,
        s.len() <= h,
        d.len() == w * h,
        0 <= r < s.len(),
        0 <= c < 8,
    ensures
        0 <= ((y + r) % h) * w + ((x + c) % w) < d.len(),
        draw_seq(d, s, x, y, w, h)[((y + r) % h) * w + ((x + c) % w)] == (if sprite_bit(s[r], c) {
            flip(d[((y + r) % h) * w + ((x + c) % w)])
        } else {
            d[((y + r) % h) * w + ((x + c) % w)]
        }),
{
    lemma_wrap_delta_mod(y, r, h);
    lemma_wrap_delta_mod(x, c, w);
    let row = (y + r) % h;
    let col = (x + c) % w;
    lemma_row_col_index(row, col, w, h);
    assert(h * w == w * h) by (nonlinear_arith);
    let idx = row * w + col;
    if sprite_bit(s[r], c) {
        assert(draws_at(s, x, y, w, h, idx));
    } else {
        assert(!draws_at(s, x, y, w, h, idx));
    }
}

/// Sprite drawing is an involution: drawing the same sprite at the same
/// position twice restores the framebuffer exactly, and the second draw
/// reports a collision precisely where the first draw lit a cell that had
/// been off.
pub proof fn lemma_draw_twice_restores(d: Seq<Pixel>, s: Seq<u8>, x: u8, y: u8, w: int, h: int)
    requires
        w >= 8,
        0 < h,
        s.len() <= h,
    ensures
        draw_seq(draw_seq(d, s, x, y, w, h), s, x, y, w, h) == d,
        draw_collides(draw_seq(d, s, x, y, w, h), s, x, y, w, h) == exists|idx: int|
            0 <= idx < d.len() && draws_at(s, x, y, w, h, idx) && d[idx] == Pixel::Off,
{
    let d1 = draw_seq(d, s, x, y, w, h);
    let d2 = draw_seq(d1, s, x, y, w, h);
    assert forall|idx: int| 0 <= idx < d.len() implies d2[idx] == d[idx] by {
        if draws_at(s, x, y, w, h, idx) {
            assert(d2[idx] == flip(flip(d[idx])));
        }
    }
    assert(d2 =~= d);
    if draw_collides(d1, s, x, y, w, h) {
        let idx = choose|idx: int|
            0 <= idx < d1.len() && draws_at(s, x, y, w, h, idx) && d1[idx] == Pixel::On;
        assert(d[idx] == Pixel::Off);
        assert(0 <= idx < d.len() && draws_at(s, x, y, w, h, idx) && d[idx] == Pixel::Off);
    }
    if exists|idx: int| 0 <= idx < d.len() && draws_at(s, x, y, w, h, idx) && d[idx] == Pixel::Off {
        let idx = choose|idx: int|
            0 <= idx < d.len() && draws_at(s, x, y, w, h, idx) && d[idx] == Pixel::Off;
        assert(d1[idx] == Pixel::On);
        assert(0 <= idx < d1.len() && draws_at(s, x, y, w, h, idx) && d1[idx] == Pixel::On);
    }
}

} // verus!
