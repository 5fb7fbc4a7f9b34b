use vstd::prelude::*;

verus! {

/// Number of columns of the display.
pub const COLS: usize = 64;

/// Number of rows of the display.
pub const ROWS: usize = 32;

/// The pixels of a display by row and column: `g[y][x]` is `true` for a
/// pixel that is set.
pub type Grid = Seq<Seq<bool>>;

/// The grid has the size of the display.
pub open spec fn shaped(g: Grid) -> bool {
    g.len() == ROWS && forall|y: int| 0 <= y < ROWS ==> (#[trigger] g[y]).len() == COLS
}

/// The display with no pixel set.
pub open spec fn blank() -> Grid {
    Seq::new(ROWS as nat, |y: int| Seq::new(COLS as nat, |x: int| false))
}

/// Whether column `c` of the sprite row `b` is set. A row has eight
/// columns, the most significant bit first.
pub open spec fn lit(b: u8, c: int) -> bool {
    0 <= c < 8 && b & (0x80u8 >> (c as u8)) != 0
}

/// The pixel at column `x` and row `y`, both taken modulo the size of the
/// display.
pub open spec fn pixel(g: Grid, x: int, y: int) -> bool {
    g[y % (ROWS as int)][x % (COLS as int)]
}

/// The grid after `v` is combined by exclusive or into the pixel at column
/// `x` and row `y`, both taken modulo the size of the display.
pub open spec fn pixel_xor(g: Grid, x: int, y: int, v: bool) -> Grid {
    let px = x % (COLS as int);
    let py = y % (ROWS as int);
    g.update(py, g[py].update(px, g[py][px] != v))
}

/// The grid after the first `n` columns of the sprite row `b` are drawn on
/// row `y`, the first column at `x`: each pixel under a set column flips.
pub open spec fn row_xor_upto(g: Grid, x: int, y: int, b: u8, n: int) -> Grid {
    Seq::new(
        ROWS as nat,
        |py: int|
            Seq::new(
                COLS as nat,
                |px: int|
                    g[py][px] != (py == y % (ROWS as int) && (px - x) % (COLS as int) < n && lit(
                        b,
                        (px - x) % (COLS as int),
                    )),
            ),
    )
}

/// The grid after the sprite row `b` is drawn on row `y`, its first column
/// at `x`.
pub open spec fn row_xor(g: Grid, x: int, y: int, b: u8) -> Grid {
    row_xor_upto(g, x, y, b, 8)
}

/// Whether one of the first `n` columns of the sprite row `b`, drawn on row
/// `y` from column `x`, unsets a pixel that is set in `g`.
pub open spec fn row_hits_upto(g: Grid, x: int, y: int, b: u8, n: int) -> bool {
    exists|c: int| 0 <= c < n && c < 8 && lit(b, c) && #[trigger] pixel(g, x + c, y)
}

/// Whether the sprite row `b`, drawn on row `y` from column `x`, unsets a
/// pixel that is set in `g`.
pub open spec fn row_hits(g: Grid, x: int, y: int, b: u8) -> bool {
    row_hits_upto(g, x, y, b, 8)
}

/// The grid after the sprite `bytes` is drawn at (`x`, `y`): its rows are
/// drawn one after the other on the rows `y`, `y + 1`, ...
pub open spec fn draw(g: Grid, x: int, y: int, bytes: Seq<u8>) -> Grid
    decreases bytes.len(),
{
    if bytes.len() == 0 {
        g
    } else {
        row_xor(draw(g, x, y, bytes.drop_last()), x, y + bytes.len() - 1, bytes.last())
    }
}

/// Whether drawing the sprite `bytes` at (`x`, `y`) unsets, at any of its
/// rows, a pixel that is set when that row is drawn.
pub open spec fn collides(g: Grid, x: int, y: int, bytes: Seq<u8>) -> bool
    decreases bytes.len(),
{
    if bytes.len() == 0 {
        false
    } else {
        collides(g, x, y, bytes.drop_last()) || row_hits(
            draw(g, x, y, bytes.drop_last()),
            x,
            y + bytes.len() - 1,
            bytes.last(),
        )
    }
}

/// A display that sprites are drawn on by exclusive or.
pub trait Scr {
    /// The pixels of the display.
    spec fn grid(&self) -> Grid;

    /// Combines `v` by exclusive or into the pixel at (`x`, `y`), the
    /// coordinates wrapping around. Returns `true` if the pixel was set and
    /// is now unset.
    fn xor(&mut self, x: usize, y: usize, v: bool) -> (hit: bool)
        ensures
            final(self).grid() == pixel_xor(old(self).grid(), x as int, y as int, v),
            hit == (v && pixel(old(self).grid(), x as int, y as int)),
            shaped(final(self).grid()),
    ;

    /// Draws the sprite `bytes`, one byte for each row and the most
    /// significant bit first, with its first pixel at (`x`, `y`). Every
    /// pixel wraps around on its own. Returns `true` if any pixel was set
    /// and became unset.
    fn xor_bytes(&mut self, x: usize, y: usize, bytes: &[u8]) -> (hit: bool)
        ensures
            final(self).grid() == draw(old(self).grid(), x as int, y as int, bytes@),
            hit == collides(old(self).grid(), x as int, y as int, bytes@),
            shaped(final(self).grid()),
    ;

    /// The pixel at (`x`, `y`), the coordinates wrapping around.
    fn get(&self, x: usize, y: usize) -> (on: bool)
        ensures
            on == pixel(self.grid(), x as int, y as int),
    ;

    /// Unsets every pixel.
    fn clear(&mut self)
        ensures
            final(self).grid() == blank(),
    ;
}

/// The bit of `r | (0x80 >> i)` at column `c`.
proof fn lemma_set_column(r: u8, i: u8, c: u8)
    by (bit_vector)
    requires
        i < 8,
        c < 8,
    ensures
        ((r | (0x80u8 >> i)) & (0x80u8 >> c) != 0) == ((r & (0x80u8 >> c) != 0) || c == i),
        0u8 & (0x80u8 >> c) == 0,
{
}

/// The bit of `a ^ b` at column `c`.
proof fn lemma_xor_column(a: u8, b: u8, c: u8)
    by (bit_vector)
    requires
        c < 8,
    ensures
        ((a ^ b) & (0x80u8 >> c) != 0) == ((a & (0x80u8 >> c) != 0) != (b & (0x80u8 >> c) != 0)),
{
}

/// A byte is nonzero exactly when one of its eight columns is set.
proof fn lemma_some_column(m: u8)
    by (bit_vector)
    ensures
        (m != 0) == (m & (0x80u8 >> 0u8) != 0 || m & (0x80u8 >> 1u8) != 0 || m & (0x80u8 >> 2u8)
            != 0 || m & (0x80u8 >> 3u8) != 0 || m & (0x80u8 >> 4u8) != 0 || m & (0x80u8 >> 5u8)
            != 0 || m & (0x80u8 >> 6u8) != 0 || m & (0x80u8 >> 7u8) != 0),
{
}

/// The bit of `a & !b` at column `c`.
proof fn lemma_and_not_column(a: u8, b: u8, c: u8)
    by (bit_vector)
    requires
        c < 8,
    ensures
        ((a & !b) & (0x80u8 >> c) != 0) == ((a & (0x80u8 >> c) != 0) && !(b & (0x80u8 >> c) != 0)),
{
}

/// The eight columns of a sprite row, the most significant bit first.
pub fn bools_from_byte(v: u8) -> (b: [bool; 8])
    ensures
        forall|c: int| 0 <= c < 8 ==> b[c] == lit(v, c),
{
    let mut b = [false;8];
    let mut x: u8 = 0;
    while x < 8
        invariant
            x <= 8,
            forall|c: int| 0 <= c < x ==> b[c] == lit(v, c),
        decreases 8 - x,
    {
        b[x as usize] = v & (0x80u8 >> x) != 0;
        x += 1;
    }
    b
}

/// The sprite row whose eight columns are the first eight of `v`.
pub fn byte_from_bools(v: &[bool]) -> (r: u8)
    requires
        v@.len() >= 8,
    ensures
        forall|c: int| 0 <= c < 8 ==> lit(r, c) == v@[c],
{
    let mut r = 0u8;
    let mut i: u8 = 0;
    proof {
        assert forall|c: int| 0 <= c < 8 implies !lit(r, c) by {
            lemma_set_column(r, 0, c as u8);
        }
    }
    while i < 8
        invariant
            i <= 8,
            v@.len() >= 8,
            forall|c: int| 0 <= c < i ==> lit(r, c) == v@[c],
            forall|c: int| i <= c < 8 ==> !lit(r, c),
        decreases 8 - i,
    {
        let ghost before = r;
        if v[i as usize] {
            r |= 0x80u8 >> i;
        }
        proof {
            assert forall|c: int| 0 <= c < 8 implies lit(r, c) == (lit(before, c) || (c == i
                && v@[i as int])) by {
                lemma_set_column(before, i, c as u8);
            }
        }
        i += 1;
    }
    r
}

/// Drawing a sprite row column by column: drawing column `n` after the
/// first `n` columns gives the first `n + 1`, and the pixel under column
/// `n` is until then as it was.
#[verifier::rlimit(60)]
pub proof fn lemma_row_step(g: Grid, x: int, y: int, b: u8, n: int)
    requires
        shaped(g),
        0 <= n < 8,
    ensures
        pixel_xor(row_xor_upto(g, x, y, b, n), x + n, y, lit(b, n)) == row_xor_upto(
            g,
            x,
            y,
            b,
            n + 1,
        ),
        pixel(row_xor_upto(g, x, y, b, n), x + n, y) == pixel(g, x + n, y),
        row_hits_upto(g, x, y, b, n + 1) == (row_hits_upto(g, x, y, b, n) || (lit(b, n) && pixel(
            g,
            x + n,
            y,
        ))),
        row_xor_upto(g, x, y, b, 0) == g,
        !row_hits_upto(g, x, y, b, 0),
        shaped(row_xor_upto(g, x, y, b, n)),
        shaped(row_xor_upto(g, x, y, b, n + 1)),
{
    let cur = row_xor_upto(g, x, y, b, n);
    let px = (x + n) % (COLS as int);
    assert((px - x) % (COLS as int) == n);
    assert(pixel_xor(cur, x + n, y, lit(b, n)) =~~= row_xor_upto(g, x, y, b, n + 1));
    assert(row_xor_upto(g, x, y, b, 0) =~~= g);
    if row_hits_upto(g, x, y, b, n + 1) {
        let c = choose|c: int| 0 <= c < n + 1 && c < 8 && lit(b, c) && #[trigger] pixel(g, x + c, y);
        if c < n {
            assert(row_hits_upto(g, x, y, b, n));
        }
    }
    if row_hits_upto(g, x, y, b, n) {
        let c = choose|c: int| 0 <= c < n && c < 8 && lit(b, c) && #[trigger] pixel(g, x + c, y);
        assert(pixel(g, x + c, y));
    }
    if lit(b, n) && pixel(g, x + n, y) {
        assert(row_hits_upto(g, x, y, b, n + 1));
    }
}

/// Column `c` of row `r` of the sprite is set.
pub open spec fn sprite_lit(bytes: Seq<u8>, r: int, c: int) -> bool {
    0 <= r < bytes.len() && lit(bytes[r], c)
}

/// Every pixel of `g` that a set pixel of the sprite lands on, when the
/// sprite is drawn at (`x`, `y`), is unset.
pub open spec fn clear_under(g: Grid, x: int, y: int, bytes: Seq<u8>) -> bool {
    forall|r: int, c: int| #[trigger] sprite_lit(bytes, r, c) ==> !pixel(g, x + c, y + r)
}

/// A drawn sprite has the size of the display.
pub proof fn lemma_draw_shaped(g: Grid, x: int, y: int, bytes: Seq<u8>)
    requires
        shaped(g),
    ensures
        shaped(draw(g, x, y, bytes)),
    decreases bytes.len(),
{
    if bytes.len() > 0 {
        lemma_draw_shaped(g, x, y, bytes.drop_last());
    }
}

/// The pixel under column `c` of a drawn sprite row flips if the column is
/// set and stays if it is not; a row with no column set changes nothing.
proof fn lemma_row_pixel(g: Grid, x: int, y: int, b: u8, c: int)
    requires
        shaped(g),
        0 <= c < 8,
    ensures
        pixel(row_xor(g, x, y, b), x + c, y) == (pixel(g, x + c, y) != lit(b, c)),
        (forall|k: int| 0 <= k < 8 ==> !lit(b, k)) ==> row_xor(g, x, y, b) == g,
{
    let px = (x + c) % (COLS as int);
    assert((px - x) % (COLS as int) == c);
    if forall|k: int| 0 <= k < 8 ==> !lit(b, k) {
        assert(row_xor(g, x, y, b) =~~= g);
    }
}

/// Two sprite rows can be drawn in either order.
proof fn lemma_rows_commute(g: Grid, x1: int, y1: int, b1: u8, x2: int, y2: int, b2: u8)
    requires
        shaped(g),
    ensures
        row_xor(row_xor(g, x1, y1, b1), x2, y2, b2) == row_xor(row_xor(g, x2, y2, b2), x1, y1, b1),
{
    assert(row_xor(row_xor(g, x1, y1, b1), x2, y2, b2) =~~= row_xor(
        row_xor(g, x2, y2, b2),
        x1,
        y1,
        b1,
    ));
}

/// A sprite row drawn twice leaves the grid as it was.
proof fn lemma_row_twice(g: Grid, x: int, y: int, b: u8)
    requires
        shaped(g),
    ensures
        row_xor(row_xor(g, x, y, b), x, y, b) == g,
{
    assert(row_xor(row_xor(g, x, y, b), x, y, b) =~~= g);
}

/// A sprite row can be drawn before or after a sprite.
#[verifier::rlimit(60)]
proof fn lemma_draw_commutes(g: Grid, x: int, y: int, bytes: Seq<u8>, x1: int, y1: int, b1: u8)
    requires
        shaped(g),
    ensures
        draw(row_xor(g, x1, y1, b1), x, y, bytes) == row_xor(draw(g, x, y, bytes), x1, y1, b1),
    decreases bytes.len(),
{
    if bytes.len() > 0 {
        let init = bytes.drop_last();
        let ry = y + bytes.len() - 1;
        lemma_draw_commutes(g, x, y, init, x1, y1, b1);
        lemma_draw_shaped(g, x, y, init);
        lemma_rows_commute(draw(g, x, y, init), x1, y1, b1, x, ry, bytes.last());
    }
}

/// Drawing the same sprite twice at the same place gives the display back
/// as it was before the first draw.
#[verifier::rlimit(60)]
pub proof fn lemma_draw_twice_restores(g: Grid, x: int, y: int, bytes: Seq<u8>)
    requires
        shaped(g),
    ensures
        draw(draw(g, x, y, bytes), x, y, bytes) == g,
    decreases bytes.len(),
{
    if bytes.len() > 0 {
        let init = bytes.drop_last();
        let ry = y + bytes.len() - 1;
        let b = bytes.last();
        let once = draw(g, x, y, init);
        lemma_draw_shaped(g, x, y, init);
        lemma_draw_commutes(once, x, y, init, x, ry, b);
        lemma_draw_twice_restores(g, x, y, init);
        lemma_row_twice(g, x, ry, b);
    }
}

/// If drawing a sprite leaves unset every pixel under its set pixels, the
/// draw unset one of them: it reports a collision.
#[verifier::rlimit(60)]
proof fn lemma_collides_when_cleared(h: Grid, x: int, y: int, bytes: Seq<u8>)
    requires
        shaped(h),
        exists|r: int, c: int| sprite_lit(bytes, r, c),
        clear_under(draw(h, x, y, bytes), x, y, bytes),
    ensures
        collides(h, x, y, bytes),
    decreases bytes.len(),
{
    let (r0, c0) = choose|r: int, c: int| sprite_lit(bytes, r, c);
    let init = bytes.drop_last();
    let ry = y + bytes.len() - 1;
    let b = bytes.last();
    let mid = draw(h, x, y, init);
    lemma_draw_shaped(h, x, y, init);
    if exists|k: int| 0 <= k < 8 && lit(b, k) {
        let k = choose|k: int| 0 <= k < 8 && lit(b, k);
        lemma_row_pixel(mid, x, ry, b, k);
        assert(sprite_lit(bytes, bytes.len() - 1, k));
        assert(pixel(mid, x + k, ry));
        assert(row_hits(mid, x, ry, b));
    } else {
        lemma_row_pixel(mid, x, ry, b, 0);
        assert(draw(h, x, y, bytes) == mid);
        assert(r0 < bytes.len() - 1);
        assert(sprite_lit(init, r0, c0));
        assert forall|r: int, c: int| #[trigger] sprite_lit(init, r, c) implies !pixel(
            mid,
            x + c,
            y + r,
        ) by {
            assert(sprite_lit(bytes, r, c));
        }
        lemma_collides_when_cleared(h, x, y, init);
    }
}

/// Drawing the same sprite twice at the same place, on pixels that were
/// unset, unsets every pixel that the first draw set, and the second draw
/// reports a collision. The sprite must have a pixel set: one of zeros
/// touches nothing and collides with nothing.
pub proof fn lemma_draw_twice_collides(g: Grid, x: int, y: int, bytes: Seq<u8>)
    requires
        shaped(g),
        exists|r: int, c: int| sprite_lit(bytes, r, c),
        clear_under(g, x, y, bytes),
    ensures
        collides(draw(g, x, y, bytes), x, y, bytes),
        clear_under(draw(draw(g, x, y, bytes), x, y, bytes), x, y, bytes),
{
    lemma_draw_twice_restores(g, x, y, bytes);
    lemma_draw_shaped(g, x, y, bytes);
    lemma_collides_when_cleared(draw(g, x, y, bytes), x, y, bytes);
}

/// A sprite row lands on the row that its coordinate names modulo the
/// height of the display.
#[verifier::rlimit(60)]
proof fn lemma_same_row(g: Grid, x: int, row: int, y: int, b: u8)
    requires
        shaped(g),
        row == y % (ROWS as int),
    ensures
        row_xor(g, x, row, b) == row_xor(g, x, y, b),
        row_hits(g, x, row, b) == row_hits(g, x, y, b),
{
    assert(row_xor(g, x, row, b) =~~= row_xor(g, x, y, b));
    if row_hits(g, x, row, b) {
        let c = choose|c: int| 0 <= c < 8 && c < 8 && lit(b, c) && #[trigger] pixel(g, x + c, row);
        assert(pixel(g, x + c, y));
    }
    if row_hits(g, x, y, b) {
        let c = choose|c: int| 0 <= c < 8 && c < 8 && lit(b, c) && #[trigger] pixel(g, x + c, y);
        assert(pixel(g, x + c, row));
    }
}

/// Drawing one more row of a sprite: the rows before it are drawn first,
/// then row `n` on the display row `y + n`.
pub proof fn lemma_draw_next(g: Grid, x: int, y: int, bytes: Seq<u8>, n: int)
    requires
        0 <= n < bytes.len(),
    ensures
        draw(g, x, y, bytes.take(n + 1)) == row_xor(
            draw(g, x, y, bytes.take(n)),
            x,
            y + n,
            bytes[n],
        ),
        collides(g, x, y, bytes.take(n + 1)) == (collides(g, x, y, bytes.take(n)) || row_hits(
            draw(g, x, y, bytes.take(n)),
            x,
            y + n,
            bytes[n],
        )),
        bytes.take(bytes.len() as int) == bytes,
        draw(g, x, y, bytes.take(0)) == g,
        !collides(g, x, y, bytes.take(0)),
{
    let next = bytes.take(n + 1);
    assert(next.drop_last() == bytes.take(n));
    assert(next.last() == bytes[n]);
    assert(bytes.take(bytes.len() as int) == bytes);
}

/// The display row of a sprite row can be found from the remainders of
/// the sprite's row and of the row's number.
proof fn lemma_row_index(y: int, n: int)
    requires
        0 <= y,
        0 <= n,
    ensures
        ((y % 32) + (n % 32)) % 32 == (y + n) % 32,
{
}

/// `cur` and `hit` are what drawing the first `n` rows of the sprite on
/// `g` gives.
spec fn drawn_rows(
    cur: Grid,
    hit: bool,
    g: Grid,
    x: int,
    y: int,
    bytes: Seq<u8>,
    n: int,
) -> bool {
    cur == draw(g, x, y, bytes.take(n)) && hit == collides(g, x, y, bytes.take(n))
}

/// Drawing row `n` of a sprite after its first `n` rows gives its first
/// `n + 1` rows; all rows are the sprite.
proof fn lemma_drawn_rows(
    cur: Grid,
    hit: bool,
    g: Grid,
    x: int,
    y: int,
    bytes: Seq<u8>,
    n: int,
    row: int,
)
    requires
        shaped(cur),
        0 <= n < bytes.len(),
        drawn_rows(cur, hit, g, x, y, bytes, n),
        row == (y + n) % (ROWS as int),
    ensures
        drawn_rows(
            row_xor(cur, x, row, bytes[n]),
            hit || row_hits(cur, x, row, bytes[n]),
            g,
            x,
            y,
            bytes,
            n + 1,
        ),
{
    lemma_same_row(cur, x, row, y + n, bytes[n]);
    lemma_draw_next(g, x, y, bytes, n);
}

/// No row drawn leaves the grid as it is, and all rows drawn are the
/// sprite drawn.
proof fn lemma_drawn_rows_ends(cur: Grid, hit: bool, g: Grid, x: int, y: int, bytes: Seq<u8>)
    ensures
        drawn_rows(g, false, g, x, y, bytes, 0),
        drawn_rows(cur, hit, g, x, y, bytes, bytes.len() as int) ==> cur == draw(g, x, y, bytes)
            && hit == collides(g, x, y, bytes),
{
    assert(bytes.take(bytes.len() as int) == bytes);
}

/// A display held as one `bool` for each pixel.
pub struct Screen {
    pixels: [[bool; COLS]; ROWS],
}

impl Screen {
    /// The grid of a display of every value has the size of the display.
    pub proof fn lemma_shaped(&self)
        ensures
            shaped(self.grid()),
    {
    }

    /// A display with no pixel set.
    pub fn new() -> (scr: Self)
        ensures
            scr.grid() == blank(),
    {
        let scr = Screen { pixels: [[false; COLS]; ROWS] };
        assert(scr.grid() =~~= blank());
        scr
    }

    /// Draws the sprite row `b` on row `row`, its first column at `x`:
    /// reads the eight pixels under it as a byte, combines the two and
    /// writes the eight pixels back.
    #[verifier::rlimit(60)]
    fn xor_row(&mut self, x: usize, row: usize, b: u8) -> (hit: bool)
        requires
            row < ROWS,
        ensures
            final(self).grid() == row_xor(old(self).grid(), x as int, row as int, b),
            hit == row_hits(old(self).grid(), x as int, row as int, b),
    {
        let x0 = x % COLS;
        let ghost gr = self.grid();
        let ghost ry = row as int;
        let mut window = [false;8];
        let mut c: usize = 0;
        while c < 8
            invariant
                c <= 8,
                row < ROWS,
                x0 == x % COLS,
                ry == row,
                self.grid() == gr,
                forall|k: int| 0 <= k < c ==> window[k] == pixel(gr, x + k, ry),
            decreases 8 - c,
        {
            window[c] = self.pixels[row][(x0 + c) % COLS];
            c += 1;
        }
        let pix_byte = byte_from_bools(&window);
        let xored = pix_byte ^ b;
        let bits = bools_from_byte(xored);
        proof {
            assert forall|k: int| 0 <= k < 8 implies bits@[k] == (pixel(gr, x + k, ry) != lit(
                b,
                k,
            )) by {
                lemma_xor_column(pix_byte, b, k as u8);
                assert(lit(xored, k) == (lit(pix_byte, k) != lit(b, k)));
                assert(lit(pix_byte, k) == window@[k]);
                assert(bits@[k] == lit(xored, k));
            }
            lemma_row_step(gr, x as int, ry, b, 0);
        }
        let mut c: usize = 0;
        while c < 8
            invariant
                c <= 8,
                row < ROWS,
                x0 == x % COLS,
                ry == row,
                shaped(gr),
                self.grid() == row_xor_upto(gr, x as int, ry, b, c as int),
                forall|k: int| 0 <= k < 8 ==> bits@[k] == (pixel(gr, x + k, ry) != lit(b, k)),
            decreases 8 - c,
        {
            let ghost cur = self.grid();
            let col = (x0 + c) % COLS;
            self.pixels[row][col] = bits[c];
            proof {
                assert(col == (x + c) % (COLS as int));
                let flipped = cur.update(
                    row as int,
                    cur[row as int].update(col as int, bits@[c as int]),
                );
                assert(self.grid() == flipped) by {
                    assert(self.grid() =~~= flipped);
                }
                lemma_row_step(gr, x as int, ry, b, c as int);
                assert(bits@[c as int] == (pixel(cur, x + c, ry) != lit(b, c as int)));
                assert(flipped == pixel_xor(cur, x + c, ry, lit(b, c as int)));
            }
            c += 1;
        }
        let lost = pix_byte & !xored;
        proof {
            lemma_some_column(lost);
            assert forall|k: int| 0 <= k < 8 implies lit(lost, k) == (lit(b, k) && pixel(
                gr,
                x + k,
                ry,
            )) by {
                lemma_and_not_column(pix_byte, xored, k as u8);
                lemma_xor_column(pix_byte, b, k as u8);
                assert(lit(lost, k) == (lit(pix_byte, k) && !lit(xored, k)));
                assert(lit(xored, k) == (lit(pix_byte, k) != lit(b, k)));
                assert(lit(pix_byte, k) == window@[k]);
            }
            assert((lost != 0) == row_hits(gr, x as int, ry, b)) by {
                if lost != 0 {
                    let k: int = if lit(lost, 0) {
                        0
                    } else if lit(lost, 1) {
                        1
                    } else if lit(lost, 2) {
                        2
                    } else if lit(lost, 3) {
                        3
                    } else if lit(lost, 4) {
                        4
                    } else if lit(lost, 5) {
                        5
                    } else if lit(lost, 6) {
                        6
                    } else {
                        7
                    };
                    assert(lit(lost, k));
                    assert(lit(b, k) && pixel(gr, x + k, ry));
                }
                if row_hits(gr, x as int, ry, b) {
                    let k = choose|k: int|
                        0 <= k < 8 && k < 8 && lit(b, k) && #[trigger] pixel(gr, x + k, ry);
                    assert(lit(lost, k));
                }
            }
        }
        lost != 0
    }
}

impl Scr for Screen {
    closed spec fn grid(&self) -> Grid {
        Seq::new(ROWS as nat, |y: int| self.pixels@[y]@)
    }

    fn xor(&mut self, x: usize, y: usize, v: bool) -> (hit: bool) {
        let x = x % COLS;
        let y = y % ROWS;
        let was_pixel = self.pixels[y][x];
        self.pixels[y][x] = was_pixel ^ v;
        was_pixel && !self.pixels[y][x]
    }

    #[verifier::rlimit(60)]
    fn xor_bytes(&mut self, x: usize, y: usize, bytes: &[u8]) -> (hit: bool) {
        let mut overflow = false;
        let mut bidx: usize = 0;
        let ghost g0 = self.grid();
        proof {
            lemma_drawn_rows_ends(g0, false, g0, x as int, y as int, bytes@);
        }
        while bidx < bytes.len()
            invariant
                bidx <= bytes@.len(),
                drawn_rows(self.grid(), overflow, g0, x as int, y as int, bytes@, bidx as int),
            decreases bytes@.len() - bidx,
        {
            let b = bytes[bidx];
            let row = (y % ROWS + bidx % ROWS) % ROWS;
            proof {
                self.lemma_shaped();
                lemma_row_index(y as int, bidx as int);
                lemma_drawn_rows(
                    self.grid(),
                    overflow,
                    g0,
                    x as int,
                    y as int,
                    bytes@,
                    bidx as int,
                    row as int,
                );
            }
            let here = self.xor_row(x, row, b);
            overflow = overflow || here;
            bidx += 1;
        }
        proof {
            lemma_drawn_rows_ends(self.grid(), overflow, g0, x as int, y as int, bytes@);
            self.lemma_shaped();
        }
        overflow
    }

    fn get(&self, x: usize, y: usize) -> (on: bool) {
        let x = x % COLS;
        let y = y % ROWS;
        self.pixels[y][x]
    }

    fn clear(&mut self) {
        let mut r: usize = 0;
        while r < ROWS
            invariant
                r <= ROWS,
                forall|y: int, x: int| 0 <= y < r && 0 <= x < COLS ==> !self.pixels@[y]@[x],
            decreases ROWS - r,
        {
            let mut c: usize = 0;
            while c < COLS
                invariant
                    r < ROWS,
                    c <= COLS,
                    forall|y: int, x: int| 0 <= y < r && 0 <= x < COLS ==> !self.pixels@[y]@[x],
                    forall|x: int| 0 <= x < c ==> !self.pixels@[r as int]@[x],
                decreases COLS - c,
            {
                self.pixels[r][c] = false;
                c += 1;
            }
            r += 1;
        }
        assert(self.grid() =~~= blank());
    }
}

impl Default for Screen {
    fn default() -> (scr: Self)
        ensures
            scr.grid() == blank(),
    {
        Self::new()
    }
}

/// The bit of a packed display row that holds column 0.
pub const TOP_BIT: u64 = 0x8000_0000_0000_0000;

/// Whether column `x` of the packed display row `row` is set. Column 0 is
/// the most significant bit.
pub open spec fn column_set(row: u64, x: int) -> bool {
    0 <= x < 64 && row & (TOP_BIT >> (x as u64)) != 0
}

/// Flipping column `x` of a packed row flips that column and no other; a
/// row of zeros has no column set.
proof fn lemma_flip_column(row: u64, x: u64, c: u64)
    by (bit_vector)
    requires
        x < 64,
        c < 64,
    ensures
        ((row ^ (0x8000_0000_0000_0000u64 >> x)) & (0x8000_0000_0000_0000u64 >> c) != 0) == ((row
            & (0x8000_0000_0000_0000u64 >> c) != 0) != (c == x)),
        0u64 & (0x8000_0000_0000_0000u64 >> c) == 0,
{
}

/// Column `c` of a sprite row moved to start at column `s` of a packed row.
proof fn lemma_placed_column(b: u8, s: u64, c: u64)
    by (bit_vector)
    requires
        s < 64,
        c < 64,
    ensures
        ({
            let v = (b as u64) << 56;
            let val = if s == 0 {
                v
            } else {
                (v >> s) | (v << ((64 - s) as u64))
            };
            let k = (c + 64 - s) as u64 % 64;
            (val & (0x8000_0000_0000_0000u64 >> c) != 0) == (k < 8 && (b & (0x80u8 >> (k as u8))
                != 0))
        }),
{
}

/// Column `k` of the eight pixels that start at column `s` of a packed row.
proof fn lemma_window_column(row: u64, s: u64, k: u64)
    by (bit_vector)
    requires
        s < 64,
        k < 8,
    ensures
        ({
            let turned = if s == 0 {
                row
            } else {
                (row << s) | (row >> ((64 - s) as u64))
            };
            let window = (turned >> 56) as u8;
            let c = (s + k) as u64 % 64;
            (window & (0x80u8 >> (k as u8)) != 0) == (row & (0x8000_0000_0000_0000u64 >> c) != 0)
        }),
{
}

/// The column of `a ^ v` in a packed row.
proof fn lemma_xor_packed(a: u64, v: u64, c: u64)
    by (bit_vector)
    requires
        c < 64,
    ensures
        ((a ^ v) & (0x8000_0000_0000_0000u64 >> c) != 0) == ((a & (0x8000_0000_0000_0000u64 >> c)
            != 0) != (v & (0x8000_0000_0000_0000u64 >> c) != 0)),
{
}

/// The column of `a & b` in a sprite row.
proof fn lemma_and_column(a: u8, b: u8, c: u8)
    by (bit_vector)
    requires
        c < 8,
    ensures
        ((a & b) & (0x80u8 >> c) != 0) == ((a & (0x80u8 >> c) != 0) && (b & (0x80u8 >> c) != 0)),
{
}

/// A display held as one 64-bit word for each row, column 0 in the most
/// significant bit.
pub struct BitScreen {
    pixels: [u64; ROWS],
}

impl BitScreen {
    /// The grid of a display of every value has the size of the display.
    pub proof fn lemma_shaped(&self)
        ensures
            shaped(self.grid()),
    {
    }

    /// A display with no pixel set.
    pub fn new() -> (scr: Self)
        ensures
            scr.grid() == blank(),
    {
        let scr = BitScreen { pixels: [0u64;ROWS] };
        proof {
            assert forall|y: int, x: int| 0 <= y < ROWS && 0 <= x < COLS implies !#[trigger] column_set(
                scr.pixels@[y],
                x,
            ) by {
                lemma_flip_column(0, 0, x as u64);
            }
            assert(scr.grid() =~~= blank());
        }
        scr
    }

    /// Draws the sprite row `b` on row `row`, its first column at `x`, by
    /// one exclusive or of the packed row with the sprite row moved into
    /// place.
    #[verifier::rlimit(60)]
    fn xor_row(&mut self, x: usize, row: usize, b: u8) -> (hit: bool)
        requires
            row < ROWS,
        ensures
            final(self).grid() == row_xor(old(self).grid(), x as int, row as int, b),
            hit == row_hits(old(self).grid(), x as int, row as int, b),
    {
        let s = (x % COLS) as u64;
        let ghost gr = self.grid();
        let old_line = self.pixels[row];
        let sprite = (b as u64) << 56;
        let val_to_xor = if s == 0 {
            sprite
        } else {
            (sprite >> s) | (sprite << (64 - s))
        };
        let turned = if s == 0 {
            old_line
        } else {
            (old_line << s) | (old_line >> (64 - s))
        };
        let window = (turned >> 56) as u8;
        let new_line = old_line ^ val_to_xor;
        self.pixels[row] = new_line;
        let lost = window & b;
        proof {
            assert forall|px: int| 0 <= px < COLS implies column_set(new_line, px) == (column_set(
                old_line,
                px,
            ) != lit(b, (px - x) % (COLS as int))) by {
                lemma_xor_packed(old_line, val_to_xor, px as u64);
                lemma_placed_column(b, s, px as u64);
                assert((px + 64 - s) % 64 == (px - x) % (COLS as int));
            }
            assert(self.grid() =~~= row_xor(gr, x as int, row as int, b));
            assert forall|k: int| 0 <= k < 8 implies lit(lost, k) == (lit(b, k) && pixel(
                gr,
                x + k,
                row as int,
            )) by {
                lemma_and_column(window, b, k as u8);
                lemma_window_column(old_line, s, k as u64);
                assert((s + k) % 64 == (x + k) % (COLS as int));
            }
            lemma_some_column(lost);
            assert((lost != 0) == row_hits(gr, x as int, row as int, b)) by {
                if lost != 0 {
                    let k: int = if lit(lost, 0) {
                        0
                    } else if lit(lost, 1) {
                        1
                    } else if lit(lost, 2) {
                        2
                    } else if lit(lost, 3) {
                        3
                    } else if lit(lost, 4) {
                        4
                    } else if lit(lost, 5) {
                        5
                    } else if lit(lost, 6) {
                        6
                    } else {
                        7
                    };
                    assert(lit(lost, k));
                    assert(lit(b, k) && pixel(gr, x + k, row as int));
                }
                if row_hits(gr, x as int, row as int, b) {
                    let k = choose|k: int|
                        0 <= k < 8 && k < 8 && lit(b, k) && #[trigger] pixel(
                            gr,
                            x + k,
                            row as int,
                        );
                    assert(lit(lost, k));
                }
            }
        }
        lost != 0
    }
}

impl Scr for BitScreen {
    closed spec fn grid(&self) -> Grid {
        Seq::new(
            ROWS as nat,
            |y: int| Seq::new(COLS as nat, |x: int| column_set(self.pixels@[y], x)),
        )
    }

    fn xor(&mut self, x: usize, y: usize, v: bool) -> (hit: bool) {
        let x = x % COLS;
        let y = y % ROWS;
        let ghost g = self.grid();
        let old_line = self.pixels[y];
        let val_with_bit = TOP_BIT >> (x as u64);
        let prev = old_line & val_with_bit != 0;
        if v {
            self.pixels[y] = old_line ^ val_with_bit;
        }
        proof {
            assert forall|px: int| 0 <= px < COLS implies column_set(
                self.pixels@[y as int],
                px,
            ) == (column_set(old_line, px) != (v && px == x)) by {
                lemma_flip_column(old_line, x as u64, px as u64);
            }
            assert(self.grid() =~~= pixel_xor(g, x as int, y as int, v));
        }
        prev && v
    }

    #[verifier::rlimit(60)]
    fn xor_bytes(&mut self, x: usize, y: usize, bytes: &[u8]) -> (hit: bool) {
        let mut overflow = false;
        let mut bidx: usize = 0;
        let ghost g0 = self.grid();
        proof {
            lemma_drawn_rows_ends(g0, false, g0, x as int, y as int, bytes@);
        }
        while bidx < bytes.len()
            invariant
                bidx <= bytes@.len(),
                drawn_rows(self.grid(), overflow, g0, x as int, y as int, bytes@, bidx as int),
            decreases bytes@.len() - bidx,
        {
            let b = bytes[bidx];
            let row = (y % ROWS + bidx % ROWS) % ROWS;
            proof {
                self.lemma_shaped();
                lemma_row_index(y as int, bidx as int);
                lemma_drawn_rows(
                    self.grid(),
                    overflow,
                    g0,
                    x as int,
                    y as int,
                    bytes@,
                    bidx as int,
                    row as int,
                );
            }
            let here = self.xor_row(x, row, b);
            overflow = overflow || here;
            bidx += 1;
        }
        proof {
            lemma_drawn_rows_ends(self.grid(), overflow, g0, x as int, y as int, bytes@);
            self.lemma_shaped();
        }
        overflow
    }

    fn get(&self, x: usize, y: usize) -> (on: bool) {
        let x = x % COLS;
        let y = y % ROWS;
        self.pixels[y] & (TOP_BIT >> (x as u64)) != 0
    }

    fn clear(&mut self) {
        let mut r: usize = 0;
        while r < ROWS
            invariant
                r <= ROWS,
                forall|y: int| 0 <= y < r ==> self.pixels@[y] == 0,
            decreases ROWS - r,
        {
            self.pixels[r] = 0;
            r += 1;
        }
        proof {
            assert forall|y: int, x: int| 0 <= y < ROWS && 0 <= x < COLS implies !#[trigger] column_set(
                self.pixels@[y],
                x,
            ) by {
                lemma_flip_column(0, 0, x as u64);
            }
            assert(self.grid() =~~= blank());
        }
    }
}

impl Default for BitScreen {
    fn default() -> (scr: Self)
        ensures
            scr.grid() == blank(),
    {
        Self::new()
    }
}

} // verus!
