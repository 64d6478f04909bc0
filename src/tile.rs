//! Rectangular tiles of pixels and the row-major partition of an image into them.

use vstd::arithmetic::div_mod::lemma_fundamental_div_mod_converse;
use vstd::prelude::*;

verus! {

/// A half-open rectangle of pixels: columns `x_start..x_end`, rows `y_start..y_end`,
/// with row 0 at the top of the image.
#[derive(Clone, Copy, Debug, PartialEq, Eq, Structural)]
pub struct Tile {
    pub x_start: u32,
    pub x_end: u32,
    pub y_start: u32,
    pub y_end: u32,
}

impl Tile {
    /// Whether pixel `(x, y)` lies in the tile.
    pub open spec fn holds(self, x: int, y: int) -> bool {
        &&& self.x_start <= x < self.x_end
        &&& self.y_start <= y < self.y_end
    }

    pub open spec fn width_spec(self) -> int {
        self.x_end - self.x_start
    }

    pub open spec fn height_spec(self) -> int {
        self.y_end - self.y_start
    }

    /// The tile's corners are in order (it may still be empty).
    pub open spec fn wf(self) -> bool {
        self.x_start <= self.x_end && self.y_start <= self.y_end
    }

    /// Position of pixel `(x, y)` in the tile's row-major order.
    pub open spec fn offset(self, x: int, y: int) -> int {
        (y - self.y_start) * self.width_spec() + (x - self.x_start)
    }

    /// The tile's pixels as `(column, row)`, row-major: rows from the top, each
    /// row from the left.
    pub open spec fn pixel_seq(self) -> Seq<(u32, u32)> {
        let w = self.width_spec();
        Seq::new(
            (self.height_spec() * w) as nat,
            |k: int| ((self.x_start + k % w) as u32, (self.y_start + k / w) as u32),
        )
    }

    /// Whether pixel `(x, y)` lies in the tile.
    pub fn contains(&self, x: u32, y: u32) -> (r: bool)
        ensures
            r == self.holds(x as int, y as int),
    {
        self.x_start <= x && x < self.x_end && self.y_start <= y && y < self.y_end
    }

    /// The tile's pixels as `(column, row)`, row-major: rows from the top, each
    /// row from the left. This is the order in which a worker renders them and in
    /// which `FrameBuffer::write_tile` takes their colours.
    pub fn pixels(&self) -> (r: Vec<(u32, u32)>)
        requires
            self.wf(),
        ensures
            r@ == self.pixel_seq(),
    {
        let ghost w = self.width_spec();
        let mut out: Vec<(u32, u32)> = Vec::new();
        let mut y: u32 = self.y_start;
        while y < self.y_end
            invariant
                self.wf(),
                w == self.width_spec(),
                self.y_start <= y <= self.y_end,
                out@.len() == (y - self.y_start) * w,
                forall|k: int|
                    0 <= k < out@.len() ==> #[trigger] out@[k] == (
                        (self.x_start + k % w) as u32,
                        (self.y_start + k / w) as u32,
                    ),
            decreases self.y_end - y,
        {
            let mut x: u32 = self.x_start;
            while x < self.x_end
                invariant
                    self.wf(),
                    w == self.width_spec(),
                    self.y_start <= y < self.y_end,
                    self.x_start <= x <= self.x_end,
                    out@.len() == (y - self.y_start) * w + (x - self.x_start),
                    forall|k: int|
                        0 <= k < out@.len() ==> #[trigger] out@[k] == (
                            (self.x_start + k % w) as u32,
                            (self.y_start + k / w) as u32,
                        ),
                decreases self.x_end - x,
            {
                proof {
                    lemma_fundamental_div_mod_converse(
                        out@.len() as int,
                        w,
                        y - self.y_start,
                        x - self.x_start,
                    );
                }
                out.push((x, y));
                x = x + 1;
            }
            assert(out@.len() == (y + 1 - self.y_start) * w) by (nonlinear_arith)
                requires
                    out@.len() == (y - self.y_start) * w + (x - self.x_start),
                    x - self.x_start == w,
            ;
            y = y + 1;
        }
        assert(out@ =~= self.pixel_seq());
        out
    }
}


/// How many bands of `size` pixels cover `extent` pixels (the last one may be narrower).
pub open spec fn bands(extent: int, size: int) -> int {
    (extent + size - 1) / size
}

pub open spec fn min_int(a: int, b: int) -> int {
    if a <= b {
        a
    } else {
        b
    }
}

/// `t` is the tile in band `row` from the top and band `col` from the left of a
/// `width` x `height` image cut into tiles of side `size`.
pub open spec fn is_tile_at(t: Tile, width: int, height: int, size: int, row: int, col: int) -> bool {
    &&& t.x_start == col * size
    &&& t.x_end == min_int((col + 1) * size, width)
    &&& t.y_start == row * size
    &&& t.y_end == min_int((row + 1) * size, height)
}

/// `ts` is the partition of a `width` x `height` image into tiles of side `size`,
/// scanned row-major: tile rows from the top, and within a tile row, tile columns
/// from the left.
pub open spec fn is_tiling(ts: Seq<Tile>, width: int, height: int, size: int) -> bool {
    let cols = bands(width, size);
    &&& ts.len() == bands(height, size) * cols
    &&& forall|k: int|
        0 <= k < ts.len() ==> is_tile_at(#[trigger] ts[k], width, height, size, k / cols, k % cols)
}

/// A band index lies inside the extent exactly when it is below the band count.
pub proof fn lemma_bands(extent: int, size: int, r: int)
    requires
        0 <= extent,
        0 < size,
        0 <= r,
    ensures
        r < bands(extent, size) <==> r * size < extent,
{
    let q = bands(extent, size);
    let m = (extent + size - 1) % size;
    assert(extent + size - 1 == q * size + m && 0 <= m < size) by {
        vstd::arithmetic::div_mod::lemma_fundamental_div_mod(extent + size - 1, size);
        vstd::arithmetic::div_mod::lemma_mod_bound(extent + size - 1, size);
        vstd::arithmetic::mul::lemma_mul_is_commutative(q, size);
    }
    if r < q {
        assert(r * size <= q * size - size) by (nonlinear_arith)
            requires
                r < q,
                0 < size,
        ;
    } else {
        assert(r * size >= q * size) by (nonlinear_arith)
            requires
                r >= q,
                0 < size,
        ;
    }
}

/// Cuts a `width` x `height` image into tiles of side `size`, in row-major order of
/// tile rows then tile columns; the tiles of the last row and column are cut short
/// at the image's edge.
pub fn make_tiles(width: u32, height: u32, size: u32) -> (r: Vec<Tile>)
    requires
        size > 0,
    ensures
        is_tiling(r@, width as int, height as int, size as int),
{
    let ghost cols = bands(width as int, size as int);
    let ghost rows = bands(height as int, size as int);
    let mut tiles: Vec<Tile> = Vec::new();
    let mut y: u32 = 0;
    let ghost mut row: int = 0;
    proof {
        lemma_bands(width as int, size as int, 0);
        lemma_bands(height as int, size as int, 0);
    }
    while y < height
        invariant
            size > 0,
            cols == bands(width as int, size as int),
            rows == bands(height as int, size as int),
            0 <= row <= rows,
            y == min_int(row * size, height as int),
            y < height <==> row < rows,
            tiles@.len() == row * cols,
            forall|k: int|
                0 <= k < tiles@.len() ==> is_tile_at(
                    #[trigger] tiles@[k],
                    width as int,
                    height as int,
                    size as int,
                    k / cols,
                    k % cols,
                ),
        decreases height - y,
    {
        let y_end: u32 = if height - y > size {
            y + size
        } else {
            height
        };
        assert((row + 1) * size == row * size + size) by (nonlinear_arith);
        assert(y_end == min_int((row + 1) * size, height as int));
        let mut x: u32 = 0;
        let ghost mut col: int = 0;
        proof {
            lemma_bands(width as int, size as int, 0);
        }
        while x < width
            invariant
                size > 0,
                cols == bands(width as int, size as int),
            rows == bands(height as int, size as int),
                0 <= row < rows,
                y == row * size,
                y < height,
                y_end == min_int((row + 1) * size, height as int),
                0 <= col <= cols,
                x == min_int(col * size, width as int),
                x < width <==> col < cols,
                tiles@.len() == row * cols + col,
                forall|k: int|
                    0 <= k < tiles@.len() ==> is_tile_at(
                        #[trigger] tiles@[k],
                        width as int,
                        height as int,
                        size as int,
                        k / cols,
                        k % cols,
                    ),
            decreases width - x,
        {
            let x_end: u32 = if width - x > size {
                x + size
            } else {
                width
            };
            assert((col + 1) * size == col * size + size) by (nonlinear_arith);
            let t = Tile { x_start: x, x_end, y_start: y, y_end };
            let ghost k = tiles@.len() as int;
            proof {
                lemma_fundamental_div_mod_converse(k, cols, row, col);
            }
            assert(is_tile_at(t, width as int, height as int, size as int, k / cols, k % cols));
            tiles.push(t);
            x = x_end;
            proof {
                col = col + 1;
                lemma_bands(width as int, size as int, col);
            }
        }
        assert(tiles@.len() == (row + 1) * cols) by (nonlinear_arith)
            requires
                tiles@.len() == row * cols + col,
                col == cols,
        ;
        y = y_end;
        proof {
            row = row + 1;
            lemma_bands(height as int, size as int, row);
        }
    }
    tiles
}


/// The index, in the row-major partition, of the tile that holds pixel `(x, y)`.
pub open spec fn tile_index(width: int, size: int, x: int, y: int) -> int {
    (y / size) * bands(width, size) + x / size
}

proof fn lemma_band_of(p: int, size: int, b: int)
    requires
        0 < size,
        b * size <= p < (b + 1) * size,
    ensures
        p / size == b,
{
    assert((b + 1) * size == b * size + size) by (nonlinear_arith);
    lemma_fundamental_div_mod_converse(p, size, b, p - b * size);
}

/// In the partition of a `width` x `height` image into tiles of side `size`, each
/// tile is non-empty and lies inside the image, and each pixel of the image lies
/// in exactly one tile: the one at `tile_index`.
pub proof fn lemma_tiling_partitions(ts: Seq<Tile>, width: int, height: int, size: int)
    requires
        0 <= width,
        0 <= height,
        0 < size,
        is_tiling(ts, width, height, size),
    ensures
        forall|k: int|
            0 <= k < ts.len() ==> {
                &&& (#[trigger] ts[k]).x_start < ts[k].x_end <= width
                &&& ts[k].y_start < ts[k].y_end <= height
            },
        forall|x: int, y: int|
            0 <= x < width && 0 <= y < height ==> {
                &&& 0 <= #[trigger] tile_index(width, size, x, y) < ts.len()
                &&& ts[tile_index(width, size, x, y)].holds(x, y)
            },
        forall|k: int, x: int, y: int|
            0 <= k < ts.len() && #[trigger] ts[k].holds(x, y) ==> k == tile_index(
                width,
                size,
                x,
                y,
            ),
{
    let cols = bands(width, size);
    let rows = bands(height, size);
    assert forall|k: int| 0 <= k < ts.len() implies {
        &&& (#[trigger] ts[k]).x_start < ts[k].x_end <= width
        &&& ts[k].y_start < ts[k].y_end <= height
    } by {
        let row = k / cols;
        let col = k % cols;
        assert(is_tile_at(ts[k], width, height, size, row, col));
        vstd::arithmetic::div_mod::lemma_fundamental_div_mod(k, cols);
        vstd::arithmetic::div_mod::lemma_mod_bound(k, cols);
        assert(0 <= row < rows) by (nonlinear_arith)
            requires
                k == cols * row + col,
                0 <= col < cols,
                0 <= k < rows * cols,
        ;
        lemma_bands(width, size, col);
        lemma_bands(height, size, row);
        assert((col + 1) * size == col * size + size) by (nonlinear_arith);
        assert((row + 1) * size == row * size + size) by (nonlinear_arith);
    }
    assert forall|x: int, y: int| 0 <= x < width && 0 <= y < height implies {
        &&& 0 <= #[trigger] tile_index(width, size, x, y) < ts.len()
        &&& ts[tile_index(width, size, x, y)].holds(x, y)
    } by {
        let r = y / size;
        let c = x / size;
        let k = tile_index(width, size, x, y);
        vstd::arithmetic::div_mod::lemma_fundamental_div_mod(x, size);
        vstd::arithmetic::div_mod::lemma_fundamental_div_mod(y, size);
        vstd::arithmetic::div_mod::lemma_mod_bound(x, size);
        vstd::arithmetic::div_mod::lemma_mod_bound(y, size);
        assert(0 <= c && c * size <= x < (c + 1) * size) by (nonlinear_arith)
            requires
                x == size * c + x % size,
                0 <= x % size < size,
                0 <= x,
        ;
        assert(0 <= r && r * size <= y < (r + 1) * size) by (nonlinear_arith)
            requires
                y == size * r + y % size,
                0 <= y % size < size,
                0 <= y,
        ;
        lemma_bands(width, size, c);
        lemma_bands(height, size, r);
        assert(0 <= k < rows * cols) by (nonlinear_arith)
            requires
                k == r * cols + c,
                0 <= r < rows,
                0 <= c < cols,
        ;
        lemma_fundamental_div_mod_converse(k, cols, r, c);
        assert(is_tile_at(ts[k], width, height, size, r, c));
    }
    assert forall|k: int, x: int, y: int|
        0 <= k < ts.len() && #[trigger] ts[k].holds(x, y) implies k == tile_index(
        width,
        size,
        x,
        y,
    ) by {
        let row = k / cols;
        let col = k % cols;
        assert(is_tile_at(ts[k], width, height, size, row, col));
        lemma_band_of(x, size, col);
        lemma_band_of(y, size, row);
        vstd::arithmetic::div_mod::lemma_fundamental_div_mod(k, cols);
        vstd::arithmetic::mul::lemma_mul_is_commutative(cols, row);
    }
}

} // verus!
