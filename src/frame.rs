//! The frame buffer that workers write finished tiles into.

use vstd::arithmetic::div_mod::lemma_fundamental_div_mod_converse;
use vstd::prelude::*;

use crate::rgb_buffer::{
    get_rgb_pixel, grid, new_rgb_buffer, put_rgb_pixel, rgb_into_raw, rgb_pixels, RgbBuffer,
};
use crate::tile::{is_tiling, lemma_tiling_partitions, tile_index, Tile};

verus! {

/// A `width` x `height` grid of 8-bit RGB pixels, by `(column, row)` with row 0
/// at the top.
pub struct FrameBuffer {
    width: u32,
    height: u32,
    buf: RgbBuffer,
}

/// What a frame buffer holds: its size and a pixel for each position inside it.
pub ghost struct FrameView {
    pub width: nat,
    pub height: nat,
    pub pixels: Map<(u32, u32), [u8; 3]>,
}

/// A `width` x `height` image of black pixels.
pub open spec fn blank(width: int, height: int) -> Map<(u32, u32), [u8; 3]> {
    Map::new(|p: (u32, u32)| p.0 < width && p.1 < height, |p: (u32, u32)| [0u8, 0u8, 0u8])
}

/// `tile` lies inside a `width` x `height` image.
pub open spec fn tile_inside(tile: Tile, width: int, height: int) -> bool {
    tile.wf() && tile.x_end <= width && tile.y_end <= height
}

/// `m` with the pixels of `tile` replaced by `colors`, taken in the tile's
/// row-major order.
pub open spec fn paint(m: Map<(u32, u32), [u8; 3]>, tile: Tile, colors: Seq<[u8; 3]>) -> Map<
    (u32, u32),
    [u8; 3],
> {
    Map::new(
        |p: (u32, u32)| m.contains_key(p),
        |p: (u32, u32)|
            if tile.holds(p.0 as int, p.1 as int) {
                colors[tile.offset(p.0 as int, p.1 as int)]
            } else {
                m[p]
            },
    )
}

/// `m` with the pixels of `tile` that come before `(x, y)` in row-major order
/// replaced by their colours.
spec fn paint_before(
    m: Map<(u32, u32), [u8; 3]>,
    tile: Tile,
    colors: Seq<[u8; 3]>,
    x: int,
    y: int,
) -> Map<(u32, u32), [u8; 3]> {
    Map::new(
        |p: (u32, u32)| m.contains_key(p),
        |p: (u32, u32)|
            if tile.holds(p.0 as int, p.1 as int) && (p.1 < y || (p.1 == y && p.0 < x)) {
                colors[tile.offset(p.0 as int, p.1 as int)]
            } else {
                m[p]
            },
    )
}

impl View for FrameBuffer {
    type V = FrameView;

    closed spec fn view(&self) -> FrameView {
        FrameView { width: self.width as nat, height: self.height as nat, pixels: rgb_pixels(self.buf) }
    }
}

impl FrameBuffer {
    /// The buffer holds a pixel for exactly the positions inside its bounds, and
    /// its bytes fit in memory.
    pub closed spec fn wf(&self) -> bool {
        &&& rgb_pixels(self.buf).dom() == grid(self.width as int, self.height as int)
        &&& 3 * self.width * self.height <= isize::MAX
    }

    /// A `width` x `height` buffer of black pixels. Its bytes must fit in memory.
    pub fn new(width: u32, height: u32) -> (r: Self)
        requires
            3 * width * height <= isize::MAX,
        ensures
            r.wf(),
            r@ == (FrameView { width: width as nat, height: height as nat, pixels: blank(width as int, height as int) }),
    {
        let buf = new_rgb_buffer(width, height);
        assert(rgb_pixels(buf) =~= blank(width as int, height as int));
        FrameBuffer { width, height, buf }
    }

    pub fn width(&self) -> (r: u32)
        ensures
            r == self@.width,
    {
        self.width
    }

    pub fn height(&self) -> (r: u32)
        ensures
            r == self@.height,
    {
        self.height
    }

    /// The pixel at column `x`, row `y`.
    pub fn pixel(&self, x: u32, y: u32) -> (r: [u8; 3])
        requires
            self.wf(),
            x < self@.width,
            y < self@.height,
        ensures
            r == self@.pixels[(x, y)],
    {
        get_rgb_pixel(&self.buf, x, y)
    }

    /// Sets the pixel at column `x`, row `y`, and no other.
    pub fn put_pixel(&mut self, x: u32, y: u32, rgb: [u8; 3])
        requires
            old(self).wf(),
            x < old(self)@.width,
            y < old(self)@.height,
        ensures
            final(self).wf(),
            final(self)@ == (FrameView { pixels: old(self)@.pixels.insert((x, y), rgb), ..old(self)@ }),
    {
        put_rgb_pixel(&mut self.buf, x, y, rgb);
        assert(rgb_pixels(self.buf).dom() =~= grid(self.width as int, self.height as int));
    }

    /// Writes a finished tile: `colors` holds its pixels' colours in the tile's
    /// row-major order (see `Tile::pixels`). Pixels outside the tile are kept.
    pub fn write_tile(&mut self, tile: &Tile, colors: &Vec<[u8; 3]>)
        requires
            old(self).wf(),
            tile_inside(*tile, old(self)@.width as int, old(self)@.height as int),
            colors@.len() == tile.pixel_seq().len(),
        ensures
            final(self).wf(),
            final(self)@ == (FrameView { pixels: paint(old(self)@.pixels, *tile, colors@), ..old(self)@ }),
    {
        let ghost m0 = self@.pixels;
        let ghost v0 = self@;
        let ghost w = tile.width_spec();
        let ghost h = tile.height_spec();
        // The colour count as a `usize`: it bounds the position counter `i`.
        let len: usize = colors.len();
        let mut i: usize = 0;
        let mut y: u32 = tile.y_start;
        assert(paint_before(m0, *tile, colors@, tile.x_start as int, y as int) =~= m0);
        while y < tile.y_end
            invariant
                self.wf(),
                self@.width == v0.width,
                self@.height == v0.height,
                tile_inside(*tile, v0.width as int, v0.height as int),
                w == tile.width_spec(),
                h == tile.height_spec(),
                colors@.len() == h * w,
                colors@.len() == len,
                tile.y_start <= y <= tile.y_end,
                i == (y - tile.y_start) * w,
                self@.pixels == paint_before(m0, *tile, colors@, tile.x_start as int, y as int),
            decreases tile.y_end - y,
        {
            let mut x: u32 = tile.x_start;
            while x < tile.x_end
                invariant
                    self.wf(),
                    self@.width == v0.width,
                    self@.height == v0.height,
                    tile_inside(*tile, v0.width as int, v0.height as int),
                    w == tile.width_spec(),
                    h == tile.height_spec(),
                    colors@.len() == h * w,
                    colors@.len() == len,
                    tile.y_start <= y < tile.y_end,
                    tile.x_start <= x <= tile.x_end,
                    i == tile.offset(x as int, y as int),
                    self@.pixels == paint_before(m0, *tile, colors@, x as int, y as int),
                decreases tile.x_end - x,
            {
                assert(i < colors@.len()) by (nonlinear_arith)
                    requires
                        i == (y - tile.y_start) * w + (x - tile.x_start),
                        0 <= y - tile.y_start < h,
                        0 <= x - tile.x_start < w,
                        colors@.len() == h * w,
                ;
                self.put_pixel(x, y, colors[i]);
                assert(self@.pixels =~= paint_before(m0, *tile, colors@, x + 1, y as int));
                x = x + 1;
                i = i + 1;
            }
            assert(self@.pixels =~= paint_before(m0, *tile, colors@, tile.x_start as int, y + 1));
            assert(i == (y + 1 - tile.y_start) * w) by (nonlinear_arith)
                requires
                    i == (y - tile.y_start) * w + (x - tile.x_start),
                    x - tile.x_start == w,
            ;
            y = y + 1;
        }
        assert(self@.pixels =~= paint(m0, *tile, colors@));
    }

    /// The buffer's bytes: rows from the top, each row from the left, three bytes
    /// (red, green, blue) per pixel.
    pub fn into_raw(self) -> (r: Vec<u8>)
        requires
            self.wf(),
        ensures
            r@.len() == 3 * self@.width * self@.height,
            forall|x: u32, y: u32, c: int|
                x < self@.width && y < self@.height && 0 <= c < 3 ==> #[trigger] r@[3 * (y * self@.width + x) + c]
                    == self@.pixels[(x, y)][c],
    {
        rgb_into_raw(self.buf, self.width, self.height)
    }
}

/// The colours that `shade` gives the pixels of `tile`, in the tile's row-major order.
pub open spec fn tile_colors(tile: Tile, shade: spec_fn(u32, u32) -> [u8; 3]) -> Seq<[u8; 3]> {
    tile.pixel_seq().map_values(|p: (u32, u32)| shade(p.0, p.1))
}

/// `m` after the tiles `ts[order[0]]`, `ts[order[1]]`, ... have been written in
/// turn, each with the colours that `shade` gives its pixels.
pub open spec fn paint_in_order(
    m: Map<(u32, u32), [u8; 3]>,
    ts: Seq<Tile>,
    order: Seq<int>,
    shade: spec_fn(u32, u32) -> [u8; 3],
) -> Map<(u32, u32), [u8; 3]>
    decreases order.len(),
{
    if order.len() == 0 {
        m
    } else {
        let t = ts[order.last()];
        paint(paint_in_order(m, ts, order.drop_last(), shade), t, tile_colors(t, shade))
    }
}

/// The `width` x `height` image in which each pixel has the colour that `shade`
/// gives it.
pub open spec fn shaded(width: int, height: int, shade: spec_fn(u32, u32) -> [u8; 3]) -> Map<
    (u32, u32),
    [u8; 3],
> {
    Map::new(|p: (u32, u32)| p.0 < width && p.1 < height, |p: (u32, u32)| shade(p.0, p.1))
}

/// Inside a tile, the colour at a pixel's row-major position is that pixel's colour.
proof fn lemma_tile_colors_at(t: Tile, shade: spec_fn(u32, u32) -> [u8; 3], x: u32, y: u32)
    requires
        t.wf(),
        t.holds(x as int, y as int),
    ensures
        0 <= t.offset(x as int, y as int) < tile_colors(t, shade).len(),
        tile_colors(t, shade)[t.offset(x as int, y as int)] == shade(x, y),
{
    let w = t.width_spec();
    let h = t.height_spec();
    let k = t.offset(x as int, y as int);
    assert(0 <= k < h * w) by (nonlinear_arith)
        requires
            k == (y - t.y_start) * w + (x - t.x_start),
            0 <= y - t.y_start < h,
            0 <= x - t.x_start < w,
    ;
    lemma_fundamental_div_mod_converse(k, w, y - t.y_start, x - t.x_start);
    assert(t.pixel_seq()[k] == (x, y));
}

proof fn lemma_paint_in_order_tracks_tiles(
    m: Map<(u32, u32), [u8; 3]>,
    ts: Seq<Tile>,
    width: int,
    height: int,
    size: int,
    order: Seq<int>,
    shade: spec_fn(u32, u32) -> [u8; 3],
)
    requires
        0 <= width,
        0 <= height,
        0 < size,
        is_tiling(ts, width, height, size),
        m.dom() == grid(width, height),
        forall|i: int| 0 <= i < order.len() ==> 0 <= #[trigger] order[i] < ts.len(),
    ensures
        paint_in_order(m, ts, order, shade) == Map::new(
            |p: (u32, u32)| m.contains_key(p),
            |p: (u32, u32)|
                if order.contains(tile_index(width, size, p.0 as int, p.1 as int)) {
                    shade(p.0, p.1)
                } else {
                    m[p]
                },
        ),
    decreases order.len(),
{
    let target = Map::new(
        |p: (u32, u32)| m.contains_key(p),
        |p: (u32, u32)|
            if order.contains(tile_index(width, size, p.0 as int, p.1 as int)) {
                shade(p.0, p.1)
            } else {
                m[p]
            },
    );
    if order.len() == 0 {
        assert(paint_in_order(m, ts, order, shade) =~= target);
    } else {
        let rest = order.drop_last();
        let k = order.last();
        let t = ts[k];
        lemma_paint_in_order_tracks_tiles(m, ts, width, height, size, rest, shade);
        lemma_tiling_partitions(ts, width, height, size);
        let painted = paint_in_order(m, ts, order, shade);
        assert forall|p: (u32, u32)| #[trigger] m.contains_key(p) implies painted[p] == target[p] by {
            let x = p.0;
            let y = p.1;
            let j = tile_index(width, size, x as int, y as int);
            assert(grid(width, height).contains(p));
            assert(ts[j].holds(x as int, y as int));
            if t.holds(x as int, y as int) {
                assert(k == j);
                assert(order[order.len() - 1] == j);
                lemma_tile_colors_at(t, shade, x, y);
            } else {
                assert(k != j);
                assert(order.contains(j) <==> rest.contains(j)) by {
                    if order.contains(j) {
                        let i = choose|i: int| 0 <= i < order.len() && order[i] == j;
                        assert(rest[i] == j);
                    }
                    if rest.contains(j) {
                        let i = choose|i: int| 0 <= i < rest.len() && rest[i] == j;
                        assert(order[i] == j);
                    }
                }
            }
        }
        assert(painted =~= target);
    }
}

/// Whatever order the workers finish their tiles in: once every tile of the
/// partition has been written with its pixels' colours (in any order, and a tile
/// written twice does no harm), the buffer holds each pixel's own colour.
pub proof fn lemma_any_order_renders_image(
    m: Map<(u32, u32), [u8; 3]>,
    ts: Seq<Tile>,
    width: int,
    height: int,
    size: int,
    order: Seq<int>,
    shade: spec_fn(u32, u32) -> [u8; 3],
)
    requires
        0 <= width,
        0 <= height,
        0 < size,
        is_tiling(ts, width, height, size),
        m.dom() == grid(width, height),
        forall|i: int| 0 <= i < order.len() ==> 0 <= #[trigger] order[i] < ts.len(),
        forall|k: int| 0 <= k < ts.len() ==> #[trigger] order.contains(k),
    ensures
        paint_in_order(m, ts, order, shade) == shaded(width, height, shade),
{
    lemma_paint_in_order_tracks_tiles(m, ts, width, height, size, order, shade);
    lemma_tiling_partitions(ts, width, height, size);
    let painted = paint_in_order(m, ts, order, shade);
    assert forall|p: (u32, u32)| #[trigger] m.contains_key(p) implies painted[p] == shade(p.0, p.1) by {
        assert(grid(width, height).contains(p));
        let j = tile_index(width, size, p.0 as int, p.1 as int);
        assert(order.contains(j));
    }
    assert(painted =~= shaded(width, height, shade));
}

} // verus!
