//! Tile keys and the integer geometry of the Web-Mercator tile grid.
use vstd::arithmetic::div_mod::lemma_div_by_multiple;
use vstd::arithmetic::div_mod::lemma_multiply_divide_lt;
use vstd::arithmetic::power2::lemma2_to64;
use vstd::arithmetic::power2::lemma_pow2_adds;
use vstd::arithmetic::power2::lemma_pow2_strictly_increases;
use vstd::arithmetic::power2::lemma_pow2_unfold;
use vstd::arithmetic::power2::pow2;
use vstd::prelude::*;

verus! {

/// The deepest zoom level a request may ask for.
pub const MAX_ZOOM: u8 = 19;

/// Edge length of one world unit: a world position is a fraction of the
/// world square in units of 2^-32.
pub const WORLD_UNITS: u64 = 4294967296;

/// The pixel size of a tile image.
#[derive(Clone, Copy, Debug, PartialEq, Eq, Structural, Hash)]
pub enum TileSize {
    Normal,
    Large,
}

impl TileSize {
    pub open spec fn pixels(self) -> nat {
        match self {
            TileSize::Normal => 256,
            TileSize::Large => 512,
        }
    }

    /// Edge length of a tile of this size, in pixels.
    pub fn to_pixels(&self) -> (r: u32)
        ensures
            r == self.pixels(),
    {
        match self {
            TileSize::Normal => 256,
            TileSize::Large => 512,
        }
    }
}

/// Number of tiles along one edge of the grid at `zoom`.
pub open spec fn grid_len(zoom: nat) -> nat {
    pow2(zoom)
}

/// Identifies one tile image: zoom level, column, row and pixel size.
#[derive(Clone, Copy, Debug, PartialEq, Eq, Structural, Hash)]
pub struct SlippyTileKey {
    pub zoom: u8,
    pub x: u32,
    pub y: u32,
    pub size: TileSize,
}

impl SlippyTileKey {
    /// The zoom level is supported and the column and row lie on its grid.
    pub open spec fn wf(self) -> bool {
        &&& self.zoom <= MAX_ZOOM
        &&& self.x < grid_len(self.zoom as nat)
        &&& self.y < grid_len(self.zoom as nat)
    }
}

/// A position on the Web-Mercator world square, measured from the top-left
/// corner as a fraction of the world edge in units of 2^-32.
#[derive(Clone, Copy, Debug, PartialEq, Eq, Structural, Hash)]
pub struct WorldPoint {
    pub x: u32,
    pub y: u32,
}

impl WorldPoint {
    /// The point where the equator meets the prime meridian.
    pub fn origin() -> (r: WorldPoint)
        ensures
            r.x == pow2(31),
            r.y == pow2(31),
    {
        proof {
            lemma2_to64();
        }
        WorldPoint { x: 2147483648, y: 2147483648 }
    }
}

/// Longitude 180 degrees east, in units of 10^-7 degree.
pub const MAX_LON_E7: i64 = 1800000000;

/// Longitude `lon_e7` (in 10^-7 degree) held to [-180, 180] degrees.
pub open spec fn clamp_lon(lon_e7: int) -> int {
    if lon_e7 < -MAX_LON_E7 {
        -MAX_LON_E7
    } else if lon_e7 > MAX_LON_E7 {
        MAX_LON_E7 as int
    } else {
        lon_e7
    }
}

/// The world column of a longitude: floor((lon + 180) / 360 * 2^32), with
/// the antimeridian at the east edge kept on the last column.
pub open spec fn world_x_of(lon_e7: int) -> nat {
    let w = ((clamp_lon(lon_e7) + MAX_LON_E7) * WORLD_UNITS) / (2 * MAX_LON_E7);
    if w >= WORLD_UNITS {
        (WORLD_UNITS - 1) as nat
    } else {
        w as nat
    }
}

/// The world column of longitude `lon_e7`, given in units of 10^-7 degree;
/// a longitude outside [-180, 180] degrees is clamped.
pub fn world_x_of_longitude(lon_e7: i64) -> (r: u32)
    ensures
        r == world_x_of(lon_e7 as int),
{
    let l: i64 = if lon_e7 < -MAX_LON_E7 {
        -MAX_LON_E7
    } else if lon_e7 > MAX_LON_E7 {
        MAX_LON_E7
    } else {
        lon_e7
    };
    let shifted: u64 = (l + MAX_LON_E7) as u64;
    proof {
        assert(shifted * WORLD_UNITS <= 3600000000u64 * 4294967296u64) by (nonlinear_arith)
            requires
                shifted <= 3600000000u64,
        ;
    }
    let w: u64 = (shifted * WORLD_UNITS) / (2 * MAX_LON_E7 as u64);
    if w >= WORLD_UNITS {
        (WORLD_UNITS - 1) as u32
    } else {
        w as u32
    }
}

/// The prime meridian lies exactly halfway across the world.
pub proof fn lemma_prime_meridian_is_half_world()
    ensures
        world_x_of(0) == pow2(31),
{
    lemma2_to64();
    assert(1800000000 * 4294967296int == 2147483648int * 3600000000int) by (nonlinear_arith);
    lemma_div_by_multiple(2147483648int, 3600000000int);
}

/// The tile column (or row) that holds world coordinate `w` at `zoom`:
/// floor(w / 2^32 * 2^zoom).
pub open spec fn tile_index(w: nat, zoom: nat) -> nat {
    (w * grid_len(zoom)) / (WORLD_UNITS as nat)
}

/// 2^zoom, the number of tiles along one edge of the grid.
pub fn grid_size(zoom: u8) -> (r: u32)
    requires
        zoom <= MAX_ZOOM,
    ensures
        r == grid_len(zoom as nat),
{
    let mut r: u32 = 1;
    let mut i: u8 = 0;
    proof {
        lemma2_to64();
    }
    while i < zoom
        invariant
            i <= zoom <= MAX_ZOOM,
            r == pow2(i as nat),
        decreases zoom - i,
    {
        proof {
            lemma_pow2_unfold((i + 1) as nat);
            lemma_pow2_strictly_increases(i as nat, 19);
            lemma2_to64();
        }
        r = r * 2;
        i = i + 1;
    }
    r
}

proof fn lemma_tile_index_on_grid(w: nat, zoom: nat)
    requires
        w < WORLD_UNITS,
    ensures
        tile_index(w, zoom) < grid_len(zoom),
{
    lemma2_to64();
    let g = grid_len(zoom) as int;
    assert(g > 0) by {
        vstd::arithmetic::power2::lemma_pow2_pos(zoom);
    }
    assert((w * g) < WORLD_UNITS * g) by (nonlinear_arith)
        requires
            w < WORLD_UNITS,
            g > 0,
    ;
    lemma_multiply_divide_lt((w * g) as int, WORLD_UNITS as int, g);
}

/// The tile of size `size` that holds `point` at `zoom`.
pub fn to_tile(point: WorldPoint, zoom: u8, size: TileSize) -> (r: SlippyTileKey)
    requires
        zoom <= MAX_ZOOM,
    ensures
        r.wf(),
        r.zoom == zoom,
        r.size == size,
        r.x == tile_index(point.x as nat, zoom as nat),
        r.y == tile_index(point.y as nat, zoom as nat),
{
    let g = grid_size(zoom);
    proof {
        lemma2_to64();
        lemma_pow2_strictly_increases(zoom as nat, 20);
        lemma_tile_index_on_grid(point.x as nat, zoom as nat);
        lemma_tile_index_on_grid(point.y as nat, zoom as nat);
        assert((point.x as u64) * (g as u64) < 0x10_0000_0000_0000) by (nonlinear_arith)
            requires
                point.x < 0x1_0000_0000u64,
                g < 0x10_0000u64,
        ;
        assert((point.y as u64) * (g as u64) < 0x10_0000_0000_0000) by (nonlinear_arith)
            requires
                point.y < 0x1_0000_0000u64,
                g < 0x10_0000u64,
        ;
    }
    let x = ((point.x as u64) * (g as u64)) / WORLD_UNITS;
    let y = ((point.y as u64) * (g as u64)) / WORLD_UNITS;
    SlippyTileKey { zoom, x: x as u32, y: y as u32, size }
}

/// `to_tile` is a function of its arguments: two results of it for the same
/// point, zoom and size are the same key.
pub proof fn lemma_to_tile_deterministic(
    point: WorldPoint,
    zoom: u8,
    size: TileSize,
    r1: SlippyTileKey,
    r2: SlippyTileKey,
)
    requires
        r1.zoom == zoom && r1.size == size,
        r1.x == tile_index(point.x as nat, zoom as nat),
        r1.y == tile_index(point.y as nat, zoom as nat),
        r2.zoom == zoom && r2.size == size,
        r2.x == tile_index(point.x as nat, zoom as nat),
        r2.y == tile_index(point.y as nat, zoom as nat),
    ensures
        r1 == r2,
{
}

/// The world's centre falls on tile (2^(zoom-1), 2^(zoom-1)) at every zoom
/// level from 1 on.
pub proof fn lemma_origin_is_centre_tile(zoom: nat)
    requires
        1 <= zoom <= MAX_ZOOM,
    ensures
        tile_index(pow2(31), zoom) == pow2((zoom - 1) as nat),
{
    let z1 = (zoom - 1) as nat;
    lemma_pow2_adds(31, zoom);
    lemma_pow2_adds(z1, 32);
    assert(31 + zoom == z1 + 32);
    lemma2_to64();
    vstd::arithmetic::power2::lemma_pow2_pos(z1);
    lemma_div_by_multiple(pow2(z1) as int, pow2(32) as int);
}

/// Pixel offset at which `key` is drawn relative to `origin`:
/// (origin.x - key.x) * tile_px horizontally, the same for rows vertically.
pub open spec fn pixel_offset(key: SlippyTileKey, origin: SlippyTileKey, tile_px: nat) -> (int, int) {
    (
        (origin.x as int - key.x as int) * tile_px,
        (origin.y as int - key.y as int) * tile_px,
    )
}

/// Pixel offset of `key`'s tile from `origin`'s tile, for tiles `tile_px`
/// pixels wide.
pub fn to_pixel_offset(key: SlippyTileKey, origin: SlippyTileKey, tile_px: u32) -> (r: (i64, i64))
    requires
        key.wf(),
        origin.wf(),
    ensures
        (r.0 as int, r.1 as int) == pixel_offset(key, origin, tile_px as nat),
{
    proof {
        lemma2_to64();
        lemma_pow2_strictly_increases(key.zoom as nat, 20);
        lemma_pow2_strictly_increases(origin.zoom as nat, 20);
    }
    let dx = origin.x as i64 - key.x as i64;
    let dy = origin.y as i64 - key.y as i64;
    proof {
        assert(dx * (tile_px as int) < 0x8000_0000_0000_0000 && dx * (tile_px as int) > -0x8000_0000_0000_0000)
            by (nonlinear_arith)
            requires
                -0x10_0000 < dx < 0x10_0000,
                0 <= tile_px < 0x1_0000_0000,
        ;
        assert(dy * (tile_px as int) < 0x8000_0000_0000_0000 && dy * (tile_px as int) > -0x8000_0000_0000_0000)
            by (nonlinear_arith)
            requires
                -0x10_0000 < dy < 0x10_0000,
                0 <= tile_px < 0x1_0000_0000,
        ;
    }
    (dx * tile_px as i64, dy * tile_px as i64)
}

/// A tile one column to the right of the origin is drawn exactly one tile
/// width to the left of it, on the same row.
pub proof fn lemma_right_neighbour_offset(origin: SlippyTileKey, key: SlippyTileKey, tile_px: nat)
    requires
        key.x == origin.x + 1,
        key.y == origin.y,
    ensures
        pixel_offset(key, origin, tile_px) == (-(tile_px as int), 0int),
{
    assert((origin.x as int - key.x as int) * tile_px == -(tile_px as int)) by (nonlinear_arith)
        requires
            origin.x as int - key.x as int == -1,
    ;
    assert((origin.y as int - key.y as int) * tile_px == 0) by (nonlinear_arith)
        requires
            origin.y as int - key.y as int == 0,
    ;
}

} // verus!
