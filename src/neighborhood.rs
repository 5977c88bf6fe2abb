//! Fetch requests and the square neighbourhood of tiles that one asks for.
use crate::tile::grid_len;
use crate::tile::grid_size;
use crate::tile::tile_index;
use crate::tile::to_tile;
use crate::tile::SlippyTileKey;
use crate::tile::TileSize;
use crate::tile::WorldPoint;
use crate::tile::MAX_ZOOM;
use vstd::arithmetic::power2::lemma2_to64;
use vstd::arithmetic::power2::lemma_pow2_strictly_increases;
use vstd::prelude::*;

verus! {

/// Asks for every tile within `radius` grid steps of the tile that holds
/// `center`, at one zoom level and tile size.
#[derive(Clone, Copy, Debug, PartialEq, Eq, Structural)]
pub struct FetchRequest {
    pub tile_size: TileSize,
    pub zoom_level: u8,
    pub center: WorldPoint,
    pub radius: u32,
    pub use_cache: bool,
}

impl FetchRequest {
    pub open spec fn wf(self) -> bool {
        self.zoom_level <= MAX_ZOOM
    }

    pub open spec fn center_x(self) -> int {
        tile_index(self.center.x as nat, self.zoom_level as nat) as int
    }

    pub open spec fn center_y(self) -> int {
        tile_index(self.center.y as nat, self.zoom_level as nat) as int
    }

    /// `k` lies on the grid within `radius` columns and `radius` rows of the
    /// centre tile, at the requested zoom and size.
    pub open spec fn covers(self, k: SlippyTileKey) -> bool {
        &&& k.zoom == self.zoom_level
        &&& k.size == self.tile_size
        &&& k.x < grid_len(self.zoom_level as nat)
        &&& k.y < grid_len(self.zoom_level as nat)
        &&& self.center_x() - self.radius <= k.x <= self.center_x() + self.radius
        &&& self.center_y() - self.radius <= k.y <= self.center_y() + self.radius
    }
}

/// Number of tiles in an unclipped square of the given radius: (2R+1)^2.
pub open spec fn full_square(radius: nat) -> nat {
    (2 * radius + 1) * (2 * radius + 1)
}

/// Lowest and highest grid index within `radius` of `c` on a grid of `n`.
fn clip_span(c: u32, radius: u32, n: u32) -> (r: (u32, u32))
    requires
        c < n,
    ensures
        r.0 <= c <= r.1 < n,
        r.0 == if c >= radius { c - radius } else { 0 },
        r.1 == if c + radius < n { c + radius } else { n - 1 },
{
    let lo = if c >= radius { c - radius } else { 0 };
    let hi = if (c as u64) + (radius as u64) < (n as u64) { c + radius } else { n - 1 };
    (lo, hi)
}

/// Every key that `req` covers, each once, row by row.
pub fn expand(req: &FetchRequest) -> (keys: Vec<SlippyTileKey>)
    requires
        req.wf(),
    ensures
        forall|i: int| 0 <= i < keys.len() ==> #[trigger] req.covers(keys[i]),
        forall|k: SlippyTileKey| #[trigger] req.covers(k) ==> keys@.contains(k),
        keys@.no_duplicates(),
        keys.len() <= full_square(req.radius as nat),
{
    let zoom = req.zoom_level;
    let n = grid_size(zoom);
    let centre = to_tile(req.center, zoom, req.tile_size);
    let (lo_x, hi_x) = clip_span(centre.x, req.radius, n);
    let (lo_y, hi_y) = clip_span(centre.y, req.radius, n);
    let ghost h = hi_y - lo_y + 1;
    proof {
        lemma2_to64();
        lemma_pow2_strictly_increases(zoom as nat, 20);
    }
    let mut keys: Vec<SlippyTileKey> = Vec::new();
    let mut x: u32 = lo_x;
    while x <= hi_x
        invariant
            req.wf(),
            n == grid_len(zoom as nat),
            n < 0x10_0000,
            zoom == req.zoom_level,
            centre.x == req.center_x(),
            centre.y == req.center_y(),
            lo_x == if centre.x >= req.radius { centre.x - req.radius } else { 0 },
            hi_x == if centre.x + req.radius < n { centre.x + req.radius } else { n - 1 },
            lo_y == if centre.y >= req.radius { centre.y - req.radius } else { 0 },
            hi_y == if centre.y + req.radius < n { centre.y + req.radius } else { n - 1 },
            lo_x <= centre.x <= hi_x < n,
            lo_y <= centre.y <= hi_y < n,
            h == hi_y - lo_y + 1,
            lo_x <= x <= hi_x + 1,
            keys.len() == (x - lo_x) * h,
            forall|i: int| 0 <= i < keys.len() ==> req.covers(#[trigger] keys[i]),
            forall|i: int| 0 <= i < keys.len() ==> #[trigger] keys[i].x < x,
            forall|k: SlippyTileKey| #[trigger] req.covers(k) && k.x < x ==> keys@.contains(k),
            keys@.no_duplicates(),
        decreases hi_x + 1 - x,
    {
        let mut y: u32 = lo_y;
        while y <= hi_y
            invariant
                req.wf(),
                n == grid_len(zoom as nat),
                n < 0x10_0000,
                zoom == req.zoom_level,
                centre.x == req.center_x(),
                centre.y == req.center_y(),
                lo_x == if centre.x >= req.radius { centre.x - req.radius } else { 0 },
                hi_x == if centre.x + req.radius < n { centre.x + req.radius } else { n - 1 },
                lo_y == if centre.y >= req.radius { centre.y - req.radius } else { 0 },
                hi_y == if centre.y + req.radius < n { centre.y + req.radius } else { n - 1 },
                lo_x <= centre.x <= hi_x < n,
                lo_y <= centre.y <= hi_y < n,
                h == hi_y - lo_y + 1,
                lo_x <= x <= hi_x,
                lo_y <= y <= hi_y + 1,
                keys.len() == (x - lo_x) * h + (y - lo_y),
                forall|i: int| 0 <= i < keys.len() ==> req.covers(#[trigger] keys[i]),
                forall|i: int|
                    0 <= i < keys.len() ==> (#[trigger] keys[i].x < x || (keys[i].x == x
                        && keys[i].y < y)),
                forall|k: SlippyTileKey|
                    #[trigger] req.covers(k) && (k.x < x || (k.x == x && k.y < y))
                        ==> keys@.contains(k),
                keys@.no_duplicates(),
            decreases hi_y + 1 - y,
        {
            let k = SlippyTileKey { zoom, x, y, size: req.tile_size };
            let ghost before = keys@;
            keys.push(k);
            proof {
                assert(keys@[keys.len() - 1] == k);
                assert forall|i: int, j: int|
                    0 <= i < keys.len() && 0 <= j < keys.len() && i != j implies keys@[i]
                    != keys@[j] by {
                    if i < before.len() && j < before.len() {
                        assert(before[i] != before[j]);
                    } else if i < before.len() {
                        assert(req.covers(before[i]));
                    } else {
                        assert(req.covers(before[j]));
                    }
                }
                assert forall|k2: SlippyTileKey|
                    #[trigger] req.covers(k2) && (k2.x < x || (k2.x == x && k2.y < y + 1))
                        implies keys@.contains(k2) by {
                    if k2 == k {
                    } else {
                        assert(before.contains(k2));
                        let j = choose|j: int| 0 <= j < before.len() && before[j] == k2;
                        assert(keys@[j] == k2);
                    }
                }
            }
            y = y + 1;
        }
        proof {
            assert((x - lo_x) * h + h == (x + 1 - lo_x) * h) by (nonlinear_arith);
            assert forall|i: int| 0 <= i < keys.len() implies #[trigger] keys[i].x < x + 1 by {
                assert(keys[i].x < x || keys[i].x == x);
            }
        }
        x = x + 1;
    }
    proof {
        let w = hi_x - lo_x + 1;
        let r = req.radius as int;
        assert(w <= 2 * r + 1 && h <= 2 * r + 1);
        assert(w * h <= (2 * r + 1) * (2 * r + 1)) by (nonlinear_arith)
            requires
                0 <= w <= 2 * r + 1,
                0 <= h <= 2 * r + 1,
        ;
    }
    keys
}

/// A request of radius R stands for at most (2R+1)^2 tiles: 9 for a radius
/// of one, 25 for two, 49 for three.
pub proof fn lemma_square_counts()
    ensures
        full_square(0) == 1,
        full_square(1) == 9,
        full_square(2) == 25,
        full_square(3) == 49,
{
    assert(1 * 1 == 1 && 3 * 3 == 9 && 5 * 5 == 25 && 7 * 7 == 49) by (nonlinear_arith);
}

} // verus!
