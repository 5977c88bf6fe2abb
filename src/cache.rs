//! The per-tile download record index: which tiles were never asked for,
//! which have a fetch in flight, which are stored and which failed.
use crate::tile::grid_len;
use crate::tile::SlippyTileKey;
use crate::tile::TileSize;
use std::collections::HashMap;
use vstd::arithmetic::power2::lemma2_to64;
use vstd::arithmetic::power2::lemma_pow2_strictly_increases;
use vstd::prelude::*;

verus! {

broadcast use vstd::std_specs::hash::group_hash_axioms;

/// What is known of one tile's download.
#[derive(Clone, Debug, PartialEq, Eq)]
pub enum DownloadRecord {
    NotRequested,
    InFlight,
    /// Stored at the given path.
    Completed(String),
    /// The last fetch failed for the given reason.
    Failed(String),
}

/// A state transition that the index refused.
#[derive(Clone, Copy, Debug, PartialEq, Eq, Structural)]
pub enum CacheError {
    /// A fetch for the tile is already in flight.
    AlreadyInFlight,
    /// No fetch for the tile is in flight, so it cannot finish.
    NotInFlight,
}

/// Tells the host that a tile image is stored at `path`.
#[derive(Clone, Debug, PartialEq, Eq)]
pub struct TileDownloadedEvent {
    pub key: SlippyTileKey,
    pub path: String,
}

pub open spec fn size_bit(s: TileSize) -> u64 {
    match s {
        TileSize::Normal => 0,
        TileSize::Large => 1,
    }
}

/// Packs a key into one integer: zoom, column, row and size in disjoint bits.
pub open spec fn key_code(k: SlippyTileKey) -> u64 {
    ((k.zoom as u64) << 43u64) | ((k.x as u64) << 22u64) | ((k.y as u64) << 1u64) | size_bit(
        k.size,
    )
}

proof fn lemma_key_fields_small(k: SlippyTileKey)
    requires
        k.wf(),
    ensures
        k.x < 0x20_0000,
        k.y < 0x20_0000,
        k.zoom < 32,
{
    lemma2_to64();
    lemma_pow2_strictly_increases(k.zoom as nat, 21);
}

proof fn lemma_key_code_injective(a: SlippyTileKey, b: SlippyTileKey)
    requires
        a.wf(),
        b.wf(),
        key_code(a) == key_code(b),
    ensures
        a == b,
{
    lemma_key_fields_small(a);
    lemma_key_fields_small(b);
    let (za, xa, ya, sa) = (a.zoom as u64, a.x as u64, a.y as u64, size_bit(a.size));
    let (zb, xb, yb, sb) = (b.zoom as u64, b.x as u64, b.y as u64, size_bit(b.size));
    assert(za == zb && xa == xb && ya == yb && sa == sb) by (bit_vector)
        requires
            za < 32 && zb < 32,
            xa < 0x20_0000 && xb < 0x20_0000,
            ya < 0x20_0000 && yb < 0x20_0000,
            sa <= 1 && sb <= 1,
            (za << 43u64) | (xa << 22u64) | (ya << 1u64) | sa == (zb << 43u64) | (xb << 22u64) | (
            yb << 1u64) | sb,
    ;
}

fn code_of(k: SlippyTileKey) -> (r: u64)
    ensures
        r == key_code(k),
{
    let s: u64 = match k.size {
        TileSize::Normal => 0,
        TileSize::Large => 1,
    };
    ((k.zoom as u64) << 43u64) | ((k.x as u64) << 22u64) | ((k.y as u64) << 1u64) | s
}

/// The download record of every tile seen in this process.
pub struct CacheIndex {
    records: HashMap<u64, DownloadRecord>,
}

impl CacheIndex {
    /// The record of `k`; a tile never seen is `NotRequested`.
    pub closed spec fn record(&self, k: SlippyTileKey) -> DownloadRecord {
        if self.records@.contains_key(key_code(k)) {
            self.records@[key_code(k)]
        } else {
            DownloadRecord::NotRequested
        }
    }

    /// Every valid tile other than `key` has the same record in both.
    pub open spec fn agrees_except(&self, other: &CacheIndex, key: SlippyTileKey) -> bool {
        forall|k: SlippyTileKey| k.wf() && k != key ==> #[trigger] self.record(k) == other.record(k)
    }

    /// A further `mark_in_flight` of `key` would be refused.
    pub open spec fn rejects_mark(&self, key: SlippyTileKey) -> bool {
        self.record(key) is InFlight
    }

    proof fn lemma_insert_frame(&self, other: &CacheIndex, key: SlippyTileKey, v: DownloadRecord)
        requires
            key.wf(),
            other.records@ == self.records@.insert(key_code(key), v),
        ensures
            other.record(key) == v,
            self.agrees_except(other, key),
    {
        assert forall|k: SlippyTileKey| k.wf() && k != key implies #[trigger] self.record(k)
            == other.record(k) by {
            if key_code(k) == key_code(key) {
                lemma_key_code_injective(k, key);
            }
        }
    }

    /// An index in which no tile has been requested.
    pub fn new() -> (c: CacheIndex)
        ensures
            forall|k: SlippyTileKey| #[trigger] c.record(k) == DownloadRecord::NotRequested,
    {
        CacheIndex { records: HashMap::new() }
    }

    /// The record of `key`.
    pub fn lookup(&self, key: SlippyTileKey) -> (r: DownloadRecord)
        ensures
            r == self.record(key),
    {
        let code = code_of(key);
        match self.records.get(&code) {
            Some(DownloadRecord::InFlight) => DownloadRecord::InFlight,
            Some(DownloadRecord::Completed(path)) => DownloadRecord::Completed(path.clone()),
            Some(DownloadRecord::Failed(reason)) => DownloadRecord::Failed(reason.clone()),
            _ => DownloadRecord::NotRequested,
        }
    }

    fn set(&mut self, key: SlippyTileKey, v: DownloadRecord)
        requires
            key.wf(),
        ensures
            final(self).record(key) == v,
            old(self).agrees_except(final(self), key),
    {
        let code = code_of(key);
        let ghost before = *self;
        self.records.insert(code, v);
        proof {
            before.lemma_insert_frame(self, key, v);
        }
    }

    /// Records that a fetch of `key` has been dispatched. Refused, with
    /// nothing changed, while a fetch of `key` is already in flight.
    pub fn mark_in_flight(&mut self, key: SlippyTileKey) -> (r: Result<(), CacheError>)
        requires
            key.wf(),
        ensures
            r is Err <==> old(self).rejects_mark(key),
            r is Err ==> r == Err::<(), CacheError>(CacheError::AlreadyInFlight) && *final(self)
                == *old(self),
            r is Ok ==> final(self).record(key) == DownloadRecord::InFlight,
            old(self).agrees_except(final(self), key),
    {
        let code = code_of(key);
        match self.records.get(&code) {
            Some(DownloadRecord::InFlight) => Err(CacheError::AlreadyInFlight),
            _ => {
                self.set(key, DownloadRecord::InFlight);
                Ok(())
            },
        }
    }

    /// Records that the fetch of `key` stored the tile at `path`, and hands
    /// back the event that announces it. Refused, with nothing changed,
    /// unless a fetch of `key` is in flight.
    pub fn mark_completed(&mut self, key: SlippyTileKey, path: String) -> (r: Result<
        TileDownloadedEvent,
        CacheError,
    >)
        requires
            key.wf(),
        ensures
            r is Ok <==> old(self).record(key) is InFlight,
            r is Err ==> r == Err::<TileDownloadedEvent, CacheError>(CacheError::NotInFlight)
                && *final(self) == *old(self),
            r is Ok ==> final(self).record(key) == DownloadRecord::Completed(path) && r->Ok_0.key
                == key && r->Ok_0.path == path,
            old(self).agrees_except(final(self), key),
    {
        let code = code_of(key);
        match self.records.get(&code) {
            Some(DownloadRecord::InFlight) => {
                let event = TileDownloadedEvent { key, path: path.clone() };
                self.set(key, DownloadRecord::Completed(path));
                Ok(event)
            },
            _ => Err(CacheError::NotInFlight),
        }
    }

    /// Records that the fetch of `key` failed for `reason`. Refused, with
    /// nothing changed, unless a fetch of `key` is in flight.
    pub fn mark_failed(&mut self, key: SlippyTileKey, reason: String) -> (r: Result<(), CacheError>)
        requires
            key.wf(),
        ensures
            r is Ok <==> old(self).record(key) is InFlight,
            r is Err ==> r == Err::<(), CacheError>(CacheError::NotInFlight) && *final(self)
                == *old(self),
            r is Ok ==> final(self).record(key) == DownloadRecord::Failed(reason),
            old(self).agrees_except(final(self), key),
    {
        let code = code_of(key);
        match self.records.get(&code) {
            Some(DownloadRecord::InFlight) => {
                self.set(key, DownloadRecord::Failed(reason));
                Ok(())
            },
            _ => Err(CacheError::NotInFlight),
        }
    }

    /// Records a tile found already stored at `path`, as when the storage
    /// directory is scanned at startup. Only a tile never requested changes;
    /// the result says whether it did.
    pub fn record_existing(&mut self, key: SlippyTileKey, path: String) -> (r: bool)
        requires
            key.wf(),
        ensures
            r <==> old(self).record(key) is NotRequested,
            r ==> final(self).record(key) == DownloadRecord::Completed(path),
            !r ==> *final(self) == *old(self),
            old(self).agrees_except(final(self), key),
    {
        let code = code_of(key);
        match self.records.get(&code) {
            None => {
                self.set(key, DownloadRecord::Completed(path));
                true
            },
            Some(DownloadRecord::NotRequested) => {
                self.set(key, DownloadRecord::Completed(path));
                true
            },
            _ => false,
        }
    }
}

/// Once `mark_in_flight` has put `key` in flight, every further
/// `mark_in_flight` of `key` is refused for as long as only other tiles
/// change.
pub proof fn lemma_in_flight_rejects_second_mark(
    marked: &CacheIndex,
    later: &CacheIndex,
    key: SlippyTileKey,
    other: SlippyTileKey,
)
    requires
        key.wf(),
        other.wf(),
        other != key,
        marked.record(key) == DownloadRecord::InFlight,
        marked.agrees_except(later, other),
    ensures
        marked.rejects_mark(key),
        later.rejects_mark(key),
{
    assert(marked.record(key) == later.record(key));
}

/// A failed fetch of one tile leaves every other tile's record as it was,
/// so a fetch of another tile that was in flight can still complete.
pub proof fn lemma_failure_spares_other_tiles(
    before: &CacheIndex,
    after: &CacheIndex,
    failed: SlippyTileKey,
    other: SlippyTileKey,
)
    requires
        failed.wf(),
        other.wf(),
        failed != other,
        before.record(other) is InFlight,
        before.agrees_except(after, failed),
    ensures
        after.record(other) is InFlight,
{
    assert(before.record(other) == after.record(other));
}

} // verus!
