//! The decisions of the download scheduler: which tiles of a request get a
//! fetch, and what a finished fetch changes.
use crate::cache::CacheIndex;
use crate::cache::DownloadRecord;
use crate::cache::TileDownloadedEvent;
use crate::neighborhood::expand;
use crate::neighborhood::full_square;
use crate::neighborhood::FetchRequest;
use crate::tile::SlippyTileKey;
use vstd::prelude::*;

verus! {

/// A request dispatches a fetch of a tile with record `rec` unless one is
/// already in flight or, when the cache is used, the tile is already stored.
pub open spec fn dispatches(rec: DownloadRecord, use_cache: bool) -> bool {
    &&& !(rec is InFlight)
    &&& (!use_cache || rec is NotRequested || rec is Failed)
}

/// Marks in flight every tile of `req` that needs a fetch and returns those
/// tiles, each once; the caller starts one fetch for each.
pub fn plan_fetch(cache: &mut CacheIndex, req: &FetchRequest) -> (dispatch: Vec<SlippyTileKey>)
    requires
        req.wf(),
    ensures
        forall|k: SlippyTileKey|
            k.wf() ==> (#[trigger] dispatch@.contains(k) <==> req.covers(k) && dispatches(
                old(cache).record(k),
                req.use_cache,
            )),
        forall|i: int| 0 <= i < dispatch.len() ==> #[trigger] req.covers(dispatch[i]),
        dispatch@.no_duplicates(),
        dispatch.len() <= full_square(req.radius as nat),
        dispatch.len() == 0 <==> forall|k: SlippyTileKey|
            #[trigger] req.covers(k) ==> !dispatches(old(cache).record(k), req.use_cache),
        forall|k: SlippyTileKey|
            k.wf() ==> #[trigger] final(cache).record(k) == if dispatch@.contains(k) {
                DownloadRecord::InFlight
            } else {
                old(cache).record(k)
            },
        forall|k: SlippyTileKey|
            #[trigger] req.covers(k) ==> (final(cache).record(k) is InFlight || (req.use_cache
                && final(cache).record(k) is Completed)),
{
    let cands = expand(req);
    let ghost c0 = *cache;
    let mut dispatch: Vec<SlippyTileKey> = Vec::new();
    let mut i: usize = 0;
    while i < cands.len()
        invariant
            req.wf(),
            i <= cands.len(),
            forall|j: int| 0 <= j < cands.len() ==> #[trigger] req.covers(cands[j]),
            forall|k: SlippyTileKey| #[trigger] req.covers(k) ==> cands@.contains(k),
            cands@.no_duplicates(),
            cands.len() <= full_square(req.radius as nat),
            forall|k: SlippyTileKey|
                k.wf() ==> (#[trigger] dispatch@.contains(k) <==> cands@.take(i as int).contains(k)
                    && dispatches(c0.record(k), req.use_cache)),
            forall|j: int| 0 <= j < dispatch.len() ==> #[trigger] req.covers(dispatch[j]),
            dispatch@.no_duplicates(),
            dispatch.len() <= i,
            forall|k: SlippyTileKey|
                k.wf() ==> #[trigger] cache.record(k) == if dispatch@.contains(k) {
                    DownloadRecord::InFlight
                } else {
                    c0.record(k)
                },
        decreases cands.len() - i,
    {
        let k = cands[i];
        assert(req.covers(cands[i as int]));
        proof {
            if dispatch@.contains(k) {
                let t0 = cands@.take(i as int);
                let j = choose|j: int| 0 <= j < t0.len() && #[trigger] t0[j] == k;
                assert(cands[j] == cands[i as int]);
            }
        }
        let rec = cache.lookup(k);
        let go = match rec {
            DownloadRecord::InFlight => false,
            DownloadRecord::Completed(_) => !req.use_cache,
            _ => true,
        };
        let ghost before = dispatch@;
        let ghost cache_before = *cache;
        if go {
            let _ = cache.mark_in_flight(k);
            dispatch.push(k);
            proof {
                assert(dispatch@[dispatch.len() - 1] == k);
                assert forall|a: int, b: int|
                    0 <= a < dispatch.len() && 0 <= b < dispatch.len() && a != b implies dispatch@[a]
                    != dispatch@[b] by {
                    if a < before.len() && b < before.len() {
                        assert(before[a] != before[b]);
                    } else if a < before.len() {
                        assert(before.contains(before[a]));
                    } else {
                        assert(before.contains(before[b]));
                    }
                }
            }
        }
        proof {
            assert(cands@.take(i + 1) == cands@.take(i as int).push(k));
            assert forall|k2: SlippyTileKey| k2.wf() implies (#[trigger] dispatch@.contains(k2)
                <==> cands@.take(i + 1).contains(k2) && dispatches(c0.record(k2), req.use_cache))
                && cache.record(k2) == (if dispatch@.contains(k2) {
                DownloadRecord::InFlight
            } else {
                c0.record(k2)
            }) by {
                if k2 != k {
                    assert(cache.record(k2) == cache_before.record(k2));
                    if dispatch@.contains(k2) {
                        let j = choose|j: int| 0 <= j < dispatch.len() && dispatch@[j] == k2;
                        assert(before[j] == k2);
                    }
                    if before.contains(k2) {
                        let j = choose|j: int| 0 <= j < before.len() && before[j] == k2;
                        assert(dispatch@[j] == k2);
                    }
                    let t0 = cands@.take(i as int);
                    let t1 = cands@.take(i + 1);
                    if t1.contains(k2) {
                        let j = choose|j: int| 0 <= j < t1.len() && #[trigger] t1[j] == k2;
                        assert(t0[j] == k2);
                    }
                    if t0.contains(k2) {
                        let j = choose|j: int| 0 <= j < t0.len() && #[trigger] t0[j] == k2;
                        assert(t1[j] == k2);
                    }
                } else {
                    assert(cands@.take(i + 1)[i as int] == k);
                    if !go {
                        assert(!before.contains(k));
                    }
                }
            }
        }
        i = i + 1;
    }
    proof {
        assert(cands@.take(cands.len() as int) == cands@);
        if dispatch.len() > 0 {
            let k0 = dispatch[0];
            assert(dispatch@.contains(k0));
            assert(req.covers(k0));
            assert(k0.wf());
            assert(dispatches(c0.record(k0), req.use_cache));
        } else {
            assert forall|k: SlippyTileKey| #[trigger] req.covers(k) implies !dispatches(
                c0.record(k),
                req.use_cache,
            ) by {
                assert(k.wf());
                assert(!dispatch@.contains(k));
            }
        }
        assert forall|k: SlippyTileKey| #[trigger] req.covers(k) implies (
        cache.record(k) is InFlight || (req.use_cache && cache.record(k) is Completed)) by {
            assert(cands@.contains(k));
        }
    }
    dispatch
}

/// Applies what the fetch of `key` reported: on success the path the tile was
/// stored at, on failure the reason. A success of a fetch in flight yields
/// the event that announces the tile; nothing else yields one.
pub fn finish_fetch(cache: &mut CacheIndex, key: SlippyTileKey, outcome: Result<String, String>) -> (r:
    Option<TileDownloadedEvent>)
    requires
        key.wf(),
    ensures
        r is Some <==> outcome is Ok && old(cache).record(key) is InFlight,
        r is Some ==> r->Some_0.key == key && r->Some_0.path == outcome->Ok_0,
        old(cache).record(key) is InFlight ==> final(cache).record(key) == match outcome {
            Ok(path) => DownloadRecord::Completed(path),
            Err(reason) => DownloadRecord::Failed(reason),
        },
        !(old(cache).record(key) is InFlight) ==> *final(cache) == *old(cache),
        old(cache).agrees_except(final(cache), key),
{
    match outcome {
        Ok(path) => match cache.mark_completed(key, path) {
            Ok(event) => Some(event),
            Err(_) => None,
        },
        Err(reason) => {
            let _ = cache.mark_failed(key, reason);
            None
        },
    }
}

/// A request made with the cache in use, asked again once every fetch it
/// dispatched has completed, dispatches no fetch at all. `planned` is the
/// index right after the first request (every tile it covers is then in
/// flight or stored, as `plan_fetch` ensures); `settled` is the index once
/// each of those fetches completed, with stored tiles kept.
pub proof fn lemma_repeat_request_dispatches_nothing(
    planned: &CacheIndex,
    settled: &CacheIndex,
    req: &FetchRequest,
)
    requires
        req.use_cache,
        forall|k: SlippyTileKey|
            #[trigger] req.covers(k) ==> (planned.record(k) is InFlight || planned.record(
                k,
            ) is Completed),
        forall|k: SlippyTileKey|
            #[trigger] req.covers(k) && planned.record(k) is InFlight ==> settled.record(
                k,
            ) is Completed,
        forall|k: SlippyTileKey|
            #[trigger] req.covers(k) && planned.record(k) is Completed ==> settled.record(
                k,
            ) is Completed,
    ensures
        forall|k: SlippyTileKey| #[trigger] req.covers(k) ==> !dispatches(settled.record(k), req.use_cache),
{
    assert forall|k: SlippyTileKey| #[trigger] req.covers(k) implies !dispatches(
        settled.record(k),
        req.use_cache,
    ) by {
        assert(planned.record(k) is InFlight || planned.record(k) is Completed);
    }
}

} // verus!
