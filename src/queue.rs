//! Tiles waiting for a fetch, started in order of arrival while fewer than
//! a fixed number of fetches run, so that a tile server is not flooded.
use crate::tile::SlippyTileKey;
use std::collections::VecDeque;
use vstd::prelude::*;

verus! {

/// How many fetches a queue lets run at once unless told otherwise.
pub const DEFAULT_FETCH_LIMIT: usize = 4;

pub struct FetchQueue {
    waiting: VecDeque<SlippyTileKey>,
    running: usize,
    limit: usize,
}

impl FetchQueue {
    /// Tiles waiting for a fetch, the next one first.
    pub closed spec fn waiting(&self) -> Seq<SlippyTileKey> {
        self.waiting@
    }

    /// Fetches started and not yet finished.
    pub closed spec fn running(&self) -> nat {
        self.running as nat
    }

    /// The most fetches that may run at once.
    pub closed spec fn limit(&self) -> nat {
        self.limit as nat
    }

    /// Never more fetches running than the limit, which is at least one.
    pub open spec fn wf(&self) -> bool {
        &&& 0 < self.limit()
        &&& self.running() <= self.limit()
    }

    /// An empty queue that lets `limit` fetches run at once.
    pub fn new(limit: usize) -> (q: FetchQueue)
        requires
            limit > 0,
        ensures
            q.wf(),
            q.waiting() == Seq::<SlippyTileKey>::empty(),
            q.running() == 0,
            q.limit() == limit,
    {
        FetchQueue { waiting: VecDeque::new(), running: 0, limit }
    }

    /// Puts `keys` at the back of the queue, in their order.
    pub fn enqueue(&mut self, keys: Vec<SlippyTileKey>)
        requires
            old(self).wf(),
        ensures
            final(self).wf(),
            final(self).waiting() == old(self).waiting() + keys@,
            final(self).running() == old(self).running(),
            final(self).limit() == old(self).limit(),
    {
        let mut i: usize = 0;
        let ghost start = self.waiting@;
        while i < keys.len()
            invariant
                i <= keys.len(),
                self.waiting@ == start + keys@.take(i as int),
                self.running == old(self).running,
                self.limit == old(self).limit,
            decreases keys.len() - i,
        {
            self.waiting.push_back(keys[i]);
            proof {
                assert(keys@.take(i + 1) == keys@.take(i as int).push(keys[i as int]));
            }
            i = i + 1;
        }
        proof {
            assert(keys@.take(keys.len() as int) == keys@);
        }
    }

    /// Starts the fetch of the next waiting tile when one may start: a tile
    /// is waiting and fewer fetches than the limit run.
    pub fn start_next(&mut self) -> (r: Option<SlippyTileKey>)
        requires
            old(self).wf(),
        ensures
            final(self).wf(),
            final(self).limit() == old(self).limit(),
            r is Some <==> old(self).waiting().len() > 0 && old(self).running() < old(self).limit(),
            r is Some ==> r->Some_0 == old(self).waiting()[0] && final(self).waiting() == old(
                self,
            ).waiting().drop_first() && final(self).running() == old(self).running() + 1,
            r is None ==> final(self).waiting() == old(self).waiting() && final(self).running()
                == old(self).running(),
    {
        if self.running >= self.limit {
            return None;
        }
        match self.waiting.pop_front() {
            Some(k) => {
                self.running = self.running + 1;
                Some(k)
            },
            None => None,
        }
    }

    /// Records that a running fetch ended, successfully or not. Returns
    /// false, with nothing changed, when no fetch was running.
    pub fn finish_one(&mut self) -> (r: bool)
        requires
            old(self).wf(),
        ensures
            final(self).wf(),
            final(self).limit() == old(self).limit(),
            final(self).waiting() == old(self).waiting(),
            r <==> old(self).running() > 0,
            final(self).running() == if r {
                (old(self).running() - 1) as nat
            } else {
                old(self).running()
            },
    {
        if self.running == 0 {
            false
        } else {
            self.running = self.running - 1;
            true
        }
    }

    /// Number of tiles waiting.
    pub fn waiting_len(&self) -> (r: usize)
        ensures
            r == self.waiting().len(),
    {
        self.waiting.len()
    }

    /// Number of fetches running.
    pub fn running_count(&self) -> (r: usize)
        ensures
            r == self.running(),
    {
        self.running
    }
}

} // verus!
