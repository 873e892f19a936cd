//! The chunk cache: the resident chunks in the order in which they were
//! admitted, and the bytes they take.

use vstd::prelude::*;
use std::collections::VecDeque;
use std::sync::Arc;
use crate::chunk::UfoChunk;
use crate::config::UfoCoreConfig;
use crate::ids::UfoId;

verus! {

/// Resident bytes of the chunks of `s` together.
pub open spec fn spec_total_size(s: Seq<UfoChunk>) -> int
    decreases s.len(),
{
    if s.len() == 0 {
        0
    } else {
        spec_total_size(s.drop_last()) + s.last().length
    }
}

/// `s` with every chunk of object `id` freed.
pub open spec fn spec_tombstoned(s: Seq<UfoChunk>, id: UfoId) -> Seq<UfoChunk> {
    Seq::new(
        s.len(),
        |i: int|
            if s[i].ufo_id == id {
                s[i].spec_freed()
            } else {
                s[i]
            },
    )
}

/// The total grows by the size of a chunk that is appended.
pub proof fn lemma_total_push(s: Seq<UfoChunk>, c: UfoChunk)
    ensures
        spec_total_size(s.push(c)) == spec_total_size(s) + c.length,
{
    assert(s.push(c).drop_last() =~= s);
}

/// The total is that of two parts.
pub proof fn lemma_total_concat(a: Seq<UfoChunk>, b: Seq<UfoChunk>)
    ensures
        spec_total_size(a + b) == spec_total_size(a) + spec_total_size(b),
    decreases b.len(),
{
    if b.len() == 0 {
        assert(a + b =~= a);
    } else {
        assert((a + b).drop_last() =~= a + b.drop_last());
        lemma_total_concat(a, b.drop_last());
    }
}

/// A total is never negative.
pub proof fn lemma_total_nonnegative(s: Seq<UfoChunk>)
    ensures
        spec_total_size(s) >= 0,
    decreases s.len(),
{
    if s.len() > 0 {
        lemma_total_nonnegative(s.drop_last());
    }
}

/// The total splits at any point into what lies before and behind it.
pub proof fn lemma_total_split(s: Seq<UfoChunk>, n: int)
    requires
        0 <= n <= s.len(),
    ensures
        spec_total_size(s) == spec_total_size(s.take(n)) + spec_total_size(s.skip(n)),
        spec_total_size(s.take(n)) >= 0,
        spec_total_size(s.skip(n)) >= 0,
{
    assert(s.take(n) + s.skip(n) =~= s);
    lemma_total_concat(s.take(n), s.skip(n));
    lemma_total_nonnegative(s.take(n));
    lemma_total_nonnegative(s.skip(n));
}

/// Freeing the chunks of an object never grows the total, and where no chunk
/// of the object holds bytes it changes nothing.
pub proof fn lemma_total_tombstoned(s: Seq<UfoChunk>, id: UfoId)
    ensures
        0 <= spec_total_size(spec_tombstoned(s, id)) <= spec_total_size(s),
    decreases s.len(),
{
    let t = spec_tombstoned(s, id);
    if s.len() > 0 {
        assert(t.drop_last() =~= spec_tombstoned(s.drop_last(), id));
        lemma_total_tombstoned(s.drop_last(), id);
    }
}

/// Freeing the chunks of an object twice is freeing them once.
pub proof fn lemma_tombstoned_idempotent(s: Seq<UfoChunk>, id: UfoId)
    ensures
        spec_tombstoned(spec_tombstoned(s, id), id) == spec_tombstoned(s, id),
{
    assert(spec_tombstoned(spec_tombstoned(s, id), id) =~= spec_tombstoned(s, id));
}

/// The chunk cache.
pub struct UfoChunks {
    loaded_chunks: VecDeque<UfoChunk>,
    used_memory: usize,
    config: Arc<UfoCoreConfig>,
}

impl UfoChunks {
    /// The chunks in the cache, oldest first.
    pub closed spec fn chunks(&self) -> Seq<UfoChunk> {
        self.loaded_chunks@
    }

    /// The bytes that the cache accounts for.
    pub closed spec fn used(&self) -> usize {
        self.used_memory
    }

    /// The configuration that the cache was made with.
    pub closed spec fn config(&self) -> UfoCoreConfig {
        *self.config
    }

    /// The cache accounts for exactly the bytes of its chunks.
    pub closed spec fn wf(&self) -> bool {
        self.used_memory == spec_total_size(self.loaded_chunks@)
    }

    /// What well-formedness says.
    pub proof fn lemma_wf(&self)
        ensures
            self.wf() <==> self.used() == spec_total_size(self.chunks()),
    {
    }

    /// An empty cache.
    pub fn new(config: Arc<UfoCoreConfig>) -> (cache: UfoChunks)
        ensures
            cache.wf(),
            cache.chunks() == Seq::<UfoChunk>::empty(),
            cache.used() == 0,
            cache.config() == *config,
    {
        UfoChunks { loaded_chunks: VecDeque::new(), used_memory: 0, config }
    }

    /// The bytes that the cache accounts for.
    pub fn used_memory(&self) -> (bytes: usize)
        ensures
            bytes == self.used(),
    {
        self.used_memory
    }

    /// The bytes down to which an eviction pass reclaims.
    pub fn low_watermark(&self) -> (bytes: usize)
        ensures
            bytes == self.config().low_watermark,
    {
        self.config.low_watermark
    }

    /// The bytes above which chunks are evicted.
    pub fn high_watermark(&self) -> (bytes: usize)
        ensures
            bytes == self.config().high_watermark,
    {
        self.config.high_watermark
    }

    /// Number of chunks in the cache, freed ones included.
    pub fn len(&self) -> (n: usize)
        ensures
            n == self.chunks().len(),
    {
        self.loaded_chunks.len()
    }

    /// Admits `chunk` as the newest. The caller has made room before.
    pub fn add(&mut self, chunk: UfoChunk)
        requires
            old(self).wf(),
            old(self).used() + chunk.length <= usize::MAX,
        ensures
            final(self).wf(),
            final(self).chunks() == old(self).chunks().push(chunk),
            final(self).used() == old(self).used() + chunk.length,
            final(self).config() == old(self).config(),
    {
        proof {
            lemma_total_push(self.loaded_chunks@, chunk);
        }
        self.used_memory += chunk.size();
        self.loaded_chunks.push_back(chunk);
    }

    /// Frees every chunk of object `ufo_id` without writing anything back, and
    /// accounts for the bytes anew.
    pub fn drop_ufo_chunks(&mut self, ufo_id: UfoId)
        requires
            old(self).wf(),
        ensures
            final(self).wf(),
            final(self).chunks() == spec_tombstoned(old(self).chunks(), ufo_id),
            final(self).used() == spec_total_size(final(self).chunks()),
            final(self).used() <= old(self).used(),
            final(self).config() == old(self).config(),
    {
        let ghost before: Seq<UfoChunk> = self.loaded_chunks@;
        let ghost after: Seq<UfoChunk> = spec_tombstoned(before, ufo_id);
        let n: usize = self.loaded_chunks.len();
        let mut sum: usize = 0;
        let mut i: usize = 0;
        proof {
            lemma_total_tombstoned(before, ufo_id);
            assert(after.take(0) =~= Seq::<UfoChunk>::empty());
            assert(before.skip(0) =~= before);
        }
        while i < n
            invariant
                i <= n,
                n == before.len(),
                after == spec_tombstoned(before, ufo_id),
                self.loaded_chunks@ == before.skip(i as int) + after.take(i as int),
                sum == spec_total_size(after.take(i as int)),
                spec_total_size(after) <= spec_total_size(before) <= usize::MAX,
                self.config == old(self).config,
            decreases n - i,
        {
            let front = self.loaded_chunks.pop_front();
            let mut chunk: UfoChunk = front.unwrap();
            assert(chunk == before[i as int]);
            if chunk.ufo_id() == ufo_id {
                chunk.mark_freed();
            }
            assert(chunk == after[i as int]);
            proof {
                assert(after.take(i + 1) =~= after.take(i as int).push(chunk));
                lemma_total_push(after.take(i as int), chunk);
                lemma_total_split(after, i + 1);
                assert(before.skip(i as int).skip(1) =~= before.skip(i + 1));
            }
            sum = sum + chunk.size();
            self.loaded_chunks.push_back(chunk);
            assert(self.loaded_chunks@ =~= before.skip(i + 1) + after.take(i + 1));
            i = i + 1;
        }
        proof {
            assert(after.take(n as int) =~= after);
            assert(before.skip(n as int) + after.take(n as int) =~= after);
        }
        self.used_memory = sum;
    }

    /// How many of the oldest chunks of `s` must go so that the rest takes at
    /// most `low` bytes: the least such number.
    pub open spec fn spec_evict_ct(s: Seq<UfoChunk>, low: int) -> int
        decreases s.len(),
    {
        if s.len() == 0 || spec_total_size(s) <= low {
            0
        } else {
            1 + Self::spec_evict_ct(s.skip(1), low)
        }
    }

    /// `spec_evict_ct` is the least number of oldest chunks whose removal
    /// brings the total down to `low`.
    pub proof fn lemma_evict_ct(s: Seq<UfoChunk>, low: int)
        requires
            0 <= low,
        ensures
            0 <= Self::spec_evict_ct(s, low) <= s.len(),
            spec_total_size(s.skip(Self::spec_evict_ct(s, low))) <= low,
            forall|k: int|
                0 <= k < Self::spec_evict_ct(s, low) ==> spec_total_size(#[trigger] s.skip(k))
                    > low,
        decreases s.len(),
    {
        if s.len() == 0 {
            assert(s.skip(0) =~= s);
        } else if spec_total_size(s) <= low {
            assert(s.skip(0) =~= s);
        } else {
            let rest = s.skip(1);
            Self::lemma_evict_ct(rest, low);
            let n = Self::spec_evict_ct(rest, low);
            assert(s.skip(n + 1) =~= rest.skip(n));
            assert forall|k: int| 0 <= k < n + 1 implies spec_total_size(#[trigger] s.skip(k))
                > low by {
                if k == 0 {
                    assert(s.skip(0) =~= s);
                } else {
                    assert(s.skip(k) =~= rest.skip(k - 1));
                }
            }
        }
    }

    /// Takes the oldest chunks out of the cache until it accounts for no more
    /// than the low watermark, and hands them out, oldest first, as they were:
    /// the caller evicts each. Chunks that were freed before count for nothing
    /// and leave with the others.
    pub fn free_until_low_water_mark(&mut self) -> (evicted: Vec<UfoChunk>)
        requires
            old(self).wf(),
        ensures
            final(self).wf(),
            final(self).config() == old(self).config(),
            final(self).used() <= old(self).config().low_watermark,
            evicted@.len() == Self::spec_evict_ct(
                old(self).chunks(),
                old(self).config().low_watermark as int,
            ),
            evicted@ == old(self).chunks().take(evicted@.len() as int),
            final(self).chunks() == old(self).chunks().skip(evicted@.len() as int),
            final(self).used() == old(self).used() - spec_total_size(evicted@),
    {
        let ghost before: Seq<UfoChunk> = self.loaded_chunks@;
        let low_water_mark: usize = self.config.low_watermark;
        let mut evicted: Vec<UfoChunk> = Vec::new();
        proof {
            assert(before.take(0) =~= Seq::<UfoChunk>::empty());
            assert(before.skip(0) =~= before);
        }
        while self.used_memory > low_water_mark
            invariant
                evicted@.len() <= before.len(),
                evicted@ == before.take(evicted@.len() as int),
                self.loaded_chunks@ == before.skip(evicted@.len() as int),
                self.used_memory == spec_total_size(self.loaded_chunks@),
                self.config == old(self).config,
                low_water_mark == old(self).config().low_watermark,
                Self::spec_evict_ct(before, low_water_mark as int) == evicted@.len()
                    + Self::spec_evict_ct(self.loaded_chunks@, low_water_mark as int),
            decreases self.loaded_chunks@.len(),
        {
            let ghost rest: Seq<UfoChunk> = self.loaded_chunks@;
            let ghost n: int = evicted@.len() as int;
            match self.loaded_chunks.pop_front() {
                None => {
                    assert(false);
                },
                Some(chunk) => {
                    proof {
                        assert(chunk == before[n]);
                        assert(rest =~= seq![chunk] + rest.skip(1));
                        lemma_total_concat(seq![chunk], rest.skip(1));
                        lemma_total_push(Seq::<UfoChunk>::empty(), chunk);
                        assert(seq![chunk] =~= Seq::<UfoChunk>::empty().push(chunk));
                        lemma_total_nonnegative(rest.skip(1));
                        assert(before.take(n + 1) =~= before.take(n).push(chunk));
                        assert(rest.skip(1) =~= before.skip(n + 1));
                    }
                    let size: usize = chunk.size();
                    self.used_memory -= size;
                    evicted.push(chunk);
                },
            }
        }
        proof {
            let n: int = evicted@.len() as int;
            lemma_total_split(before, n);
        }
        evicted
    }
}

} // verus!
