//! A lazily extended, block-partitioned cache of Fibonacci numbers.
//!
//! Values are kept in blocks of `FIBONACCI_BLOCK_SIZE` consecutive entries;
//! block `k` holds the values at indices `k * FIBONACCI_BLOCK_SIZE ..`. The
//! cache is filled densely from index 0 upwards, so every block but the last
//! is full and every stored entry is the true sequence value.

use vstd::prelude::*;

verus! {

/// Number of consecutive sequence values held by one block.
pub const FIBONACCI_BLOCK_SIZE: usize = 10;

/// Largest index whose Fibonacci number fits in a `u64`.
pub const MAX_FIBONACCI_INDEX: u32 = 93;

/// The Fibonacci sequence: `fib(0) = 0`, `fib(1) = 1`,
/// `fib(n) = fib(n - 1) + fib(n - 2)`.
pub open spec fn fib(n: nat) -> nat
    decreases n,
{
    if n <= 1 {
        n
    } else {
        fib((n - 1) as nat) + fib((n - 2) as nat)
    }
}

proof fn lemma_fib_grows(i: nat, j: nat)
    requires
        i <= j,
    ensures
        fib(i) <= fib(j),
    decreases j,
{
    if i < j {
        lemma_fib_grows(i, (j - 1) as nat);
        if j >= 2 {
            assert(fib(j) == fib((j - 1) as nat) + fib((j - 2) as nat));
        }
    }
}

/// Consecutive pairs `(fib(n), fib(n + 1))`, built bottom-up.
spec fn fib_pair(n: nat) -> (nat, nat)
    decreases n,
{
    if n == 0 {
        (0, 1)
    } else {
        let p = fib_pair((n - 1) as nat);
        (p.1, p.0 + p.1)
    }
}

proof fn lemma_fib_pair(n: nat)
    ensures
        fib_pair(n) == (fib(n), fib(n + 1)),
    decreases n,
{
    if n > 0 {
        lemma_fib_pair((n - 1) as nat);
    }
}

proof fn lemma_fib_fits(n: nat)
    requires
        n <= MAX_FIBONACCI_INDEX,
    ensures
        fib(n) <= u64::MAX,
{
    reveal_with_fuel(fib_pair, 11);
    assert(fib_pair(10) == (55nat, 89nat));
    assert(fib_pair(20) == (6765nat, 10946nat));
    assert(fib_pair(30) == (832040nat, 1346269nat));
    assert(fib_pair(40) == (102334155nat, 165580141nat));
    assert(fib_pair(50) == (12586269025nat, 20365011074nat));
    assert(fib_pair(60) == (1548008755920nat, 2504730781961nat));
    assert(fib_pair(70) == (190392490709135nat, 308061521170129nat));
    assert(fib_pair(80) == (23416728348467685nat, 37889062373143906nat));
    assert(fib_pair(90) == (2880067194370816120nat, 4660046610375530309nat));
    assert(fib_pair(93) == (12200160415121876738nat, 19740274219868223167nat));
    lemma_fib_pair(93);
    lemma_fib_grows(n, 93);
}

/// Each sequence value is the sum of the two before it, from the seeds
/// `0` and `1`; the cache returns exactly these values.
pub proof fn lemma_sequence_recurrence(n: nat)
    requires
        2 <= n <= MAX_FIBONACCI_INDEX,
    ensures
        fib(n) == fib((n - 1) as nat) + fib((n - 2) as nat),
        fib(0) == 0,
        fib(1) == 1,
        fib(n) <= u64::MAX,
{
    lemma_fib_fits(n);
}

/// Blocks are dense from index 0: all but the last are full, the last holds
/// between one and `FIBONACCI_BLOCK_SIZE` entries, and every entry is the
/// sequence value at its global index.
spec fn blocks_well_laid(blocks: Seq<Vec<u64>>) -> bool {
    &&& blocks.len() >= 1
    &&& forall|b: int| 0 <= b < blocks.len() - 1 ==> (#[trigger] blocks[b]@).len() == 10
    &&& 1 <= blocks.last()@.len() <= 10
    &&& forall|b: int, o: int|
        0 <= b < blocks.len() && 0 <= o < blocks[b]@.len() ==> #[trigger] blocks[b]@[o] == fib(
            (b * 10 + o) as nat,
        )
}

/// Number of values held by well-laid blocks.
spec fn blocks_filled(blocks: Seq<Vec<u64>>) -> nat {
    ((blocks.len() - 1) * 10 + blocks.last()@.len()) as nat
}

/// Memoization cache for the Fibonacci sequence.
pub struct FibonacciCache {
    blocks: Vec<Vec<u64>>,
    highest_computed: u32,
}

/// Snapshot of a cache's size.
pub struct FibonacciCacheStats {
    pub blocks_loaded: usize,
    pub highest_computed: u32,
    pub total_values: usize,
}

impl FibonacciCache {
    /// Highest index whose value the cache holds.
    pub closed spec fn highest(&self) -> nat {
        self.highest_computed as nat
    }

    /// Value stored at index `i` (meaningful for `i <= highest()`).
    pub closed spec fn stored(&self, i: nat) -> u64 {
        self.blocks@[(i / 10) as int]@[(i % 10) as int]
    }

    /// The cache holds exactly the values at indices `0..=highest()`.
    pub closed spec fn wf(&self) -> bool {
        &&& blocks_well_laid(self.blocks@)
        &&& blocks_filled(self.blocks@) == self.highest_computed + 1
        &&& 1 <= self.highest_computed <= MAX_FIBONACCI_INDEX
    }

    /// Every stored value of a well-formed cache is the sequence value.
    pub proof fn lemma_stored_values(&self, i: nat)
        requires
            self.wf(),
            i <= self.highest(),
        ensures
            self.stored(i) == fib(i),
    {
        let b = (i / 10) as int;
        let o = (i % 10) as int;
        assert(self.blocks@[b]@.len() > o);
        assert(b * 10 + o == i);
    }

    /// A cache seeded with the values at indices 0 and 1.
    pub fn new() -> (r: Self)
        ensures
            r.wf(),
            r.highest() == 1,
    {
        let mut blocks: Vec<Vec<u64>> = Vec::new();
        blocks.push(vec![0u64, 1u64]);
        let r = FibonacciCache { blocks, highest_computed: 1 };
        assert(r.blocks@[0]@[0] == 0 && r.blocks@[0]@[1] == 1);
        proof {
            reveal_with_fuel(fib, 2);
        }
        r
    }

    fn get_block_index(n: u32) -> (r: usize)
        ensures
            r == n / 10,
    {
        n as usize / FIBONACCI_BLOCK_SIZE
    }

    fn get_block_offset(n: u32) -> (r: usize)
        ensures
            r == n % 10,
    {
        n as usize % FIBONACCI_BLOCK_SIZE
    }

    /// The value at `n`, if the blocks hold it.
    fn get_value(&self, n: u32) -> (r: Option<u64>)
        requires
            blocks_well_laid(self.blocks@),
        ensures
            n < blocks_filled(self.blocks@) ==> (r matches Some(v) && v == fib(n as nat)),
            n >= blocks_filled(self.blocks@) ==> r is None,
    {
        let block_idx = Self::get_block_index(n);
        let block_offset = Self::get_block_offset(n);
        if block_idx < self.blocks.len() {
            let block = &self.blocks[block_idx];
            if block_offset < block.len() {
                proof {
                    assert(block_idx * 10 + block_offset == n);
                    let b = block_idx as int;
                    assert(self.blocks@[b]@[block_offset as int] == fib(n as nat));
                    if b < self.blocks@.len() - 1 {
                        assert(n < blocks_filled(self.blocks@));
                    }
                }
                return Some(block[block_offset]);
            }
        }
        None
    }

    /// Appends the value at `n`, the first index the blocks do not hold yet.
    /// A block is grown with zero placeholders up to the needed offset, and
    /// the entry at that offset is overwritten before the block is stored.
    fn store_value(&mut self, n: u32, value: u64)
        requires
            blocks_well_laid(old(self).blocks@),
            n == blocks_filled(old(self).blocks@),
            value == fib(n as nat),
        ensures
            blocks_well_laid(final(self).blocks@),
            blocks_filled(final(self).blocks@) == n + 1,
            final(self).highest_computed == old(self).highest_computed,
    {
        let block_idx = Self::get_block_index(n);
        let block_offset = Self::get_block_offset(n);
        let ghost prev = self.blocks@;
        let mut block: Vec<u64> = if block_idx < self.blocks.len() {
            self.blocks.pop().unwrap()
        } else {
            Vec::new()
        };
        let ghost start = block@;
        proof {
            if block_idx < prev.len() {
                assert(block_idx == prev.len() - 1);
                assert(block_offset == start.len());
            } else {
                assert(block_offset == 0);
            }
        }
        while block.len() <= block_offset
            invariant
                start.len() <= block@.len() <= block_offset + 1,
                block_offset < 10,
                start.len() <= block_offset,
                forall|o: int| 0 <= o < start.len() ==> block@[o] == start[o],
            decreases block_offset + 1 - block.len(),
        {
            block.push(0);
        }
        block.set(block_offset, value);
        self.blocks.push(block);
        proof {
            let cur = self.blocks@;
            let last = cur.len() - 1;
            assert(last * 10 + block_offset == n);
            assert forall|b: int, o: int|
                0 <= b < cur.len() && 0 <= o < cur[b]@.len() implies #[trigger] cur[b]@[o]
                == fib((b * 10 + o) as nat) by {
                if b < last {
                    assert(cur[b] == prev[b]);
                } else if o < start.len() {
                    assert(cur[b]@[o] == start[o]);
                    if block_idx < prev.len() {
                        assert(start == prev[b]@);
                    }
                }
            }
        }
    }

    /// The value at `n`, computed without storing anything.
    fn fibonacci_recursive(&self, n: u32) -> (r: u64)
        requires
            blocks_well_laid(self.blocks@),
            n <= MAX_FIBONACCI_INDEX,
        ensures
            r == fib(n as nat),
        decreases n,
    {
        if n <= 1 {
            return n as u64;
        }
        if let Some(val) = self.get_value(n) {
            return val;
        }
        let f1 = if let Some(val) = self.get_value(n - 1) {
            val
        } else {
            self.fibonacci_recursive(n - 1)
        };
        let f2 = if let Some(val) = self.get_value(n - 2) {
            val
        } else {
            self.fibonacci_recursive(n - 2)
        };
        proof {
            lemma_sequence_recurrence(n as nat);
        }
        f1 + f2
    }

    /// Fills indices `highest() + 1 ..= n` in increasing order, then reads
    /// the value at `n`. Where `n <= highest()` the cache is left as it is.
    fn compute_up_to(&mut self, n: u32) -> (r: u64)
        requires
            old(self).wf(),
            n <= MAX_FIBONACCI_INDEX,
        ensures
            final(self).wf(),
            final(self).highest() == if n > old(self).highest() {
                n as nat
            } else {
                old(self).highest()
            },
            n <= old(self).highest() ==> *final(self) == *old(self),
            r == fib(n as nat),
    {
        let mut i: u32 = self.highest_computed + 1;
        while i <= n
            invariant
                blocks_well_laid(self.blocks@),
                blocks_filled(self.blocks@) == i,
                self.highest_computed == old(self).highest_computed,
                1 <= self.highest_computed < i,
                i <= n + 1 || i == self.highest_computed + 1,
                n <= old(self).highest() ==> *self == *old(self),
                n <= MAX_FIBONACCI_INDEX,
            decreases n + 1 - i,
        {
            let fib_val = self.fibonacci_recursive(i);
            self.store_value(i, fib_val);
            i = i + 1;
        }
        if self.highest_computed < n {
            self.highest_computed = n;
        }
        self.get_value(n).unwrap()
    }

    /// The Fibonacci number at index `n`, extending the cache as needed.
    /// Values already stored are never changed.
    pub fn compute(&mut self, n: u32) -> (r: u64)
        requires
            old(self).wf(),
            n <= MAX_FIBONACCI_INDEX,
        ensures
            r == fib(n as nat),
            final(self).wf(),
            final(self).highest() == if n > old(self).highest() {
                n as nat
            } else {
                old(self).highest()
            },
            forall|i: nat| i <= old(self).highest() ==> #[trigger] final(self).stored(i) == old(self).stored(i),
    {
        proof {
            assert forall|i: nat| i <= old(self).highest() implies #[trigger] old(self).stored(i) == fib(i) by {
                old(self).lemma_stored_values(i);
            }
        }
        if n <= 1 {
            return n as u64;
        }
        if let Some(val) = self.get_value(n) {
            return val;
        }
        let r = self.compute_up_to(n);
        proof {
            assert forall|i: nat| i <= old(self).highest() implies #[trigger] self.stored(i) == old(self).stored(i) by {
                self.lemma_stored_values(i);
            }
        }
        r
    }

    /// Number of blocks, highest index and number of values held.
    pub fn get_statistics(&self) -> (r: FibonacciCacheStats)
        requires
            self.wf(),
        ensures
            r.blocks_loaded == self.highest() / 10 + 1,
            r.highest_computed == self.highest(),
            r.total_values == self.highest() + 1,
    {
        let mut total: usize = 0;
        let mut i: usize = 0;
        while i < self.blocks.len()
            invariant
                self.wf(),
                i <= self.blocks@.len(),
                i < self.blocks@.len() ==> total == 10 * i,
                i == self.blocks@.len() ==> total == self.highest_computed + 1,
            decreases self.blocks@.len() - i,
        {
            total = total + self.blocks[i].len();
            i = i + 1;
        }
        FibonacciCacheStats {
            blocks_loaded: self.blocks.len(),
            highest_computed: self.highest_computed,
            total_values: total,
        }
    }
}

/// Any two well-formed caches hold the same value at every index both have
/// computed, whatever calls built them: reading an index twice gives the
/// same answer.
pub proof fn lemma_cached_values_agree(a: &FibonacciCache, b: &FibonacciCache, n: nat)
    requires
        a.wf(),
        b.wf(),
        n <= a.highest(),
        n <= b.highest(),
    ensures
        a.stored(n) == b.stored(n),
        a.stored(n) == fib(n),
{
    a.lemma_stored_values(n);
    b.lemma_stored_values(n);
}

/// The Fibonacci number at index `n`, read from or added to `cache`.
pub fn fibonacci(cache: &mut FibonacciCache, n: u32) -> (r: u64)
    requires
        old(cache).wf(),
        n <= MAX_FIBONACCI_INDEX,
    ensures
        r == fib(n as nat),
        final(cache).wf(),
        final(cache).highest() == if n > old(cache).highest() {
            n as nat
        } else {
            old(cache).highest()
        },
{
    cache.compute(n)
}

/// Statistics of `cache`.
pub fn fibonacci_stats(cache: &FibonacciCache) -> (r: FibonacciCacheStats)
    requires
        cache.wf(),
    ensures
        r.blocks_loaded == cache.highest() / 10 + 1,
        r.highest_computed == cache.highest(),
        r.total_values == cache.highest() + 1,
{
    cache.get_statistics()
}

} // verus!
