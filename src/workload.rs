//! The read/write pattern of the mixed workload, the per-second counts a
//! benchmark thread keeps, and the barrier its threads meet at.
use vstd::prelude::*;

verus! {

/// One positional operation on a page of the working file.
#[derive(PartialEq, Eq, Structural, Clone, Copy, Debug)]
pub enum WorkloadOp {
    Read { offset: i64 },
    Write { offset: i64 },
}

/// Whether random value `random` makes a write under `write_ratio` (a
/// percentage).
pub open spec fn spec_is_write(random: u16, write_ratio: usize) -> bool {
    (random as nat) % 100 < write_ratio
}

/// The byte offset of the page that `random` picks among `total_pages`
/// pages of `page_size` bytes.
pub open spec fn spec_offset(random: u16, total_pages: usize, page_size: usize) -> nat {
    ((random as nat) % (total_pages as nat)) * (page_size as nat)
}

/// The operation that random value `random` picks.
pub open spec fn spec_workload_op(random: u16, total_pages: usize, page_size: usize, write_ratio: usize) -> WorkloadOp {
    let offset = spec_offset(random, total_pages, page_size) as i64;
    if spec_is_write(random, write_ratio) {
        WorkloadOp::Write { offset }
    } else {
        WorkloadOp::Read { offset }
    }
}

/// Picks one operation from a random value: the page is `random %
/// total_pages`, its offset that times `page_size`, and it is a write when
/// `random % 100 < write_ratio`, else a read.
pub fn workload_op(random: u16, total_pages: usize, page_size: usize, write_ratio: usize) -> (r: WorkloadOp)
    requires
        total_pages > 0,
        total_pages * page_size <= i64::MAX,
    ensures
        r == spec_workload_op(random, total_pages, page_size, write_ratio),
        spec_offset(random, total_pages, page_size) + page_size <= total_pages * page_size,
{
    let page = random as usize % total_pages;
    proof {
        assert(page + 1 <= total_pages);
        assert((page + 1) * page_size <= total_pages * page_size) by (nonlinear_arith)
            requires
                page + 1 <= total_pages,
        ;
        assert(page * page_size + page_size == (page + 1) * page_size) by (nonlinear_arith);
    }
    let offset = ((page as u64) * (page_size as u64)) as i64;
    if ((random % 100) as usize) < write_ratio {
        WorkloadOp::Write { offset }
    } else {
        WorkloadOp::Read { offset }
    }
}

/// A write ratio of zero never writes and one of a hundred never reads,
/// whatever random value is drawn.
pub proof fn lemma_write_ratio_extremes(random: u16, total_pages: usize, page_size: usize)
    ensures
        spec_workload_op(random, total_pages, page_size, 0) is Read,
        spec_workload_op(random, total_pages, page_size, 100) is Write,
{
}

/// How many of the `n` random values `start`, `start + 1`, ... make a
/// write under `write_ratio`.
pub open spec fn writes_in(start: nat, n: nat, write_ratio: usize) -> nat
    decreases n,
{
    if n == 0 {
        0
    } else {
        writes_in(start, (n - 1) as nat, write_ratio) + (if spec_is_write((start + n - 1) as u16, write_ratio) {
            1nat
        } else {
            0nat
        })
    }
}

/// Of any hundred consecutive random values that start at a multiple of a
/// hundred, exactly `write_ratio` make writes.
pub proof fn lemma_hundred_draws(k: nat, write_ratio: usize)
    requires
        write_ratio <= 100,
        100 * k + 100 <= 0x10000,
    ensures
        writes_in(100 * k, 100, write_ratio) == write_ratio,
{
    lemma_draws_prefix(k, 100, write_ratio);
}

proof fn lemma_draws_prefix(k: nat, n: nat, write_ratio: usize)
    requires
        n <= 100,
        100 * k + n <= 0x10000,
    ensures
        writes_in(100 * k, n, write_ratio) == (if n < write_ratio { n } else { write_ratio as nat }),
    decreases n,
{
    if n > 0 {
        lemma_draws_prefix(k, (n - 1) as nat, write_ratio);
        let x = 100 * k + n - 1;
        assert(((x as u16) as nat) == x);
        vstd::arithmetic::div_mod::lemma_mod_multiples_vanish(k as int, (n - 1) as int, 100);
        vstd::arithmetic::div_mod::lemma_small_mod((n - 1) as nat, 100);
        assert(x % 100 == n - 1);
    }
}

proof fn lemma_writes_split(start: nat, a: nat, b: nat, write_ratio: usize)
    ensures
        writes_in(start, a + b, write_ratio) == writes_in(start, a, write_ratio) + writes_in(start + a, b, write_ratio),
    decreases b,
{
    if b > 0 {
        lemma_writes_split(start, a, (b - 1) as nat, write_ratio);
        assert((a + b - 1) as nat == a + (b - 1) as nat);
    }
}

proof fn lemma_whole_blocks(k: nat, write_ratio: usize)
    requires
        write_ratio <= 100,
        100 * k <= 0x10000,
    ensures
        writes_in(0, 100 * k, write_ratio) == k * write_ratio,
    decreases k,
{
    if k > 0 {
        let j = (k - 1) as nat;
        lemma_whole_blocks(j, write_ratio);
        lemma_writes_split(0, 100 * j, 100, write_ratio);
        lemma_hundred_draws(j, write_ratio);
        assert(100 * j + 100 == 100 * k);
        assert(writes_in(0, 100 * k, write_ratio) == writes_in(0, 100 * j, write_ratio) + writes_in(
            100 * j,
            100,
            write_ratio,
        ));
        assert(j * write_ratio + write_ratio == k * write_ratio) by (nonlinear_arith)
            requires
                j + 1 == k,
        ;
        assert(writes_in(100 * j, 100, write_ratio) == write_ratio);
        assert(writes_in(0, 100 * j, write_ratio) == j * write_ratio);
    } else {
        assert(100 * k == 0);
        assert(k * write_ratio == 0);
    }
}

/// Over all 65536 values a 16-bit random draw can take, equally likely,
/// exactly `655 * write_ratio + min(write_ratio, 36)` make writes; at a
/// ratio of 50 that is 32786 of 65536, between 45% and 55%.
pub proof fn lemma_write_frequency(write_ratio: usize)
    requires
        write_ratio <= 100,
    ensures
        writes_in(0, 0x10000, write_ratio) == 655 * write_ratio + (if write_ratio < 36 {
            write_ratio as nat
        } else {
            36nat
        }),
        write_ratio == 50 ==> 45 * 0x10000 <= 100 * writes_in(0, 0x10000, write_ratio) <= 55 * 0x10000,
{
    lemma_whole_blocks(655, write_ratio);
    lemma_writes_split(0, 65500, 36, write_ratio);
    lemma_draws_prefix(655, 36, write_ratio);
}

/// A meeting point for `parties` threads: it opens once all of them have
/// arrived, and never before.
pub struct Barrier {
    parties: usize,
    arrived: usize,
}

impl Barrier {
    pub closed spec fn parties(&self) -> nat {
        self.parties as nat
    }

    pub closed spec fn arrived(&self) -> nat {
        self.arrived as nat
    }

    pub open spec fn spec_is_open(&self) -> bool {
        self.arrived() == self.parties()
    }

    pub closed spec fn wf(&self) -> bool {
        self.arrived <= self.parties
    }

    pub fn new(parties: usize) -> (r: Barrier)
        ensures
            r.wf(),
            r.parties() == parties,
            r.arrived() == 0,
    {
        Barrier { parties, arrived: 0 }
    }

    /// One more thread has arrived.
    pub fn arrive(&mut self)
        requires
            old(self).wf(),
            old(self).arrived() < old(self).parties(),
        ensures
            final(self).wf(),
            final(self).parties() == old(self).parties(),
            final(self).arrived() == old(self).arrived() + 1,
    {
        self.arrived = self.arrived + 1;
    }

    /// Whether every thread has arrived.
    pub fn is_open(&self) -> (r: bool)
        ensures
            r == self.spec_is_open(),
    {
        self.arrived == self.parties
    }

    /// How many threads have not arrived yet.
    pub fn waiting(&self) -> (r: usize)
        requires
            self.wf(),
        ensures
            r == self.parties() - self.arrived(),
    {
        self.parties - self.arrived
    }
}

/// Of `n` threads, however many of them have arrived, the barrier is open
/// exactly when that is all `n`.
pub proof fn lemma_barrier_opens_only_when_all_arrive(b: Barrier, n: nat, k: nat)
    requires
        b.parties() == n,
        b.arrived() == k,
        k <= n,
    ensures
        k < n ==> !b.spec_is_open(),
        k == n ==> b.spec_is_open(),
{
}

} // verus!
