use vstd::prelude::*;
use vstd::string::StringSliceAdditionalSpecFns;

use crate::difficulty::{hash_structure_good, meets_difficulty};
use crate::preimage::{preimage, spec_preimage};

verus! {

/// Worker threads of the CPU solver.
pub const NUM_THREADS: u64 = 5;

/// What a nonce search has done so far.
pub struct SearchView {
    /// The first nonce tried.
    pub start: u64,
    /// The distance between two nonces that are tried one after the other.
    pub stride: u64,
    /// The nonce whose hash is awaited (the solution, once one is found).
    pub next: u64,
    /// How many hashes were recorded.
    pub hashed: u64,
    /// The nonce whose hash met the difficulty, once there is one.
    pub solution: Option<u64>,
}

impl SearchView {
    /// The search tries `start`, `start + stride`, ... in turn: before a
    /// solution, `next` is the nonce after the `hashed` ones already tried;
    /// a solution is the last nonce that was tried.
    pub open spec fn inv(self) -> bool {
        &&& self.stride > 0
        &&& match self.solution {
            None => self.next == self.start + self.hashed * self.stride,
            Some(n) => {
                &&& self.hashed >= 1
                &&& n == self.next
                &&& n == self.start + (self.hashed - 1) * self.stride
            },
        }
    }

    /// The nonce tried as the `k`-th (counting from 0).
    pub open spec fn nonce_at(self, k: int) -> int {
        self.start + k * self.stride
    }
}

/// A search for a nonce whose preimage hashes under a difficulty mask: it
/// walks `start, start + stride, start + 2 * stride, ...` and stops at the
/// first nonce whose hash is good. One worker of the CPU solver runs one
/// such search, with its worker number as `start` and the number of workers
/// as `stride`; the CPU benchmark runs one from 0 with stride 1.
pub struct NonceSearch {
    start: u64,
    stride: u64,
    next: u64,
    hashed: u64,
    solution: Option<u64>,
}

impl View for NonceSearch {
    type V = SearchView;

    closed spec fn view(&self) -> SearchView {
        SearchView {
            start: self.start,
            stride: self.stride,
            next: self.next,
            hashed: self.hashed,
            solution: self.solution,
        }
    }
}

impl NonceSearch {
    /// A search that has tried nothing yet and starts at `start`.
    pub fn new(start: u64, stride: u64) -> (s: NonceSearch)
        requires
            stride > 0,
        ensures
            s@.inv(),
            s@ == (SearchView { start, stride, next: start, hashed: 0, solution: None }),
    {
        NonceSearch { start, stride, next: start, hashed: 0, solution: None }
    }

    /// The nonce to hash next (the solution once the search is over).
    pub fn current_nonce(&self) -> (n: u64)
        ensures
            n == self@.next,
    {
        self.next
    }

    /// How many hashes were recorded.
    pub fn hashes_done(&self) -> (n: u64)
        ensures
            n == self@.hashed,
    {
        self.hashed
    }

    /// The nonce that met the difficulty, if one did.
    pub fn solution(&self) -> (r: Option<u64>)
        ensures
            r == self@.solution,
    {
        self.solution
    }

    /// The bytes to hash for the current nonce.
    pub fn current_preimage(&self, suffix: &str) -> (out: Vec<u8>)
        ensures
            out@ == spec_preimage(self@.next, suffix.spec_bytes()),
    {
        preimage(self.next, suffix)
    }

    /// Whether `record(hash, difficulty_mask)` may be called: the search is
    /// not over, the hash count has room, and, when the hash is not good, the
    /// next nonce fits in a `u64`.
    pub fn can_record(&self, hash: &[u8], difficulty_mask: u32) -> (ok: bool)
        ensures
            ok == (self@.solution is None && self@.hashed < u64::MAX && (meets_difficulty(
                hash@,
                difficulty_mask,
            ) || self@.next + self@.stride <= u64::MAX)),
    {
        if self.solution.is_some() || self.hashed == u64::MAX {
            return false;
        }
        hash_structure_good(hash, difficulty_mask) || self.next <= u64::MAX - self.stride
    }

    /// Takes the hash of the current nonce's preimage: a good hash ends the
    /// search with the current nonce as its solution; any other moves the
    /// search on by one stride.
    pub fn record(&mut self, hash: &[u8], difficulty_mask: u32)
        requires
            old(self)@.inv(),
            old(self)@.solution is None,
            old(self)@.hashed < u64::MAX,
            meets_difficulty(hash@, difficulty_mask) || old(self)@.next + old(self)@.stride
                <= u64::MAX,
        ensures
            final(self)@.inv(),
            final(self)@.start == old(self)@.start,
            final(self)@.stride == old(self)@.stride,
            final(self)@.hashed == old(self)@.hashed + 1,
            meets_difficulty(hash@, difficulty_mask) ==> final(self)@.solution == Some(
                old(self)@.next,
            ) && final(self)@.next == old(self)@.next,
            !meets_difficulty(hash@, difficulty_mask) ==> final(self)@.solution is None
                && final(self)@.next == old(self)@.next + old(self)@.stride,
    {
        let good = hash_structure_good(hash, difficulty_mask);
        self.hashed = self.hashed + 1;
        if good {
            self.solution = Some(self.next);
        } else {
            self.next = self.next + self.stride;
            assert(self.start + (self.hashed - 1) * self.stride + self.stride == self.start
                + self.hashed * self.stride) by (nonlinear_arith);
        }
    }
}

/// Two workers with different numbers below the stride never try the same
/// nonce: worker `t1`'s `k1`-th nonce equals worker `t2`'s `k2`-th only when
/// they are the same worker at the same step.
pub proof fn lemma_workers_disjoint(stride: u64, t1: u64, k1: nat, t2: u64, k2: nat)
    requires
        t1 < stride,
        t2 < stride,
        t1 + k1 * stride == t2 + k2 * stride,
    ensures
        t1 == t2,
        k1 == k2,
{
    if k1 < k2 {
        assert(k2 * stride >= (k1 + 1) * stride) by (nonlinear_arith)
            requires
                k1 < k2,
        ;
        assert((k1 + 1) * stride == k1 * stride + stride) by (nonlinear_arith);
    } else if k2 < k1 {
        assert(k1 * stride >= (k2 + 1) * stride) by (nonlinear_arith)
            requires
                k2 < k1,
        ;
        assert((k2 + 1) * stride == k2 * stride + stride) by (nonlinear_arith);
    }
}

/// Whether some hash of `hashes` meets the mask.
pub open spec fn some_good(hashes: Seq<[u8; 64]>, difficulty_mask: u32) -> bool {
    exists|i: int| 0 <= i < hashes.len() && meets_difficulty(#[trigger] hashes[i]@, difficulty_mask)
}

/// `i` is the first position whose hash meets the mask.
pub open spec fn is_first_good(hashes: Seq<[u8; 64]>, difficulty_mask: u32, i: int) -> bool {
    &&& 0 <= i < hashes.len()
    &&& meets_difficulty(hashes[i]@, difficulty_mask)
    &&& forall|j: int| 0 <= j < i ==> !meets_difficulty(#[trigger] hashes[j]@, difficulty_mask)
}

/// Every position of a batch counts: a batch has a good hash as soon as any
/// of its hashes meets the mask, and position `i` is the first good one
/// exactly when hash `i` meets the mask and no earlier hash does, wherever
/// `i` lies in the batch.
pub proof fn lemma_first_good_covers_batch(hashes: Seq<[u8; 64]>, difficulty_mask: u32, i: int)
    ensures
        0 <= i < hashes.len() && meets_difficulty(hashes[i]@, difficulty_mask) ==> some_good(
            hashes,
            difficulty_mask,
        ),
        is_first_good(hashes, difficulty_mask, i) <==> (0 <= i < hashes.len() && meets_difficulty(
            hashes[i]@,
            difficulty_mask,
        ) && forall|j: int| 0 <= j < i ==> !meets_difficulty(#[trigger] hashes[j]@, difficulty_mask)),
        some_good(hashes, difficulty_mask) ==> exists|k: int| is_first_good(hashes, difficulty_mask, k),
{
    if some_good(hashes, difficulty_mask) {
        let w = choose|w: int| 0 <= w < hashes.len() && meets_difficulty(#[trigger] hashes[w]@, difficulty_mask);
        lemma_first_good_below(hashes, difficulty_mask, w);
    }
}

proof fn lemma_first_good_below(hashes: Seq<[u8; 64]>, difficulty_mask: u32, w: int)
    requires
        0 <= w < hashes.len(),
        meets_difficulty(hashes[w]@, difficulty_mask),
    ensures
        exists|k: int| is_first_good(hashes, difficulty_mask, k),
    decreases w,
{
    if forall|j: int| 0 <= j < w ==> !meets_difficulty(#[trigger] hashes[j]@, difficulty_mask) {
        assert(is_first_good(hashes, difficulty_mask, w));
    } else {
        let j = choose|j: int| 0 <= j < w && meets_difficulty(#[trigger] hashes[j]@, difficulty_mask);
        lemma_first_good_below(hashes, difficulty_mask, j);
    }
}

/// The position of the first hash of a batch that meets the mask.
pub fn first_good_hash(hashes: &[[u8; 64]], difficulty_mask: u32) -> (r: Option<usize>)
    ensures
        r matches Some(i) ==> is_first_good(hashes@, difficulty_mask, i as int),
        r is None ==> !some_good(hashes@, difficulty_mask),
{
    let mut i: usize = 0;
    while i < hashes.len()
        invariant
            i <= hashes@.len(),
            forall|j: int| 0 <= j < i ==> !meets_difficulty(#[trigger] hashes@[j]@, difficulty_mask),
        decreases hashes@.len() - i,
    {
        let h: &[u8; 64] = &hashes[i];
        if hash_structure_good(h, difficulty_mask) {
            return Some(i);
        }
        i = i + 1;
    }
    None
}

/// The preimages of a batch of nonces, in order.
pub fn batch_preimages(nonces: &[u64], suffix: &str) -> (out: Vec<Vec<u8>>)
    ensures
        out@.len() == nonces@.len(),
        forall|i: int|
            0 <= i < nonces@.len() ==> #[trigger] out@[i]@ == spec_preimage(
                nonces@[i],
                suffix.spec_bytes(),
            ),
{
    let mut out: Vec<Vec<u8>> = Vec::new();
    let mut i: usize = 0;
    while i < nonces.len()
        invariant
            i <= nonces@.len(),
            out@.len() == i,
            forall|k: int|
                0 <= k < i ==> #[trigger] out@[k]@ == spec_preimage(nonces@[k], suffix.spec_bytes()),
        decreases nonces@.len() - i,
    {
        out.push(preimage(nonces[i], suffix));
        i = i + 1;
    }
    out
}

/// The nonces `base, base + 1, ..., base + count - 1`.
pub fn consecutive_nonces(base: u64, count: usize) -> (out: Vec<u64>)
    requires
        base + count <= u64::MAX as int + 1,
    ensures
        out@.len() == count,
        forall|i: int| 0 <= i < out@.len() ==> #[trigger] out@[i] == base + i,
{
    let mut out: Vec<u64> = Vec::new();
    let mut i: usize = 0;
    while i < count
        invariant
            i <= count,
            base + count <= u64::MAX as int + 1,
            out@.len() == i,
            forall|k: int| 0 <= k < i ==> #[trigger] out@[k] == base + k,
        decreases count - i,
    {
        out.push(base + i as u64);
        i = i + 1;
    }
    out
}

/// What a batched search has done so far.
pub struct BatchView {
    /// The first nonce of the next batch.
    pub next_base: u64,
    /// How many nonces a batch holds.
    pub batch_size: usize,
    /// How many hashes were examined.
    pub total_hashes: u64,
    /// The nonce whose hash met the difficulty, once there is one.
    pub solution: Option<u64>,
}

/// A search in consecutive batches of nonces, as the GPU benchmark runs it:
/// batch `b` holds the nonces `b * batch_size .. (b + 1) * batch_size`, the
/// hashes of a batch are examined in order, and the first good one ends the
/// search.
pub struct BatchSearch {
    next_base: u64,
    batch_size: usize,
    total_hashes: u64,
    solution: Option<u64>,
}

impl View for BatchSearch {
    type V = BatchView;

    closed spec fn view(&self) -> BatchView {
        BatchView {
            next_base: self.next_base,
            batch_size: self.batch_size,
            total_hashes: self.total_hashes,
            solution: self.solution,
        }
    }
}

impl BatchSearch {
    /// A search whose first batch starts at nonce 0.
    pub fn new(batch_size: usize) -> (s: BatchSearch)
        ensures
            s@ == (BatchView { next_base: 0, batch_size, total_hashes: 0, solution: None }),
    {
        BatchSearch { next_base: 0, batch_size, total_hashes: 0, solution: None }
    }

    /// How many hashes were examined.
    pub fn total_hashes(&self) -> (n: u64)
        ensures
            n == self@.total_hashes,
    {
        self.total_hashes
    }

    /// The nonce that met the difficulty, if one did.
    pub fn solution(&self) -> (r: Option<u64>)
        ensures
            r == self@.solution,
    {
        self.solution
    }

    /// Whether the next batch's nonces fit in a `u64`.
    pub fn can_make_batch(&self) -> (ok: bool)
        ensures
            ok == (self@.next_base + self@.batch_size <= u64::MAX as int + 1),
    {
        (self.next_base as u128) + (self.batch_size as u128) <= (u64::MAX as u128) + 1
    }

    /// The nonces of the next batch: `next_base + i` for each `i` below the
    /// batch size.
    pub fn batch_nonces(&self) -> (out: Vec<u64>)
        requires
            self@.next_base + self@.batch_size <= u64::MAX as int + 1,
        ensures
            out@.len() == self@.batch_size,
            forall|i: int| 0 <= i < out@.len() ==> #[trigger] out@[i] == self@.next_base + i,
    {
        consecutive_nonces(self.next_base, self.batch_size)
    }

    /// Whether `record_batch(hashes)` may be called: no solution yet, at
    /// most one hash per nonce of the batch, room in the hash count, and the
    /// batch after it starts at a nonce that fits in a `u64`.
    pub fn can_record_batch(&self, hashes: &[[u8; 64]]) -> (ok: bool)
        ensures
            ok == (self@.solution is None && hashes@.len() <= self@.batch_size
                && self@.total_hashes + hashes@.len() <= u64::MAX && self@.next_base
                + self@.batch_size <= u64::MAX),
    {
        self.solution.is_none() && hashes.len() <= self.batch_size && hashes.len() as u64
            <= u64::MAX - self.total_hashes && self.batch_size as u64 <= u64::MAX
            - self.next_base && self.batch_size as u128 <= u64::MAX as u128
    }

    /// Takes the hashes of the current batch, in nonce order: they are
    /// counted up to and including the first good one, whose nonce becomes
    /// the solution; the next batch starts one batch size further on.
    pub fn record_batch(&mut self, hashes: &[[u8; 64]], difficulty_mask: u32)
        requires
            old(self)@.solution is None,
            hashes@.len() <= old(self)@.batch_size,
            old(self)@.total_hashes + hashes@.len() <= u64::MAX,
            old(self)@.next_base + old(self)@.batch_size <= u64::MAX,
        ensures
            final(self)@.batch_size == old(self)@.batch_size,
            final(self)@.next_base == old(self)@.next_base + old(self)@.batch_size,
            forall|i: int|
                is_first_good(hashes@, difficulty_mask, i) ==> final(self)@.solution == Some(
                    (old(self)@.next_base + i) as u64,
                ) && final(self)@.total_hashes == old(self)@.total_hashes + i + 1,
            !some_good(hashes@, difficulty_mask) ==> final(self)@.solution is None
                && final(self)@.total_hashes == old(self)@.total_hashes + hashes@.len(),
    {
        let found = first_good_hash(hashes, difficulty_mask);
        match found {
            Some(i) => {
                proof {
                    assert forall|k: int| is_first_good(hashes@, difficulty_mask, k) implies k
                        == i by {
                        if k < i {
                            assert(!meets_difficulty(hashes@[k]@, difficulty_mask));
                        } else if k > i {
                            assert(!meets_difficulty(hashes@[i as int]@, difficulty_mask));
                        }
                    }
                }
                self.total_hashes = self.total_hashes + i as u64 + 1;
                self.solution = Some(self.next_base + i as u64);
            },
            None => {
                proof {
                    assert forall|k: int| !is_first_good(hashes@, difficulty_mask, k) by {
                        if 0 <= k < hashes@.len() {
                            assert(!meets_difficulty(hashes@[k]@, difficulty_mask));
                        }
                    }
                }
                self.total_hashes = self.total_hashes + hashes.len() as u64;
            },
        }
        self.next_base = self.next_base + self.batch_size as u64;
    }
}

} // verus!
