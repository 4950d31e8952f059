//! The bookkeeping of a pool of byte buffers, tiered by power-of-two capacity.
//!
//! A buffer is taken from the tier of the smallest power of two that holds the requested size,
//! the oldest waiting buffer first, and goes back to the end of its tier, emptied.
use vstd::arithmetic::power2::{lemma_pow2_adds, lemma_pow2_pos, lemma_pow2_unfold, pow2};
use vstd::prelude::*;
use std::collections::{BTreeMap, VecDeque};
use vstd::std_specs::btree::spec_btree_map_iter;
use vstd::std_specs::iter::IteratorSpec;

verus! {

/// `cap` is a power of two.
pub open spec fn is_power_of_two(cap: int) -> bool {
    exists|k: nat| cap == pow2(k)
}

/// `cap` is the smallest power of two that is at least `size` (1 for a size of 0).
pub open spec fn rounds_up(size: int, cap: int) -> bool {
    &&& is_power_of_two(cap)
    &&& size <= cap
    &&& (cap == 1 || cap < 2 * size)
}

/// The largest size whose power-of-two ceiling fits in a `usize`.
pub const MAX_TIER_SIZE: usize = usize::MAX / 2 + 1;

/// The smallest power of two that is at least `size`, as `usize::next_power_of_two` gives it.
pub fn next_power_of_two(size: usize) -> (cap: usize)
    requires
        size <= MAX_TIER_SIZE,
    ensures
        rounds_up(size as int, cap as int),
{
    let mut cap: usize = 1;
    let ghost mut k: nat = 0;
    proof {
        lemma_pow2_unfold(1);
        assert(pow2(0) == 1) by {
            vstd::arithmetic::power2::lemma2_to64();
        }
    }
    while cap < size
        invariant
            size <= MAX_TIER_SIZE,
            cap == pow2(k),
            cap >= 1,
            cap == 1 || cap < 2 * size,
        decreases usize::MAX - cap,
    {
        proof {
            lemma_pow2_unfold(k + 1);
        }
        cap = cap * 2;
        proof {
            k = k + 1;
        }
    }
    cap
}

/// Tier capacities are `usize`, whose order `BTreeMap` relies on.
proof fn lemma_tier_keys_ordered()
    ensures
        vstd::laws_cmp::obeys_cmp::<usize>(),
{
    broadcast use vstd::laws_cmp::group_laws_cmp;

}

/// A buffer handed out by a pool, with the capacity of the tier it goes back to.
pub struct PooledVec {
    vec: Vec<u8>,
    cap: usize,
}

/// The model of a pooled buffer: its bytes.
impl View for PooledVec {
    type V = Seq<u8>;

    closed spec fn view(&self) -> Seq<u8> {
        self.vec@
    }
}

impl PooledVec {
    /// The capacity of the tier the buffer belongs to.
    pub closed spec fn tier(&self) -> usize {
        self.cap
    }

    /// The buffer as a vector.
    pub closed spec fn buffer(&self) -> Vec<u8> {
        self.vec
    }

    /// The capacity of the tier the buffer belongs to.
    pub fn tier_capacity(&self) -> (r: usize)
        ensures
            r == self.tier(),
    {
        self.cap
    }

    /// The bytes of the buffer.
    pub fn as_vec(&self) -> (r: &Vec<u8>)
        ensures
            *r == self.buffer(),
            r@ == self@,
    {
        &self.vec
    }

    /// The buffer, to write into; it stays in its tier.
    pub fn as_mut_vec(&mut self) -> (r: &mut Vec<u8>)
        ensures
            *r == old(self).buffer(),
            final(self).buffer() == *final(r),
            final(self).tier() == old(self).tier(),
    {
        &mut self.vec
    }
}

/// A pool of `Vec<u8>` buffers, tiered by power-of-two capacity: the buffers that wait to be
/// handed out again, by the capacity of their tier.
pub struct VecU8Pool {
    tiers: BTreeMap<usize, VecDeque<Vec<u8>>>,
}

impl VecU8Pool {
    /// What waits in each tier that was ever used, oldest first.
    pub closed spec fn tiers(&self) -> Map<usize, Seq<Vec<u8>>> {
        self.tiers@.map_values(|d: VecDeque<Vec<u8>>| d@)
    }

    /// What waits in the tier `cap`, oldest first; nothing in a tier never used.
    pub open spec fn waiting(&self, cap: usize) -> Seq<Vec<u8>> {
        if self.tiers().contains_key(cap) {
            self.tiers()[cap]
        } else {
            Seq::empty()
        }
    }

    /// Every waiting buffer is empty.
    pub open spec fn wf(&self) -> bool {
        forall|cap: usize, i: int|
            self.tiers().contains_key(cap) && 0 <= i < self.tiers()[cap].len()
                ==> (#[trigger] self.tiers()[cap][i])@.len() == 0
    }

    /// The tiers after the oldest buffer of the tier `cap` is handed out; the tier is kept,
    /// empty or not.
    pub open spec fn after_taking(&self, cap: usize) -> Map<usize, Seq<Vec<u8>>> {
        self.tiers().insert(
            cap,
            if self.waiting(cap).len() > 0 {
                self.waiting(cap).drop_first()
            } else {
                Seq::empty()
            },
        )
    }

    /// An empty pool, with no tier.
    pub fn new() -> (p: Self)
        ensures
            p.wf(),
            p.tiers() == Map::<usize, Seq<Vec<u8>>>::empty(),
    {
        let p = VecU8Pool { tiers: BTreeMap::new() };
        assert(p.tiers() =~= Map::<usize, Seq<Vec<u8>>>::empty());
        p
    }

    /// Hands out an empty buffer for `size` bytes, in the tier of the smallest power of two
    /// that holds `size`. The oldest buffer waiting in that tier is reused; where none waits,
    /// a new one is made with that capacity.
    pub fn allocate(&mut self, size: usize) -> (r: PooledVec)
        requires
            old(self).wf(),
            size <= MAX_TIER_SIZE,
        ensures
            final(self).wf(),
            rounds_up(size as int, r.tier() as int),
            r@ == Seq::<u8>::empty(),
            old(self).waiting(r.tier()).len() > 0 ==> r.buffer() == old(self).waiting(r.tier())[0],
            final(self).tiers() == old(self).after_taking(r.tier()),
    {
        broadcast use vstd::std_specs::btree::group_btree_axioms;

        proof {
            lemma_tier_keys_ordered();
        }
        let cap = next_power_of_two(size);
        let mut tier = match self.tiers.remove(&cap) {
            Some(t) => t,
            None => VecDeque::new(),
        };
        assert(tier@ == old(self).waiting(cap));
        let ghost before = tier@;
        let vec = match tier.pop_front() {
            Some(b) => b,
            None => Vec::with_capacity(cap),
        };
        assert(tier@ =~= if before.len() > 0 { before.drop_first() } else { Seq::empty() });
        self.tiers.insert(cap, tier);
        assert(self.tiers() =~= old(self).tiers().insert(cap, tier@));
        PooledVec { vec, cap }
    }

    /// Takes `buf` back into its tier, emptied, behind the buffers already waiting there.
    pub fn return_to_pool(&mut self, buf: PooledVec)
        requires
            old(self).wf(),
        ensures
            final(self).wf(),
            final(self).tiers() == old(self).tiers().insert(buf.tier(), final(self).waiting(buf.tier())),
            final(self).waiting(buf.tier()).len() == old(self).waiting(buf.tier()).len() + 1,
            final(self).waiting(buf.tier()).drop_last() == old(self).waiting(buf.tier()),
            final(self).waiting(buf.tier()).last()@ == Seq::<u8>::empty(),
    {
        broadcast use vstd::std_specs::btree::group_btree_axioms;

        proof {
            lemma_tier_keys_ordered();
        }
        let PooledVec { vec, cap } = buf;
        let mut vec = vec;
        vec.clear();
        let mut tier = match self.tiers.remove(&cap) {
            Some(t) => t,
            None => VecDeque::new(),
        };
        assert(tier@ == old(self).waiting(cap));
        tier.push_back(vec);
        self.tiers.insert(cap, tier);
        assert(self.tiers() =~= old(self).tiers().insert(cap, tier@));
        assert(tier@.drop_last() =~= old(self).waiting(cap));
    }

    /// A buffer holding a copy of `data`.
    pub fn from_slice(&mut self, data: &[u8]) -> (r: PooledVec)
        requires
            old(self).wf(),
            data@.len() <= MAX_TIER_SIZE,
        ensures
            final(self).wf(),
            rounds_up(data@.len() as int, r.tier() as int),
            r@ == data@,
            final(self).tiers() == old(self).after_taking(r.tier()),
    {
        let mut buf = self.allocate(data.len());
        buf.as_mut_vec().extend_from_slice(data);
        assert(buf@ =~= data@);
        buf
    }

    /// A buffer holding the bytes of `data`.
    pub fn from_vec(&mut self, data: Vec<u8>) -> (r: PooledVec)
        requires
            old(self).wf(),
            data@.len() <= MAX_TIER_SIZE,
        ensures
            final(self).wf(),
            rounds_up(data@.len() as int, r.tier() as int),
            r@ == data@,
            final(self).tiers() == old(self).after_taking(r.tier()),
    {
        let mut data = data;
        let mut buf = self.allocate(data.len());
        buf.as_mut_vec().append(&mut data);
        buf
    }
    /// How many buffers wait in each tier that was ever used.
    pub fn tier_sizes(&self) -> (r: BTreeMap<usize, usize>)
        ensures
            r@.dom() == self.tiers().dom(),
            forall|cap: usize| #[trigger] r@.contains_key(cap) ==> r@[cap] == self.tiers()[cap].len(),
    {
        broadcast use vstd::std_specs::btree::group_btree_axioms;

        proof {
            lemma_tier_keys_ordered();
        }
        let ghost entries = spec_btree_map_iter(&self.tiers).remaining();
        let mut sizes: BTreeMap<usize, usize> = BTreeMap::new();
        for entry in it: self.tiers.iter()
            invariant
                vstd::laws_cmp::obeys_cmp::<usize>(),
                it.seq() == entries,
                entries == spec_btree_map_iter(&self.tiers).remaining(),
                forall|cap: usize| #[trigger] sizes@.contains_key(cap) ==> {
                    &&& self.tiers@.contains_key(cap)
                    &&& sizes@[cap] == self.tiers@[cap]@.len()
                },
                forall|j: int| 0 <= j < it.index() ==> sizes@.contains_key(*(#[trigger] it.seq()[j]).0),
        {
            let (cap, tier) = entry;
            sizes.insert(*cap, tier.len());
        }
        proof {
            assert forall|cap: usize| self.tiers@.contains_key(cap) implies sizes@.contains_key(cap) by {
                let v = entries;
                assert(v.contains((&cap, &self.tiers@[cap])));
                let j = choose|j: int| 0 <= j < v.len() && v[j] == (&cap, &self.tiers@[cap]);
                assert(sizes@.contains_key(*v[j].0));
            }
            assert(sizes@.dom() =~= self.tiers().dom());
        }
        sizes
    }
}

/// Giving a buffer back and then taking one from the same tier leaves as many buffers waiting
/// there as before, and the other tiers as they were; when none waited before, the buffer
/// handed out is the one given back. `before` is a pool, and `after` what `return_to_pool`
/// makes of it with a buffer of the tier `cap`.
pub proof fn return_then_allocate(before: VecU8Pool, after: VecU8Pool, cap: usize)
    requires
        after.tiers() == before.tiers().insert(cap, after.waiting(cap)),
        after.waiting(cap).len() == before.waiting(cap).len() + 1,
        after.waiting(cap).drop_last() == before.waiting(cap),
    ensures
        after.after_taking(cap) == before.tiers().insert(
            cap,
            if before.waiting(cap).len() > 0 {
                before.waiting(cap).drop_first().push(after.waiting(cap).last())
            } else {
                Seq::empty()
            },
        ),
        before.waiting(cap).len() == 0 ==> after.waiting(cap)[0] == after.waiting(cap).last(),
{
    let w = after.waiting(cap);
    assert(after.tiers().contains_key(cap));
    if before.waiting(cap).len() > 0 {
        assert(w.drop_first() =~= before.waiting(cap).drop_first().push(w.last()));
    } else {
        assert(w.drop_first() =~= Seq::<Vec<u8>>::empty());
    }
    assert(after.after_taking(cap) =~= before.tiers().insert(
        cap,
        if before.waiting(cap).len() > 0 {
            before.waiting(cap).drop_first().push(w.last())
        } else {
            Seq::empty()
        },
    ));
}

/// A power of two below another is at most half of it.
proof fn lemma_pow2_gap(i: nat, j: nat)
    requires
        i < j,
    ensures
        2 * pow2(i) <= pow2(j),
{
    let k = (j - i - 1) as nat;
    lemma_pow2_adds(i + 1, k);
    lemma_pow2_unfold(i + 1);
    lemma_pow2_pos(k);
    assert(i + 1 + k == j);
    let a = pow2(i + 1);
    let b = pow2(k);
    assert(a * b >= a) by (nonlinear_arith)
        requires
            b >= 1,
            a >= 0,
    ;
}

/// A size has one power-of-two ceiling: two capacities that both round it up are equal.
pub proof fn rounds_up_unique(size: int, a: int, b: int)
    requires
        rounds_up(size, a),
        rounds_up(size, b),
    ensures
        a == b,
{
    let i = choose|k: nat| a == pow2(k);
    let j = choose|k: nat| b == pow2(k);
    lemma_pow2_pos(i);
    lemma_pow2_pos(j);
    if i < j {
        lemma_pow2_gap(i, j);
    } else if j < i {
        lemma_pow2_gap(j, i);
    }
}

/// `from_vec` and `from_slice` do the same: given the same bytes and the same pool, they hand
/// out buffers with the same bytes in the same tier, and leave the pool the same. `before` is
/// the pool; `after_vec` and `buf_vec` what `from_vec` makes of it and hands out, `after_slice`
/// and `buf_slice` those of `from_slice`.
pub proof fn from_vec_is_from_slice(
    before: VecU8Pool,
    data: Seq<u8>,
    after_vec: VecU8Pool,
    buf_vec: PooledVec,
    after_slice: VecU8Pool,
    buf_slice: PooledVec,
)
    requires
        rounds_up(data.len() as int, buf_vec.tier() as int),
        buf_vec@ == data,
        after_vec.tiers() == before.after_taking(buf_vec.tier()),
        rounds_up(data.len() as int, buf_slice.tier() as int),
        buf_slice@ == data,
        after_slice.tiers() == before.after_taking(buf_slice.tier()),
    ensures
        buf_vec@ == buf_slice@,
        buf_vec.tier() == buf_slice.tier(),
        after_vec.tiers() == after_slice.tiers(),
{
    rounds_up_unique(data.len() as int, buf_vec.tier() as int, buf_slice.tier() as int);
}

} // verus!
