//! The lattice of a gradient noise: a table of vectors of a length that is a
//! power of two, and three rearrangements of its places.
//!
//! What the vectors are is the caller's matter, as is the blending of the
//! eight vectors around a point.

use rand::seq::SliceRandom;
use vstd::prelude::*;
use crate::bvh::all_indices;

verus! {

/// Calls `shuffle` of rand's `SliceRandom` with the thread's generator. It
/// swaps items of `v`: afterwards `v` holds the same items, each as often as
/// before, in some order.
#[verifier::external_body]
fn shuffle(v: &mut Vec<usize>)
    ensures
        final(v)@.to_multiset() == old(v)@.to_multiset(),
{
    v.shuffle(&mut rand::thread_rng());
}

/// The numbers from 0 up to, not including, `n`, in an order drawn by chance.
pub fn generate_perm(n: usize) -> (p: Vec<usize>)
    ensures
        p@.to_multiset() == all_indices(n as nat).to_multiset(),
        p@.len() == n,
        forall|i: int| 0 <= i < n ==> #[trigger] p@[i] < n,
{
    let mut p: Vec<usize> = Vec::new();
    let mut i: usize = 0;
    while i < n
        invariant
            i <= n,
            p@ == all_indices(n as nat).take(i as int),
        decreases n - i,
    {
        p.push(i);
        assert(all_indices(n as nat).take(i + 1) =~= all_indices(n as nat).take(i as int).push(i));
        i += 1;
    }
    assert(p@ =~= all_indices(n as nat));
    shuffle(&mut p);
    proof {
        let all = all_indices(n as nat);
        p@.to_multiset_ensures();
        all.to_multiset_ensures();
        assert forall|i: int| 0 <= i < n implies #[trigger] p@[i] < n by {
            assert(p@.contains(p@[i]));
            assert(all.to_multiset().count(p@[i]) > 0);
            assert(all.contains(p@[i]));
            let k = choose|k: int| 0 <= k < all.len() && all[k] == p@[i];
            assert(all[k] == k as usize);
        }
    }
    p
}

/// The greatest length of a lattice.
pub const MAX_LATTICE: usize = 0x4000_0000;

/// `n` is a power of two that a lattice can have as its length.
pub open spec fn is_lattice_size(n: usize) -> bool {
    &&& 0 < n <= MAX_LATTICE
    &&& (n as u64) & ((n - 1) as u64) == 0
}

/// The place on a lattice of length `n` that a coordinate falls on: the
/// coordinate's lowest bits.
pub open spec fn wrapped(coordinate: i32, n: usize) -> int {
    (coordinate & ((n - 1) as i32)) as int
}

/// The place in the table of the vector at a lattice point: the three
/// rearrangements, each asked at one coordinate's place, combined bit by bit
/// by exclusive or.
pub open spec fn lattice_place(
    perm_x: Seq<usize>,
    perm_y: Seq<usize>,
    perm_z: Seq<usize>,
    n: usize,
    i: i32,
    j: i32,
    k: i32,
) -> usize {
    perm_x[wrapped(i, n)] ^ perm_y[wrapped(j, n)] ^ perm_z[wrapped(k, n)]
}

/// A table of vectors with three rearrangements of its places.
pub struct Perlin<T> {
    ranfloat: Vec<T>,
    perm_x: Vec<usize>,
    perm_y: Vec<usize>,
    perm_z: Vec<usize>,
}

proof fn lemma_wrapped_in_range(coordinate: i32, mask: i32)
    requires
        mask >= 0,
    ensures
        0 <= coordinate & mask <= mask,
{
    assert(mask >= 0 ==> 0 <= coordinate & mask && coordinate & mask <= mask) by (bit_vector);
}

proof fn lemma_xor_stays_below(a: u64, b: u64, c: u64, n: u64)
    requires
        n > 0,
        n & ((n - 1) as u64) == 0,
        a < n,
        b < n,
        c < n,
    ensures
        a ^ b ^ c < n,
{
    assert(n > 0 && n & ((n - 1) as u64) == 0 && a < n && b < n && c < n ==> a ^ b ^ c < n)
        by (bit_vector);
}

impl<T> Perlin<T> {
    #[verifier::type_invariant]
    spec fn inv(self) -> bool {
        &&& is_lattice_size(self.ranfloat.len())
        &&& self.perm_x@.len() == self.ranfloat@.len()
        &&& self.perm_y@.len() == self.ranfloat@.len()
        &&& self.perm_z@.len() == self.ranfloat@.len()
        &&& forall|i: int| 0 <= i < self.perm_x@.len() ==> #[trigger] self.perm_x@[i] < self.ranfloat@.len()
        &&& forall|i: int| 0 <= i < self.perm_y@.len() ==> #[trigger] self.perm_y@[i] < self.ranfloat@.len()
        &&& forall|i: int| 0 <= i < self.perm_z@.len() ==> #[trigger] self.perm_z@[i] < self.ranfloat@.len()
    }

    /// The table of vectors.
    pub closed spec fn table(self) -> Seq<T> {
        self.ranfloat@
    }

    /// The place in the table of the vector at the lattice point `(i, j, k)`.
    pub closed spec fn place(self, i: i32, j: i32, k: i32) -> usize {
        lattice_place(self.perm_x@, self.perm_y@, self.perm_z@, self.ranfloat.len(), i, j, k)
    }

    /// Makes a lattice of the vectors `ranfloat`, with three rearrangements
    /// drawn by chance. There is none where the number of vectors is no power
    /// of two, or is beyond the greatest length.
    pub fn new(ranfloat: Vec<T>) -> (r: Option<Self>)
        ensures
            r is Some <==> is_lattice_size(ranfloat.len()),
            r matches Some(lattice) ==> lattice.table() == ranfloat@,
    {
        let n = ranfloat.len();
        if n == 0 || n > MAX_LATTICE {
            return None;
        }
        if (n as u64) & ((n - 1) as u64) != 0 {
            return None;
        }
        let perm_x = generate_perm(n);
        let perm_y = generate_perm(n);
        let perm_z = generate_perm(n);
        Some(Perlin { ranfloat, perm_x, perm_y, perm_z })
    }

    /// The vector at the lattice point `(i, j, k)`.
    pub fn corner(&self, i: i32, j: i32, k: i32) -> (r: &T)
        ensures
            self.place(i, j, k) < self.table().len(),
            *r == self.table()[self.place(i, j, k) as int],
    {
        proof {
            use_type_invariant(self);
        }
        let n = self.ranfloat.len();
        let mask = (n - 1) as i32;
        proof {
            lemma_wrapped_in_range(i, mask);
            lemma_wrapped_in_range(j, mask);
            lemma_wrapped_in_range(k, mask);
        }
        let a = self.perm_x[(i & mask) as usize];
        let b = self.perm_y[(j & mask) as usize];
        let c = self.perm_z[(k & mask) as usize];
        proof {
            lemma_xor_stays_below(a as u64, b as u64, c as u64, n as u64);
            assert(((a as u64) ^ (b as u64) ^ (c as u64)) as usize == a ^ b ^ c) by (bit_vector);
        }
        &self.ranfloat[a ^ b ^ c]
    }
}

} // verus!
