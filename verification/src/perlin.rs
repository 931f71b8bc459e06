use vstd::prelude::*;
use crate::rng::random_below;

verus! {

// Perlin noise support. The noise itself interpolates random gradient
// vectors, which is floating-point sampling and lives with the caller; what
// is kept and checked here are the three shuffled permutation tables the
// noise lattice is indexed through, so that every lookup stays in bounds.

/// `s` is a permutation of `0 .. n`: it has `n` entries, each below `n`,
/// no two alike.
pub open spec fn is_permutation(s: Seq<usize>, n: nat) -> bool {
    &&& s.len() == n
    &&& forall|i: int| 0 <= i < s.len() ==> #[trigger] s[i] < n
    &&& s.no_duplicates()
}

/// The shuffled lattice tables of a Perlin noise source, one permutation
/// of `0 .. point_count` per axis.
pub struct Perlin {
    pub perm_x: Vec<usize>,
    pub perm_y: Vec<usize>,
    pub perm_z: Vec<usize>,
    pub point_count: usize,
}

impl Perlin {
    pub open spec fn wf(self) -> bool {
        &&& is_permutation(self.perm_x@, self.point_count as nat)
        &&& is_permutation(self.perm_y@, self.point_count as nat)
        &&& is_permutation(self.perm_z@, self.point_count as nat)
    }

    pub fn new(point_count: usize) -> (p: Perlin)
        requires
            1 <= point_count,
        ensures
            p.wf(),
            p.point_count == point_count,
    {
        Perlin {
            perm_x: Perlin::generate_permutations(point_count, point_count),
            perm_y: Perlin::generate_permutations(point_count, point_count),
            perm_z: Perlin::generate_permutations(point_count, point_count),
            point_count,
        }
    }

    /// A freshly shuffled permutation of `0 .. point_count`.
    pub fn generate_permutations(capacity: usize, point_count: usize) -> (values: Vec<usize>)
        requires
            1 <= point_count,
        ensures
            is_permutation(values@, point_count as nat),
    {
        let mut values: Vec<usize> = Vec::with_capacity(capacity);
        for i in 0..point_count
            invariant
                values@.len() == i,
                forall|k: int| 0 <= k < i ==> #[trigger] values@[k] == k,
        {
            values.push(i);
        }
        assert(values@.no_duplicates());
        let ghost init = values@;
        Perlin::permute(&mut values, point_count);
        proof {
            assert forall|i: int| 0 <= i < values@.len() implies #[trigger] values@[i]
                < point_count by {
                assert(values@.contains(values@[i]));
                let k = choose|k: int| 0 <= k < init.len() && init[k] == values@[i];
                assert(init[k] == k);
            }
        }
        values
    }

    /// Shuffle `ptr` in place by random swaps; the entries are kept, only
    /// their order changes.
    fn permute(ptr: &mut Vec<usize>, count: usize)
        requires
            1 <= count <= old(ptr)@.len(),
        ensures
            final(ptr)@.len() == old(ptr)@.len(),
            forall|v: usize|
                #[trigger] final(ptr)@.contains(v) <==> old(ptr)@.contains(v),
            old(ptr)@.no_duplicates() ==> final(ptr)@.no_duplicates(),
    {
        let ghost orig = ptr@;
        let mut i: usize = count - 1;
        while i > 1
            invariant
                1 <= count <= ptr@.len(),
                i <= count,
                ptr@.len() == orig.len(),
                forall|v: usize| #[trigger] ptr@.contains(v) <==> orig.contains(v),
                orig.no_duplicates() ==> ptr@.no_duplicates(),
            decreases i,
        {
            i = i - 1;
            let target: usize = random_below(i);
            let ghost before = ptr@;
            let a = ptr[i];
            let b = ptr[target];
            ptr[i] = b;
            ptr[target] = a;
            proof {
                assert(ptr@ =~= before.update(i as int, b).update(target as int, a));
                assert forall|v: usize| #[trigger] ptr@.contains(v) implies before.contains(v) by {
                    let k = choose|k: int| 0 <= k < ptr@.len() && ptr@[k] == v;
                    if k == i as int {
                        assert(before[target as int] == v);
                    } else if k == target as int {
                        assert(before[i as int] == v);
                    } else {
                        assert(before[k] == v);
                    }
                }
                assert forall|v: usize| before.contains(v) implies #[trigger] ptr@.contains(v) by {
                    let k = choose|k: int| 0 <= k < before.len() && before[k] == v;
                    if k == i as int {
                        assert(ptr@[target as int] == v);
                    } else if k == target as int {
                        assert(ptr@[i as int] == v);
                    } else {
                        assert(ptr@[k] == v);
                    }
                }
                if before.no_duplicates() {
                    assert forall|p: int, q: int|
                        0 <= p < ptr@.len() && 0 <= q < ptr@.len() && p != q implies ptr@[p]
                        != ptr@[q] by {
                        let p0: int = if p == i as int {
                            target as int
                        } else if p == target as int {
                            i as int
                        } else {
                            p
                        };
                        let q0: int = if q == i as int {
                            target as int
                        } else if q == target as int {
                            i as int
                        } else {
                            q
                        };
                        assert(ptr@[p] == before[p0]);
                        assert(ptr@[q] == before[q0]);
                    }
                }
            }
        }
    }

    /// The gradient table index of the lattice corner `(ix, iy, iz)`. The
    /// tables fold each coordinate into `0 .. 256`, and because the three
    /// table entries are combined bitwise, the result stays below the
    /// table length.
    pub fn lattice_index(&self, ix: i64, iy: i64, iz: i64) -> (r: usize)
        requires
            self.wf(),
            self.point_count == 256,
        ensures
            r < 256,
    {
        let fx = (ix & 255) as usize;
        let fy = (iy & 255) as usize;
        let fz = (iz & 255) as usize;
        assert(0 <= (ix & 255) < 256 && 0 <= (iy & 255) < 256 && 0 <= (iz & 255) < 256)
            by (bit_vector);
        let px = self.perm_x[fx];
        let py = self.perm_y[fy];
        let pz = self.perm_z[fz];
        let r32: u32 = (px as u32) ^ (py as u32) ^ (pz as u32);
        assert({
            let a = px as u32;
            let b = py as u32;
            let c = pz as u32;
            a < 256 && b < 256 && c < 256 ==> (a ^ b ^ c) < 256
        }) by (bit_vector);
        r32 as usize
    }
}

} // verus!
