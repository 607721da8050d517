//! The lattice behind Perlin noise: a table of numbers, read through three
//! permutations.

use vstd::prelude::*;
use crate::chance::range_below;
use crate::scalar::Scalar;

verus! {

/// The number of points in the table, and of entries in each permutation.
pub const POINT_COUNT: usize = 256;

/// Whether a run of numbers holds each of `0`, .., `n - 1` exactly once.
pub open spec fn is_permutation(values: Seq<usize>, n: nat) -> bool {
    &&& values.len() == n
    &&& forall|i: int| 0 <= i < n ==> (#[trigger] values[i]) < n
    &&& forall|i: int, j: int| 0 <= i < j < n ==> values[i] != values[j]
    &&& forall|v: usize| v < n ==> #[trigger] values.contains(v)
}

/// The place of a lattice coordinate in a permutation: its remainder by the
/// number of points, never negative.
pub open spec fn wrap(coordinate: int) -> int {
    coordinate % (POINT_COUNT as int)
}

/// The lattice of a noise function.
#[derive(Debug)]
pub struct Perlin {
    random_floats: Vec<Scalar>,
    x_permutation: Vec<usize>,
    y_permutation: Vec<usize>,
    z_permutation: Vec<usize>,
}

impl Perlin {
    #[verifier::type_invariant]
    pub open spec fn inv(&self) -> bool {
        self.wf()
    }

    /// The table of numbers.
    pub closed spec fn values(&self) -> Seq<Scalar> {
        self.random_floats@
    }

    /// The permutation that the x coordinate is read through.
    pub closed spec fn x_permutation(&self) -> Seq<usize> {
        self.x_permutation@
    }

    /// The permutation that the y coordinate is read through.
    pub closed spec fn y_permutation(&self) -> Seq<usize> {
        self.y_permutation@
    }

    /// The permutation that the z coordinate is read through.
    pub closed spec fn z_permutation(&self) -> Seq<usize> {
        self.z_permutation@
    }

    /// The table has as many numbers as there are points, and each of the
    /// three is a permutation of the points.
    pub open spec fn wf(&self) -> bool {
        &&& self.values().len() == POINT_COUNT
        &&& is_permutation(self.x_permutation(), POINT_COUNT as nat)
        &&& is_permutation(self.y_permutation(), POINT_COUNT as nat)
        &&& is_permutation(self.z_permutation(), POINT_COUNT as nat)
    }

    /// Where in the table the number of a lattice point stands.
    pub open spec fn slot(&self, i: int, j: int, k: int) -> usize {
        self.x_permutation()[wrap(i)] ^ self.y_permutation()[wrap(j)] ^ self.z_permutation()[wrap(k)]
    }

    /// A lattice over a table of numbers, one for each point, with three
    /// permutations drawn at random.
    pub fn new(random_floats: Vec<Scalar>) -> (perlin: Self)
        requires
            random_floats@.len() == POINT_COUNT,
        ensures
            perlin.wf(),
            perlin.values() == random_floats@,
    {
        Perlin {
            random_floats,
            x_permutation: Self::permutation(POINT_COUNT),
            y_permutation: Self::permutation(POINT_COUNT),
            z_permutation: Self::permutation(POINT_COUNT),
        }
    }

    /// The number at a lattice point. Coordinates that differ by a multiple
    /// of the number of points read the same entries.
    pub fn lattice(&self, i: isize, j: isize, k: isize) -> (value: Scalar)
        ensures
            self.slot(i as int, j as int, k as int) < POINT_COUNT,
            value == self.values()[self.slot(i as int, j as int, k as int) as int],
    {
        proof {
            use_type_invariant(self);
        }
        let a: usize = Self::wrapped(i);
        let b: usize = Self::wrapped(j);
        let c: usize = Self::wrapped(k);
        let x: usize = self.x_permutation[a];
        let y: usize = self.y_permutation[b];
        let z: usize = self.z_permutation[c];
        assert(x ^ y ^ z < 256) by (bit_vector)
            requires
                x < 256,
                y < 256,
                z < 256,
        ;
        self.random_floats[x ^ y ^ z]
    }

    /// The place of a lattice coordinate in a permutation.
    fn wrapped(coordinate: isize) -> (place: usize)
        ensures
            place == wrap(coordinate as int),
            place < POINT_COUNT,
    {
        let low: isize = coordinate & 255;
        assert(0 <= low < 256 && low == (coordinate as int) % 256) by {
            let c: i64 = coordinate as i64;
            assert(0 <= (c & 255) < 256) by (bit_vector);
            assert((c & 255) == c - 256 * (c >> 8)) by (bit_vector);
            assert((c & 255i64) as isize == coordinate & 255isize);
        }
        low as usize
    }

    /// The numbers `0`, .., `n - 1` in an order drawn at random: from the
    /// last place down to the second, each entry changes places with one that
    /// stands before it.
    pub fn permutation(n: usize) -> (perm: Vec<usize>)
        ensures
            is_permutation(perm@, n as nat),
    {
        let mut perm: Vec<usize> = Vec::new();
        let mut filled: usize = 0;
        while filled < n
            invariant
                filled <= n,
                perm@.len() == filled,
                forall|i: int| 0 <= i < filled ==> perm@[i] == i,
            decreases n - filled,
        {
            perm.push(filled);
            filled += 1;
        }
        let ghost mut places: Seq<int> = Seq::new(n as nat, |v: int| v);
        let mut i: usize = n;
        while i > 1
            invariant
                i <= n,
                perm@.len() == n,
                places.len() == n,
                forall|k: int| 0 <= k < n ==> (#[trigger] perm@[k]) < n,
                forall|a: int, b: int| 0 <= a < b < n ==> perm@[a] != perm@[b],
                forall|v: int| 0 <= v < n ==> 0 <= #[trigger] places[v] < n && perm@[places[v]] == v,
            decreases i,
        {
            i -= 1;
            let j: usize = range_below(i);
            let at_i: usize = perm[i];
            let at_j: usize = perm[j];
            perm.set(i, at_j);
            perm.set(j, at_i);
            proof {
                places = places.update(at_i as int, j as int).update(at_j as int, i as int);
            }
        }
        proof {
            assert forall|v: usize| v < n implies #[trigger] perm@.contains(v) by {
                assert(perm@[places[v as int]] == v);
            }
        }
        perm
    }
}

} // verus!
