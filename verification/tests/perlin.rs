use crab_rt::perlin::{Perlin, POINT_COUNT};
use crab_rt::scalar::Scalar;

#[test]
fn test_permutation() {
    let size = 256;
    let permutation = Perlin::permutation(size);
    assert_eq!(permutation.len(), size);

    let mut is_in_permutation = vec![false; size];
    for i in 0..size {
        is_in_permutation[permutation[i]] = true;
    }

    // Every value in is_in_permutation should be true
    assert!(is_in_permutation.into_iter().fold(true, |acc, e| acc && e));
}

#[test]
fn permutation_of_few() {
    assert_eq!(Perlin::permutation(0), Vec::<usize>::new());
    assert_eq!(Perlin::permutation(1), vec![0]);
    assert_eq!(Perlin::permutation(2), vec![1, 0]);
}

#[test]
fn permutation_moves_every_entry() {
    // Each entry changes places with one before it, so none stays where it
    // started: a draw that gave an entry's own place back would leave it.
    for _ in 0..20 {
        let permutation = Perlin::permutation(64);
        for i in 0..64 {
            assert_ne!(permutation[i], i);
        }
    }
}

#[test]
fn lattice_reads_the_table() {
    let table: Vec<Scalar> = (0..POINT_COUNT).map(|i| Scalar::from_bits(i as u32)).collect();
    let perlin = Perlin::new(table);

    for (i, j, k) in [(0isize, 0isize, 0isize), (1, 2, 3), (-1, -2, -3), (255, 256, 257), (-256, 1000, -1000)] {
        let value = perlin.lattice(i, j, k);
        assert!((value.to_bits() as usize) < POINT_COUNT);
        // Coordinates a whole table apart read the same entry.
        assert_eq!(perlin.lattice(i + 256, j - 256, k + 512).to_bits(), value.to_bits());
    }
}

#[test]
fn lattice_covers_the_table_along_each_axis() {
    let table: Vec<Scalar> = (0..POINT_COUNT).map(|i| Scalar::from_bits(i as u32)).collect();
    let perlin = Perlin::new(table);

    let mut seen = vec![false; POINT_COUNT];
    for i in 0..256isize {
        seen[perlin.lattice(i, 0, 0).to_bits() as usize] = true;
    }
    assert!(seen.into_iter().all(|e| e));
}
