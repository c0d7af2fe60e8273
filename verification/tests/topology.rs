use chubby_bunny::{
    bending_constraint_triples, boundary_constraint_pairs, opposite_shear_pairs, ring_neighbors,
    ring_step_pairs, shear_constraint_pairs,
};

#[test]
fn boundary_pairs_close_the_ring() {
    assert!(boundary_constraint_pairs(0).is_empty());
    assert!(boundary_constraint_pairs(1).is_empty());
    assert_eq!(boundary_constraint_pairs(2), vec![(0, 1), (1, 0)]);
    assert_eq!(boundary_constraint_pairs(3), vec![(0, 1), (1, 2), (2, 0)]);
}

#[test]
fn ring_neighbors_wrap_around() {
    assert_eq!(ring_neighbors(0, 5), (4, 1));
    assert_eq!(ring_neighbors(4, 5), (3, 0));
    assert_eq!(ring_neighbors(2, 5), (1, 3));
    assert_eq!(ring_neighbors(0, 1), (0, 0));
}

#[test]
fn bending_triples_of_triangle() {
    assert!(bending_constraint_triples(2).is_empty());
    assert_eq!(bending_constraint_triples(3), vec![(2, 0, 1), (0, 1, 2), (1, 2, 0)]);
}

#[test]
fn shear_pairs_of_small_polygons() {
    assert!(shear_constraint_pairs(3).is_empty());
    assert_eq!(shear_constraint_pairs(4), vec![(0, 2), (1, 3)]);
    assert_eq!(
        shear_constraint_pairs(6),
        vec![(0, 2), (1, 3), (2, 4), (3, 5), (4, 0), (5, 1), (0, 3), (1, 4), (2, 5)]
    );
}

#[test]
fn shear_pairs_have_no_duplicates() {
    for n in 0..40 {
        let pairs = shear_constraint_pairs(n);
        for (a, p) in pairs.iter().enumerate() {
            assert!(p.0 < n && p.1 < n && p.0 != p.1);
            for q in pairs.iter().skip(a + 1) {
                assert!((p.0.min(p.1), p.0.max(p.1)) != (q.0.min(q.1), q.0.max(q.1)));
            }
        }
    }
}

#[test]
fn opposite_shear_pairs_of_odd_ring() {
    assert!(opposite_shear_pairs(3).is_empty());
    assert_eq!(opposite_shear_pairs(4), vec![(0, 2), (1, 3)]);
    assert_eq!(opposite_shear_pairs(5), vec![(0, 2), (1, 4), (2, 4), (3, 1)]);
}

#[test]
fn ring_step_pairs_as_in_polygons() {
    assert_eq!(ring_step_pairs(4, 1), vec![(0, 1), (1, 2), (2, 3), (3, 0)]);
    assert_eq!(ring_step_pairs(4, 2), vec![(0, 2), (1, 3), (2, 0), (3, 1)]);
    assert_eq!(ring_step_pairs(1, 0), vec![(0, 0)]);
    assert!(ring_step_pairs(0, 3).is_empty());
}
