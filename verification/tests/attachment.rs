use chubby_bunny::{
    expand_candidates_to_supports, prune_distance_outliers, select_child_anchor_indices,
    sort_candidates_by_distance, AttachmentCandidate, AttachmentSettings,
};

fn settings(stride: usize, max_total: usize, springs: usize) -> AttachmentSettings<f32> {
    AttachmentSettings {
        child_sample_stride: stride,
        max_total_attachments: max_total,
        max_distance_factor: 2.0,
        parent_springs_per_child_anchor: springs,
    }
}

fn cand(parent_idx: usize, child_idx: usize, distance_rank: u64) -> AttachmentCandidate {
    AttachmentCandidate { parent_idx, child_idx, distance_rank }
}

#[test]
fn anchors_sampled_with_stride() {
    assert_eq!(select_child_anchor_indices(10, &settings(3, 8, 1)), vec![0, 3, 6, 9]);
    assert_eq!(select_child_anchor_indices(9, &settings(3, 8, 1)), vec![0, 3, 6]);
    assert!(select_child_anchor_indices(0, &settings(3, 8, 1)).is_empty());
}

#[test]
fn anchors_spread_when_too_many() {
    assert_eq!(select_child_anchor_indices(20, &settings(1, 4, 1)), vec![0, 5, 10, 15]);
    assert_eq!(select_child_anchor_indices(20, &settings(5, 3, 1)), vec![0, 5, 10]);
    assert_eq!(select_child_anchor_indices(7, &settings(1, 3, 1)), vec![0, 2, 4]);
}

#[test]
fn anchors_zero_stride_and_zero_limit() {
    assert_eq!(select_child_anchor_indices(3, &settings(0, 8, 1)), vec![0, 1, 2]);
    assert!(select_child_anchor_indices(3, &settings(1, 0, 1)).is_empty());
}

#[test]
fn sort_is_stable() {
    let input = vec![cand(0, 0, 5), cand(1, 1, 2), cand(2, 2, 5), cand(3, 3, 1), cand(4, 4, 2)];
    let sorted = sort_candidates_by_distance(input);
    let order: Vec<usize> = sorted.iter().map(|c| c.child_idx).collect();
    assert_eq!(order, vec![3, 1, 4, 0, 2]);
    assert!(sort_candidates_by_distance(vec![]).is_empty());
}

#[test]
fn prune_small_sets_kept_whole() {
    let sorted = vec![cand(0, 0, 1), cand(0, 1, 2), cand(0, 2, 1000), cand(0, 3, 5000)];
    assert_eq!(prune_distance_outliers(sorted.clone(), 0), sorted);
}

#[test]
fn prune_drops_far_candidates_but_keeps_three() {
    let sorted: Vec<_> = [1u64, 2, 3, 4, 5, 100].iter().enumerate().map(|(i, r)| cand(0, i, *r)).collect();
    assert_eq!(prune_distance_outliers(sorted.clone(), 10).len(), 5);
    assert_eq!(prune_distance_outliers(sorted.clone(), 100).len(), 6);
    assert_eq!(prune_distance_outliers(sorted.clone(), 0), sorted[..3].to_vec());
    assert_eq!(prune_distance_outliers(sorted.clone(), 3), sorted[..3].to_vec());
}

#[test]
fn supports_spread_around_parent() {
    let (parents, children) =
        expand_candidates_to_supports(&vec![cand(0, 7, 0), cand(0, 7, 3)], 6, &settings(1, 8, 3));
    assert_eq!(parents, vec![0, 2, 4]);
    assert_eq!(children, vec![7, 7, 7]);
}

#[test]
fn supports_sorted_and_wrapped() {
    let (parents, children) =
        expand_candidates_to_supports(&vec![cand(5, 1, 0), cand(5, 2, 0)], 6, &settings(1, 8, 2));
    // supports of parent 5 are 5 and (5 + 3) % 6 = 2, in increasing order
    assert_eq!(parents, vec![2, 5, 2, 5]);
    assert_eq!(children, vec![1, 1, 2, 2]);
}

#[test]
fn supports_zero_springs_and_empty_parent() {
    let (parents, children) = expand_candidates_to_supports(&vec![cand(3, 0, 0)], 4, &settings(1, 8, 0));
    assert_eq!((parents, children), (vec![3], vec![0]));
    let (parents, children) = expand_candidates_to_supports(&vec![cand(0, 0, 0)], 0, &settings(1, 8, 3));
    assert!(parents.is_empty() && children.is_empty());
}
