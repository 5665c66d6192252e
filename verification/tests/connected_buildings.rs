use street_smarts_patterns::p108_connected_buildings::connect_pads;

/// A table with the given `(i, j, key)` gaps, made symmetric.
fn table(n: usize, gaps: &[(usize, usize, u64)]) -> Vec<Vec<Option<u64>>> {
    let mut near = vec![vec![None; n]; n];
    for &(i, j, k) in gaps {
        near[i][j] = Some(k);
        near[j][i] = Some(k);
    }
    near
}

#[test]
fn isolated_pads_stay_alone() {
    let near = table(3, &[]);
    assert_eq!(connect_pads(&near, 4), vec![vec![0], vec![1], vec![2]]);
}

#[test]
fn the_closest_free_pad_joins_first() {
    // pad 0 is close to 2 (key 1) and to 1 (key 5); 1 is close to 3 (key 2)
    let near = table(4, &[(0, 2, 1), (0, 1, 5), (1, 3, 2)]);
    assert_eq!(connect_pads(&near, 4), vec![vec![0, 2, 1, 3]]);
}

#[test]
fn clusters_stop_at_max_cluster() {
    let near = table(4, &[(0, 1, 1), (1, 2, 1), (2, 3, 1)]);
    assert_eq!(connect_pads(&near, 2), vec![vec![0, 1], vec![2, 3]]);
}

#[test]
fn equal_gaps_go_to_the_earliest_member_then_lowest_pad() {
    let near = table(4, &[(0, 3, 2), (0, 2, 2), (1, 2, 2)]);
    assert_eq!(connect_pads(&near, 3), vec![vec![0, 2, 3], vec![1]]);
}

#[test]
fn every_pad_lands_in_exactly_one_cluster() {
    let near = table(6, &[(0, 4, 3), (4, 5, 1), (1, 2, 2), (2, 3, 9)]);
    let clusters = connect_pads(&near, 3);
    let mut seen: Vec<usize> = clusters.iter().flatten().copied().collect();
    seen.sort();
    assert_eq!(seen, vec![0, 1, 2, 3, 4, 5]);
    assert!(clusters.iter().all(|c| !c.is_empty() && c.len() <= 3));
}

#[test]
fn no_pads_no_clusters() {
    assert!(connect_pads(&Vec::new(), 2).is_empty());
}
