use zensally::nms::greedy_suppress;

fn table(n: usize, pairs: &[(usize, usize)]) -> Vec<Vec<bool>> {
    let mut t = vec![vec![false; n]; n];
    for &(i, j) in pairs {
        t[i][j] = true;
        t[j][i] = true;
    }
    t
}

#[test]
fn greedy_suppress_overlapping_pair() {
    // first two overlap strongly, third is far away
    let kept = greedy_suppress(&table(3, &[(0, 1)]));
    assert_eq!(kept, vec![0, 2]);
}

#[test]
fn greedy_suppress_empty() {
    assert!(greedy_suppress(&Vec::new()).is_empty());
}

#[test]
fn greedy_suppress_single() {
    assert_eq!(greedy_suppress(&table(1, &[])), vec![0]);
}

#[test]
fn greedy_suppress_chain_keeps_alternate() {
    // 0 overlaps 1, 1 overlaps 2: 1 is suppressed by 0, so 2 survives
    assert_eq!(greedy_suppress(&table(3, &[(0, 1), (1, 2)])), vec![0, 2]);
}

#[test]
fn greedy_suppress_no_overlap_keeps_all() {
    assert_eq!(greedy_suppress(&table(4, &[])), vec![0, 1, 2, 3]);
}

#[test]
fn greedy_suppress_all_overlap_keeps_first() {
    assert_eq!(greedy_suppress(&table(4, &[(0, 1), (0, 2), (0, 3), (1, 2), (1, 3), (2, 3)])), vec![0]);
}

#[test]
fn greedy_suppress_ignores_lower_triangle() {
    // only entries above the diagonal are read
    let mut t = vec![vec![false; 3]; 3];
    t[2][0] = true;
    t[1][1] = true;
    assert_eq!(greedy_suppress(&t), vec![0, 1, 2]);
}

#[test]
fn greedy_suppress_idempotent() {
    let t = table(5, &[(0, 2), (1, 3), (3, 4)]);
    let kept = greedy_suppress(&t);
    assert_eq!(kept, vec![0, 1, 4]);
    let sub: Vec<Vec<bool>> = kept.iter().map(|&a| kept.iter().map(|&b| t[a][b]).collect()).collect();
    assert_eq!(greedy_suppress(&sub), vec![0, 1, 2]);
}
