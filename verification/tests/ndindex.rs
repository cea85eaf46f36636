use rds::array::ndindex::NDIndex;

#[test]
fn row_major_traversal_visits_every_index() {
    let shape = [3usize, 3, 3];
    let strides = [9usize, 3, 1];
    let mut idx = vec![0usize, 0, 0];
    let mut seen = vec![false; 27];
    let mut count = 0;
    let mut last = idx.clone();
    loop {
        let pos = idx.to_pos(&shape, &strides);
        assert_eq!(pos, count);
        assert!(!seen[pos]);
        seen[pos] = true;
        last = idx.clone();
        count += 1;
        idx.inc_ro(&shape);
        if idx.is_zero() {
            break;
        }
    }
    assert_eq!(count, 27);
    assert_eq!(last, vec![2, 2, 2]);
    assert!(seen.iter().all(|s| *s));
}

#[test]
fn column_major_traversal_visits_every_index() {
    let shape = [2usize, 3];
    let mut idx = vec![0usize, 0];
    let mut visited: Vec<Vec<usize>> = Vec::new();
    loop {
        visited.push(idx.clone());
        idx.inc_co(&shape);
        if idx.is_zero() {
            break;
        }
    }
    assert_eq!(
        visited,
        vec![vec![0, 0], vec![1, 0], vec![0, 1], vec![1, 1], vec![0, 2], vec![1, 2]]
    );
}

#[test]
fn decrement_steps_back() {
    let shape = [2usize, 3];
    let mut idx = vec![0usize, 0];
    idx.dec_ro(&shape);
    assert_eq!(idx, vec![1, 2]);
    idx.dec_ro(&shape);
    assert_eq!(idx, vec![1, 1]);
    idx.inc_ro(&shape);
    idx.inc_ro(&shape);
    assert_eq!(idx, vec![0, 0]);
    idx.dec_co(&shape);
    assert_eq!(idx, vec![1, 2]);
    idx.dec_co(&shape);
    assert_eq!(idx, vec![0, 2]);
    let mut one = vec![1usize, 0];
    one.dec_ro(&shape);
    assert_eq!(one, vec![0, 2]);
}

#[test]
fn position_is_weighted_sum() {
    let idx = [1usize, 2, 3];
    assert_eq!(idx.to_pos(&[2, 3, 4], &[12, 4, 1]), 12 + 8 + 3);
    assert_eq!(idx.to_pos(&[2, 3, 4], &[1, 2, 6]), 1 + 4 + 18);
    let mut zero = [0usize, 0];
    assert!(zero.is_zero());
    let mut other = [0usize, 1];
    assert!(!other.is_zero());
    let mut empty: [usize; 0] = [];
    assert!(empty.is_zero());
}
