use docquery::ranking::top_indices;

#[test]
fn top_three_by_descending_score() {
    assert_eq!(top_indices(&vec![5, 9, 2, 1, 7], 3), vec![1, 4, 0]);
}

#[test]
fn ties_keep_chunk_order() {
    assert_eq!(top_indices(&vec![4, 9, 9, 1, 9], 3), vec![1, 2, 4]);
    assert_eq!(top_indices(&vec![3, 3, 3, 3], 3), vec![0, 1, 2]);
}

#[test]
fn fewer_chunks_than_wanted() {
    assert_eq!(top_indices(&vec![1, 8], 3), vec![1, 0]);
    assert_eq!(top_indices(&vec![], 3), Vec::<usize>::new());
}

#[test]
fn zero_wanted() {
    assert_eq!(top_indices(&vec![1, 2, 3], 0), Vec::<usize>::new());
}

#[test]
fn matches_a_stable_sort() {
    let keys: Vec<u32> = vec![10, 3, 10, 7, 3, 12, 0, 7, 7, 12];
    let mut order: Vec<usize> = (0..keys.len()).collect();
    order.sort_by(|a, b| keys[*b].cmp(&keys[*a]));
    for k in 0..=keys.len() {
        assert_eq!(top_indices(&keys, k), order[..k].to_vec());
    }
}
