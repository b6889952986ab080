use agent_memory_rs::ranking::{item_ranks_before, rank_by_key, rank_items, RankItem};

#[test]
fn rank_by_key_is_stable_descending_and_truncated() {
    let keys = vec![5u64, 9, 5, 1, 9];
    assert_eq!(rank_by_key(&keys, 10), vec![1, 4, 0, 2, 3]);
    assert_eq!(rank_by_key(&keys, 2), vec![1, 4]);
    assert_eq!(rank_by_key(&keys, 0), Vec::<usize>::new());
    assert_eq!(rank_by_key(&Vec::new(), 3), Vec::<usize>::new());
}

#[test]
fn rank_items_compares_exact_fractions() {
    let items = vec![
        RankItem { num: 1, den: 3, tiebreak: 10 },
        RankItem { num: 1, den: 2, tiebreak: 20 },
        RankItem { num: 2, den: 6, tiebreak: 5 },
        RankItem { num: 0, den: 1, tiebreak: 1 },
    ];
    // 1/2 first; 1/3 and 2/6 tie and are ordered by the smaller tiebreak.
    assert_eq!(rank_items(&items, 10), vec![1, 2, 0, 3]);
    assert_eq!(rank_items(&items, 1), vec![1]);
    assert!(item_ranks_before(&items[1], &items[0]));
    assert!(item_ranks_before(&items[2], &items[0]));
    assert!(!item_ranks_before(&items[0], &items[2]));
}
