use agent_memory_rs::embedding::{batch_layout, max_row_len, pad_rows};

#[test]
fn rows_are_padded_row_major() {
    let rows = vec![vec![101u32, 7, 102], vec![101, 102], vec![]];
    assert_eq!(max_row_len(&rows), 3);
    assert_eq!(pad_rows(&rows, 3), vec![101, 7, 102, 101, 102, 0, 0, 0, 0]);
    assert_eq!(pad_rows(&rows, 4), vec![101, 7, 102, 0, 101, 102, 0, 0, 0, 0, 0, 0]);
    assert_eq!(max_row_len(&Vec::new()), 0);
    assert!(pad_rows(&Vec::new(), 5).is_empty());
}

#[test]
fn batch_layout_pads_ids_and_masks_together() {
    let ids = vec![vec![101u32, 2054, 102], vec![101, 102]];
    let masks = vec![vec![1u32, 1, 1], vec![1, 1]];
    let (flat_ids, flat_masks, width) = batch_layout(&ids, &masks);
    assert_eq!(width, 3);
    assert_eq!(flat_ids, vec![101, 2054, 102, 101, 102, 0]);
    assert_eq!(flat_masks, vec![1, 1, 1, 1, 1, 0]);
    let (a, b, w) = batch_layout(&Vec::new(), &Vec::new());
    assert!(a.is_empty() && b.is_empty());
    assert_eq!(w, 0);
}
