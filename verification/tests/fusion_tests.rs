use agent_memory_rs::fusion::{reciprocal_rank_fusion, FusedHit, RRF_K};

fn score(h: &FusedHit) -> f64 {
    let part = |r: Option<usize>| r.map(|r| 1.0 / (RRF_K as f64 + r as f64)).unwrap_or(0.0);
    part(h.keyword_rank) + part(h.vector_rank)
}

#[test]
fn fusion_ranks_agreement_first() {
    let keyword = vec![10i64, 20, 30];
    let vector = vec![30i64, 40, 10];
    let out = reciprocal_rank_fusion(&keyword, &vector, 10);
    let ids: Vec<i64> = out.iter().map(|h| h.id).collect();
    // 10: 1/60 + 1/62, 30: 1/62 + 1/60, equal -> id order; then 20 (1/61), 40 (1/61).
    assert_eq!(ids, vec![10, 30, 20, 40]);
    assert_eq!(out[0], FusedHit { id: 10, keyword_rank: Some(0), vector_rank: Some(2) });
    assert_eq!(out[3], FusedHit { id: 40, keyword_rank: None, vector_rank: Some(1) });
    for w in out.windows(2) {
        assert!(score(&w[0]) >= score(&w[1]) - 1e-12);
    }
}

#[test]
fn fusion_truncates_and_handles_empty_lists() {
    let keyword = vec![1i64, 2, 3];
    let out = reciprocal_rank_fusion(&keyword, &Vec::new(), 2);
    assert_eq!(out.iter().map(|h| h.id).collect::<Vec<_>>(), vec![1, 2]);
    assert!(reciprocal_rank_fusion(&Vec::new(), &Vec::new(), 5).is_empty());
    let only_vector = reciprocal_rank_fusion(&Vec::new(), &vec![7i64, 8], 5);
    assert_eq!(only_vector[0], FusedHit { id: 7, keyword_rank: None, vector_rank: Some(0) });
}

#[test]
fn better_rank_scores_higher() {
    // An id ranked higher in one list and equal elsewhere comes first.
    let out = reciprocal_rank_fusion(&vec![5i64, 6], &vec![6i64, 5], 10);
    assert_eq!(out.len(), 2);
    assert!((score(&out[0]) - score(&out[1])).abs() < 1e-12);
    assert_eq!(out[0].id, 5);
}

#[test]
fn keyword_ranking_alone_is_kept_in_order() {
    let keyword = vec![42i64, 7, 19, 3];
    let out = reciprocal_rank_fusion(&keyword, &Vec::new(), 3);
    assert_eq!(
        out,
        vec![
            FusedHit { id: 42, keyword_rank: Some(0), vector_rank: None },
            FusedHit { id: 7, keyword_rank: Some(1), vector_rank: None },
            FusedHit { id: 19, keyword_rank: Some(2), vector_rank: None },
        ]
    );
    for (i, h) in out.iter().enumerate() {
        assert!((score(h) - 1.0 / (60.0 + i as f64)).abs() < 1e-15);
    }
}
