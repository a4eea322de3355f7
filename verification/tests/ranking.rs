use ebm25::{rank, Scored};

fn ids(v: &[Scored]) -> Vec<u64> {
    v.iter().map(|s| s.id).collect()
}

#[test]
fn rank_orders_by_falling_score_then_rising_id() {
    let candidates = vec![
        Scored { id: 5, score: 10 },
        Scored { id: 3, score: 30 },
        Scored { id: 9, score: 10 },
        Scored { id: 1, score: 10 },
        Scored { id: 7, score: 20 },
    ];
    assert_eq!(ids(&rank(&candidates, 10)), vec![3, 7, 1, 5, 9]);
    assert_eq!(ids(&rank(&candidates, 5)), vec![3, 7, 1, 5, 9]);
    assert_eq!(ids(&rank(&candidates, 3)), vec![3, 7, 1]);
    assert_eq!(ids(&rank(&candidates, 1)), vec![3]);
    assert_eq!(ids(&rank(&candidates, 0)), Vec::<u64>::new());
    assert_eq!(rank(&Vec::new(), 4), Vec::<Scored>::new());
}

#[test]
fn rank_does_not_depend_on_the_order_of_the_candidates() {
    let a = vec![
        Scored { id: 2, score: 7 },
        Scored { id: 1, score: 7 },
        Scored { id: 3, score: 8 },
    ];
    let b = vec![
        Scored { id: 3, score: 8 },
        Scored { id: 1, score: 7 },
        Scored { id: 2, score: 7 },
    ];
    assert_eq!(rank(&a, 3), rank(&b, 3));
    assert_eq!(ids(&rank(&a, 3)), vec![3, 1, 2]);
}
