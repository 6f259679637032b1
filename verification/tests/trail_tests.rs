use space_sim::trail::{Span, TrailHistory, TRAIL_LENGTH};

#[test]
fn new_trails_are_empty() {
    let t: TrailHistory<u32> = TrailHistory::new(3);
    assert_eq!(t.points.len(), 3);
    assert!(t.points.iter().all(|p| p.is_empty()));
    assert!(t.ranges.is_empty());
    assert_eq!(t.num_vertices, 0);
}

#[test]
fn update_records_and_lays_out() {
    let mut t: TrailHistory<u32> = TrailHistory::new(2);
    let s = t.update(&vec![10, 20]);
    assert_eq!(t.points, vec![vec![10], vec![20]]);
    assert_eq!(t.ranges, vec![Span { start: 0, end: 1 }, Span { start: 1, end: 2 }]);
    assert_eq!(t.num_vertices, 2);
    assert_eq!(s.len(), 2);
    assert_eq!((s[1].point, s[1].index, s[1].len), (20, 0, 1));
    let s = t.update(&vec![11, 21]);
    assert_eq!(t.points, vec![vec![10, 11], vec![20, 21]]);
    assert_eq!(t.ranges, vec![Span { start: 0, end: 2 }, Span { start: 2, end: 4 }]);
    assert_eq!(t.num_vertices, 4);
    let got: Vec<(u32, u32, u32)> = s.iter().map(|x| (x.point, x.index, x.len)).collect();
    assert_eq!(got, vec![(10, 0, 2), (11, 1, 2), (20, 0, 2), (21, 1, 2)]);
}

#[test]
fn trail_keeps_only_the_latest_points() {
    let mut t: TrailHistory<u32> = TrailHistory::new(1);
    for p in 0..30u32 {
        t.update(&vec![p]);
    }
    assert_eq!(TRAIL_LENGTH, 25);
    assert_eq!(t.points[0], (5..30).collect::<Vec<u32>>());
    assert_eq!(t.num_vertices, 25);
    assert_eq!(t.ranges, vec![Span { start: 0, end: 25 }]);
}

#[test]
fn trail_grows_for_new_bodies_and_keeps_others() {
    let mut t: TrailHistory<u32> = TrailHistory::new(0);
    t.update(&vec![1, 2, 3]);
    assert_eq!(t.points, vec![vec![1], vec![2], vec![3]]);
    t.update(&vec![4]);
    assert_eq!(t.points, vec![vec![1, 4], vec![2], vec![3]]);
    assert_eq!(
        t.ranges,
        vec![Span { start: 0, end: 2 }, Span { start: 2, end: 3 }, Span { start: 3, end: 4 }]
    );
    let s = t.update(&vec![]);
    assert_eq!(t.points, vec![vec![1, 4], vec![2], vec![3]]);
    assert_eq!(s.len(), 4);
}

#[test]
fn vertex_count_after_update_predicts_update() {
    let mut t: TrailHistory<u32> = TrailHistory::new(2);
    for p in 0..25u32 {
        t.update(&vec![p, p]);
    }
    let positions = vec![100, 100, 100];
    assert_eq!(t.vertex_count_after_update(&positions), Some(51));
    t.update(&positions);
    assert_eq!(t.num_vertices, 51);
    assert_eq!(t.vertex_count_after_update(&vec![]), Some(51));
}

#[test]
fn overlong_trail_drops_only_one_point() {
    let mut t: TrailHistory<u32> = TrailHistory::new(0);
    t.points.push((0..30).collect());
    t.update(&vec![30]);
    assert_eq!(t.points[0], (1..31).collect::<Vec<u32>>());
}
