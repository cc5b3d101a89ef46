use ndvi_engine::lidar_stats::{position, summarize, PointRecord, ReturnPosition};

fn pt(return_number: u8, number_of_returns: u8, classification: u8, intensity: u16) -> PointRecord {
    PointRecord { return_number, number_of_returns, classification, intensity }
}

#[test]
fn positions_among_returns() {
    assert_eq!(position(pt(1, 1, 2, 0)), ReturnPosition::Only);
    assert_eq!(position(pt(1, 3, 2, 0)), ReturnPosition::First);
    assert_eq!(position(pt(3, 3, 2, 0)), ReturnPosition::Last);
    assert_eq!(position(pt(2, 3, 2, 0)), ReturnPosition::Intermediate);
    // returns past the fifth count as the fifth
    assert_eq!(position(pt(7, 5, 2, 0)), ReturnPosition::Last);
}

#[test]
fn summary_counts_and_range() {
    let points = vec![
        pt(1, 1, 2, 300),
        pt(1, 2, 5, 120),
        pt(2, 2, 5, 900),
        pt(2, 3, 1, 45),
        pt(6, 7, 7, 500),
    ];
    let s = summarize(&points);
    assert_eq!(s.by_return, vec![2, 2, 0, 0, 1]);
    assert_eq!(s.classes[2], 1);
    assert_eq!(s.classes[5], 2);
    assert_eq!(s.classes[1], 1);
    assert_eq!(s.classes[7], 1);
    assert_eq!(s.classes.iter().sum::<u64>(), 5);
    assert_eq!((s.only, s.first, s.last, s.intermediate), (1, 1, 1, 2));
    assert_eq!((s.min_intensity, s.max_intensity), (45, 900));
}

#[test]
fn summary_of_no_points() {
    let s = summarize(&Vec::new());
    assert_eq!(s.by_return, vec![0; 5]);
    assert_eq!(s.classes.len(), 256);
    assert_eq!((s.only, s.first, s.last, s.intermediate), (0, 0, 0, 0));
    assert_eq!((s.min_intensity, s.max_intensity), (u16::MAX, 0));
}
