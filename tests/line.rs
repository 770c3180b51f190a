use softrender::line::line_points;

fn check_line(p0: (i64, i64), p1: (i64, i64)) -> Vec<(i64, i64)> {
    let points = line_points(p0.0, p0.1, p1.0, p1.1);
    let dx = (p1.0 - p0.0).abs();
    let dy = (p1.1 - p0.1).abs();
    assert_eq!(points.len() as i64, dx.max(dy) + 1);
    assert!(points.contains(&p0));
    assert!(points.contains(&p1));
    for pair in points.windows(2) {
        let step_x = (pair[1].0 - pair[0].0).abs();
        let step_y = (pair[1].1 - pair[0].1).abs();
        assert!(step_x <= 1 && step_y <= 1 && step_x + step_y >= 1);
    }
    points
}

#[test]
fn _test_line() {
    check_line((20, 34), (744, 400));
    check_line((120, 434), (444, 400));
    check_line((330, 463), (594, 200));
    check_line((10, 10), (790, 10));
}

#[test]
fn shallow_line_points() {
    assert_eq!(
        line_points(0, 0, 4, 2),
        vec![(0, 0), (1, 0), (2, 1), (3, 1), (4, 2)]
    );
}

#[test]
fn steep_and_reversed_lines() {
    assert_eq!(line_points(0, 0, 1, 3), vec![(0, 0), (0, 1), (1, 2), (1, 3)]);
    assert_eq!(line_points(3, 1, 0, 0), vec![(0, 0), (1, 0), (2, 1), (3, 1)]);
    assert_eq!(line_points(2, 2, 2, 2), vec![(2, 2)]);
    check_line((5, 0), (0, -7));
}
