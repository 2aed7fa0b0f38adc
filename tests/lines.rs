use rustlike::line::{trace_line, tunnel_with_corner, Point};

fn steps_ok(cells: &[(i32, i32)]) -> bool {
    cells.windows(2).all(|w| {
        let dx = w[1].0 - w[0].0;
        let dy = w[1].1 - w[0].1;
        dx.abs() <= 1 && dy.abs() <= 1 && !(dx == 0 && dy == 0)
    })
}

#[test]
fn horizontal_line_is_straight() {
    let r = trace_line(Point::new(2, 5), Point::new(6, 5));
    assert_eq!(r, vec![(2, 5), (3, 5), (4, 5), (5, 5)]);
}

#[test]
fn vertical_line_upwards_is_straight() {
    let r = trace_line(Point::new(3, 9), Point::new(3, 6));
    assert_eq!(r, vec![(3, 9), (3, 8), (3, 7)]);
}

#[test]
fn leftwards_line_is_straight() {
    let r = trace_line(Point::new(4, 1), Point::new(1, 1));
    assert_eq!(r, vec![(4, 1), (3, 1), (2, 1)]);
}

#[test]
fn line_to_same_point_is_empty() {
    assert!(trace_line(Point::new(4, 4), Point::new(4, 4)).is_empty());
}

#[test]
fn diagonal_line_takes_unit_steps() {
    let pairs = [((0, 0), (7, 3)), ((10, 2), (1, 8)), ((5, 5), (6, 12)), ((9, 9), (0, 0))];
    for ((x0, y0), (x1, y1)) in pairs {
        let r = trace_line(Point::new(x0, y0), Point::new(x1, y1));
        let n = std::cmp::max((x1 - x0).abs(), (y1 - y0).abs()) as usize;
        assert_eq!(r.len(), n);
        assert_eq!(r[0], (x0, y0));
        assert!(steps_ok(&r));
        let last = r[r.len() - 1];
        assert!((x1 - last.0).abs() <= 1 && (y1 - last.1).abs() <= 1);
    }
}

#[test]
fn corridor_turns_at_the_chosen_corner() {
    let a = Point::new(2, 2);
    let b = Point::new(5, 4);
    let h = tunnel_with_corner(a, b, true);
    assert_eq!(h, vec![(2, 2), (3, 2), (4, 2), (5, 2), (5, 3), (5, 4)]);
    let v = tunnel_with_corner(a, b, false);
    assert_eq!(v, vec![(2, 2), (2, 3), (2, 4), (3, 4), (4, 4), (5, 4)]);
}

#[test]
fn corridor_turning_either_way_reaches_its_end() {
    let a = Point::new(1, 1);
    let b = Point::new(3, 2);
    assert_eq!(tunnel_with_corner(a, b, true), vec![(1, 1), (2, 1), (3, 1), (3, 2)]);
    assert_eq!(tunnel_with_corner(a, b, false), vec![(1, 1), (1, 2), (2, 2), (3, 2)]);
}

#[test]
fn straight_corridor_includes_both_ends() {
    let a = Point::new(2, 3);
    let b = Point::new(2, 7);
    let expected = vec![(2, 3), (2, 4), (2, 5), (2, 6), (2, 7)];
    assert_eq!(tunnel_with_corner(a, b, true), expected);
    assert_eq!(tunnel_with_corner(a, b, false), expected);
}

#[test]
fn corridor_between_equal_points_is_that_point() {
    let a = Point::new(4, 4);
    assert_eq!(tunnel_with_corner(a, a, true), vec![(4, 4)]);
}
