use gjk2d::gjk::{
    gjk_start, gjk_step, gjk_verdict, in_dir_of_center, point_in_dir, Progress, Simplex, Verdict,
    GJK, MAX_ROUNDS,
};
use gjk2d::shapes::{Circle, Rombus, Shapes};
use gjk2d::vector::{Vector2, ONE};

fn v(x: i32, y: i32) -> Vector2 {
    Vector2::new(x, y)
}

fn circle(x: i32, y: i32, r: i32) -> Shapes {
    Shapes::Circ(Circle::new(v(x, y), r).unwrap())
}

fn diamond(x: i32, y: i32, h: i32) -> Shapes {
    Shapes::Romb(Rombus::new(v(x, y), h).unwrap())
}

#[test]
fn circle_and_diamond_of_the_example_overlap() {
    let c = circle(ONE, ONE, ONE);
    let r = diamond(2 * ONE, 2 * ONE, ONE);
    assert!(GJK(c, r));
    assert!(GJK(r, c));
    assert_eq!(gjk_verdict(&c, &r), Verdict::Overlap);
}

#[test]
fn circle_of_the_example_reaches_past_the_diamond() {
    let c = circle(ONE, ONE, ONE);
    let r = diamond(2 * ONE, 2 * ONE, ONE);
    let d = v(1, 1);
    let on_circle = c.point_in_dir(d);
    let on_diamond = r.point_in_dir(d.negate());
    assert_eq!(on_circle, v(111877, 111877));
    assert_eq!(on_diamond, v(2 * ONE, ONE));
    assert!(d.dot(on_circle) >= d.dot(on_diamond));
}

#[test]
fn rounds_of_the_example() {
    let c = circle(ONE, ONE, ONE);
    let r = diamond(2 * ONE, 2 * ONE, ONE);
    let start = gjk_start(&c, &r);
    assert_eq!(start, Simplex { a: v(65536, -65536), b: v(-111877, 46341) });
    let round = gjk_step(&c, &r, start);
    assert_eq!(round.probe, v(-30578, 55435));
    assert_eq!(round.progress, Progress::Overlap);
    assert_eq!(round.simplex, start);

    let start = gjk_start(&r, &c);
    assert_eq!(start, Simplex { a: v(196608, 65536), b: v(-62173, 44811) });
    let round = gjk_step(&r, &c, start);
    assert_eq!(round.probe, v(70768, -65327));
    assert_eq!(round.progress, Progress::Overlap);
}

#[test]
fn support_of_the_difference() {
    let c = circle(ONE, ONE, ONE);
    let r = diamond(2 * ONE, 2 * ONE, ONE);
    assert_eq!(point_in_dir(&c, &r, v(ONE, 0)), v(65536, -65536));
    assert_eq!(point_in_dir(&c, &r, v(0, ONE)), v(-65536, 65536));
    assert_eq!(point_in_dir(&c, &r, v(-1, -1)), v(-177413, -111877));
    assert_eq!(point_in_dir(&c, &r, v(3, -2)), v(54530, -101889));
}

#[test]
fn support_of_the_difference_is_symmetric() {
    let c = circle(ONE, ONE, ONE);
    let r = diamond(2 * ONE, 2 * ONE, ONE);
    let k = circle(-700, 3000, 1234);
    for d in [v(3, -2), v(1, 0), v(-1, 1), v(-5, -9), v(0, 7)] {
        assert_eq!(point_in_dir(&c, &r, d), point_in_dir(&r, &c, d.negate()).negate());
        assert_eq!(point_in_dir(&c, &k, d), point_in_dir(&k, &c, d.negate()).negate());
        assert_eq!(point_in_dir(&r, &r, d), point_in_dir(&r, &r, d.negate()).negate());
    }
}

#[test]
fn direction_at_right_angles_to_the_line() {
    assert_eq!(in_dir_of_center(v(3, 1), v(1, 4)), v(-54530, -36353));
    assert_eq!(in_dir_of_center(v(1, 4), v(3, 1)), v(-54530, -36353));
}

#[test]
fn direction_when_the_origin_lies_between_the_points() {
    assert_eq!(in_dir_of_center(v(4, 0), v(-2, 0)), v(0, -ONE));
    assert_eq!(in_dir_of_center(v(0, 0), v(5, 5)), v(-46341, 46341));
    assert_eq!(in_dir_of_center(v(2, 2), v(0, 0)), v(46341, -46341));
}

#[test]
fn direction_when_the_origin_lies_beyond_the_points() {
    assert_eq!(in_dir_of_center(v(4, 0), v(2, 0)), v(-ONE, 0));
    assert_eq!(in_dir_of_center(v(2, 0), v(4, 0)), v(-ONE, 0));
}

#[test]
fn direction_from_a_single_point() {
    assert_eq!(in_dir_of_center(v(-3, -3), v(-3, -3)), v(46341, 46341));
    assert_eq!(in_dir_of_center(v(0, 0), v(0, 0)), v(ONE, 0));
}

#[test]
fn direction_between_the_farthest_points() {
    assert_eq!(
        in_dir_of_center(v(i32::MIN, i32::MIN), v(i32::MAX, i32::MAX)),
        v(-46341, 46341)
    );
    assert_eq!(in_dir_of_center(v(i32::MIN, i32::MAX), v(i32::MAX, i32::MAX)), v(0, -ONE));
}

#[test]
fn direction_points_to_the_side_of_the_origin() {
    let points = [v(3, 1), v(1, 4), v(-7, 2), v(100, -3), v(-20, -20), v(5, 0)];
    for p in points {
        for q in points {
            let d = in_dir_of_center(p, q);
            assert!(!d.is_zero());
            let e = q.sub(p);
            if e.cross(p.negate()) != 0 {
                // a small multiple of the direction leads from the line toward the origin
                assert!(d.dot(p.negate()) > 0);
            }
        }
    }
}

#[test]
fn circles_far_apart_on_a_horizontal_line_do_not_overlap() {
    assert!(!GJK(circle(0, 0, ONE), circle(5 * ONE, 0, ONE)));
    assert!(!GJK(circle(5 * ONE, 0, ONE), circle(0, 0, ONE)));
    assert_eq!(
        gjk_verdict(&circle(0, 0, ONE), &circle(5 * ONE, 0, ONE)),
        Verdict::NoOverlap
    );
}

#[test]
fn shapes_one_unit_apart_on_a_horizontal_line_do_not_overlap() {
    assert!(!GJK(circle(0, 7, ONE), circle(2 * ONE + 1, 7, ONE)));
    assert!(!GJK(circle(2 * ONE + 1, 7, ONE), circle(0, 7, ONE)));
    assert!(!GJK(diamond(0, 7, 10), circle(16, 7, 5)));
    assert!(!GJK(circle(16, 7, 5), diamond(0, 7, 10)));
    assert!(!GJK(diamond(0, 7, 10), diamond(-21, 7, 10)));
}

#[test]
fn shapes_touching_on_a_horizontal_line_overlap() {
    assert!(GJK(circle(0, 7, ONE), circle(2 * ONE, 7, ONE)));
    assert!(GJK(circle(2 * ONE, 7, ONE), circle(0, 7, ONE)));
    assert!(GJK(diamond(0, 7, 10), circle(15, 7, 5)));
    assert!(GJK(circle(15, 7, 5), diamond(0, 7, 10)));
    assert!(GJK(diamond(0, 7, 10), diamond(-20, 7, 10)));
}

#[test]
fn shapes_touching_in_other_places_overlap() {
    // circles of radius 2 and 3 whose centers are 5 apart
    assert!(GJK(circle(0, 0, 2 * ONE), circle(3 * ONE, 4 * ONE, 3 * ONE)));
    assert!(GJK(circle(3 * ONE, 4 * ONE, 3 * ONE), circle(0, 0, 2 * ONE)));
    assert!(GJK(circle(0, 0, 2), circle(3, 4, 3)));
    // one above the other
    assert!(GJK(circle(0, 0, 1), circle(0, 3, 2)));
    assert!(GJK(circle(0, 0, ONE), circle(0, -2 * ONE, ONE)));
    // diamonds sharing an edge
    assert!(GJK(diamond(0, 0, ONE), diamond(ONE, ONE, ONE)));
    // a corner of the diamond on the circle
    assert!(GJK(diamond(0, 20, 10), circle(0, 0, 10)));
}

#[test]
fn shapes_with_one_center_overlap() {
    assert!(GJK(circle(3, -4, 10), circle(3, -4, 700)));
    assert!(GJK(circle(3, -4, 10), diamond(3, -4, 5)));
    assert!(GJK(diamond(3, -4, 10), diamond(3, -4, 5)));
    assert!(GJK(diamond(3, -4, 10), circle(3, -4, 5)));
    assert!(GJK(circle(0, 0, 1), circle(0, 0, 1)));
}

#[test]
fn shapes_above_each_other_do_not_overlap() {
    assert!(!GJK(circle(0, 0, ONE), circle(0, 3 * ONE, ONE)));
    assert!(!GJK(diamond(0, 0, ONE), diamond(ONE + 1, ONE, ONE)));
}

#[test]
fn overlapping_shapes_are_never_told_apart() {
    let sizes = [1, 2, 5];
    for x in -6..=6 {
        for y in -6..=6 {
            for p in sizes {
                for q in sizes {
                    let reach = (p + q) * (p + q);
                    if x * x + y * y <= reach {
                        let verdict = gjk_verdict(&circle(0, 0, p), &circle(x, y, q));
                        assert_ne!(verdict, Verdict::NoOverlap);
                    }
                    if x.abs() + y.abs() <= p + q {
                        let verdict = gjk_verdict(&diamond(0, 0, p), &diamond(x, y, q));
                        assert_ne!(verdict, Verdict::NoOverlap);
                    }
                    // the center of the circle lies in the diamond
                    if x.abs() + y.abs() <= p {
                        let verdict = gjk_verdict(&diamond(0, 0, p), &circle(x, y, q));
                        assert_ne!(verdict, Verdict::NoOverlap);
                    }
                }
            }
        }
    }
}

#[test]
fn a_round_that_refines_the_second_point() {
    let s1 = circle(-5, -8, 6);
    let s2 = diamond(-1, 3, 6);
    let start = gjk_start(&s1, &s2);
    assert_eq!(start, Simplex { a: v(8, -11), b: v(-8, 0) });
    let first = gjk_step(&s1, &s2, start);
    assert_eq!(first.progress, Progress::Searching);
    assert_eq!(first.probe, v(0, 0));
    assert_eq!(first.simplex, Simplex { a: v(8, -11), b: v(0, 0) });
    let second = gjk_step(&s1, &s2, first.simplex);
    assert_eq!(second.progress, Progress::Overlap);
    assert_eq!(second.probe, v(-15, -15));
    assert_eq!(second.simplex, first.simplex);
    assert_eq!(gjk_verdict(&s1, &s2), Verdict::Overlap);
}

#[test]
fn a_round_that_refines_the_first_point() {
    let s1 = diamond(0, 1, 1);
    let s2 = circle(4, -5, 6);
    let start = gjk_start(&s1, &s2);
    assert_eq!(start, Simplex { a: v(3, 6), b: v(-7, -1) });
    let first = gjk_step(&s1, &s2, start);
    assert_eq!(first.progress, Progress::Searching);
    assert_eq!(first.simplex, Simplex { a: v(0, 0), b: v(-7, -1) });
    let second = gjk_step(&s1, &s2, first.simplex);
    assert_eq!(second.progress, Progress::Overlap);
    assert_eq!(second.probe, v(-3, -1));
    assert!(GJK(s1, s2));
}

#[test]
fn a_round_that_finds_no_overlap_keeps_the_simplex() {
    let s1 = circle(0, 0, ONE);
    let s2 = circle(0, 3 * ONE, ONE);
    let start = gjk_start(&s1, &s2);
    assert_eq!(start, Simplex { a: v(131072, -196608), b: v(-72706, -87548) });
    let round = gjk_step(&s1, &s2, start);
    assert_eq!(round.progress, Progress::NoOverlap);
    assert_eq!(round.probe, v(61848, -81044));
    assert_eq!(round.simplex, start);
}

#[test]
fn start_takes_the_origin_twice() {
    let s1 = circle(0, 0, ONE);
    let s2 = circle(2 * ONE, 0, ONE);
    assert_eq!(gjk_start(&s1, &s2), Simplex { a: v(0, 0), b: v(0, 0) });
}

#[test]
fn one_search_direction_can_take_distant_diamonds_for_overlapping() {
    // The test looks across the line through its two rim points only: these
    // two lie ten units apart, and it finds no gap in that direction.
    let s1 = diamond(10, 1, 1);
    let s2 = diamond(0, 0, 1);
    let start = gjk_start(&s1, &s2);
    assert_eq!(start, Simplex { a: v(12, 1), b: v(8, 1) });
    let round = gjk_step(&s1, &s2, start);
    assert_eq!(round.probe, v(10, -1));
    assert_eq!(round.progress, Progress::Overlap);
    assert!(GJK(s1, s2));
}

#[test]
fn the_test_gives_up_after_sixty_four_rounds() {
    assert_eq!(MAX_ROUNDS, 64);
}
