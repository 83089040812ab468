use doodles_lib::geometry::{Domain, Point};
use doodles_lib::random::{random_between, random_index, Samplable};

#[test]
fn squared_distances() {
    let a = Point { x: 1, y: 2 };
    let b = Point { x: 4, y: 6 };
    assert_eq!(a.distance_squared(&b), 25);
    assert_eq!(b.distance_squared(&a), 25);
    assert_eq!(a.distance_squared(&a), 0);
    let low = Point { x: i32::MIN, y: i32::MIN };
    let high = Point { x: i32::MAX, y: i32::MAX };
    assert_eq!(low.distance_squared(&high), 2 * 4_294_967_295u128 * 4_294_967_295u128);
}

#[test]
fn points_are_apart_from_r_on() {
    let a = Point { x: 0, y: 0 };
    assert!(a.is_apart(&Point { x: 3, y: 4 }, 5));
    assert!(!a.is_apart(&Point { x: 3, y: 4 }, 6));
    assert!(a.is_apart(&Point { x: 3, y: 4 }, 0));
    assert!(a.is_apart(&a, 0));
    assert!(!a.is_apart(&a, 1));
    assert!(!a.is_apart(&Point { x: 7, y: 7 }, 10));
    assert!(a.is_apart(&Point { x: 7, y: 8 }, 10));
    assert!(Point { x: i32::MIN, y: 0 }.is_apart(&Point { x: i32::MAX, y: 0 }, u32::MAX));
    assert!(!Point { x: i32::MIN + 1, y: 0 }.is_apart(&Point { x: i32::MAX, y: 0 }, u32::MAX));
    assert!(!Point { x: i32::MIN + 1, y: 9 }.is_apart(&Point { x: i32::MAX, y: 0 }, u32::MAX));
}

#[test]
fn a_moved_point_stays_on_the_lattice_or_is_none() {
    let a = Point { x: 10, y: -10 };
    assert_eq!(a.moved_by(&Point { x: -3, y: 4 }), Some(Point { x: 7, y: -6 }));
    assert_eq!(a.moved_by(&Point { x: i32::MAX - 10, y: 0 }), Some(Point { x: i32::MAX, y: -10 }));
    assert_eq!(a.moved_by(&Point { x: i32::MAX - 9, y: 0 }), None);
    assert_eq!(a.moved_by(&Point { x: 0, y: i32::MIN + 10 }), Some(Point { x: 10, y: i32::MIN }));
    assert_eq!(a.moved_by(&Point { x: 0, y: i32::MIN + 9 }), None);
}

#[test]
fn a_domain_holds_its_edges() {
    let domain = Domain::from_corners(Point { x: 100, y: 0 }, Point { x: 0, y: 50 });
    assert_eq!(domain, Domain { left: 0, right: 100, bottom: 0, top: 50 });
    assert!(domain.is_well_formed());
    assert_eq!(domain.w(), 100);
    assert_eq!(domain.h(), 50);
    assert!(domain.contains(&Point { x: 0, y: 0 }));
    assert!(domain.contains(&Point { x: 100, y: 50 }));
    assert!(domain.contains(&Point { x: 40, y: 20 }));
    assert!(!domain.contains(&Point { x: 101, y: 50 }));
    assert!(!domain.contains(&Point { x: 100, y: 51 }));
    assert!(!domain.contains(&Point { x: -1, y: 0 }));
    assert!(!domain.contains(&Point { x: 0, y: -1 }));
    assert!(!Domain { left: 0, right: 0, bottom: 0, top: 5 }.is_well_formed());
    assert!(!Domain { left: 0, right: 5, bottom: 5, top: 5 }.is_well_formed());
    assert!(!Domain { left: 3, right: 2, bottom: 0, top: 5 }.is_well_formed());
    let vast = Domain { left: i32::MIN, right: i32::MAX, bottom: i32::MIN, top: i32::MAX };
    assert_eq!(vast.w(), 4_294_967_295);
    assert_eq!(vast.h(), 4_294_967_295);
}

#[test]
fn random_points_lie_in_their_domain() {
    let domain = Domain { left: -7, right: -3, bottom: 1000, top: 1002 };
    let mut seen_left = false;
    let mut seen_right = false;
    for _ in 0..2000 {
        let p = Point::random_from_domain(&domain);
        assert!(domain.contains(&p));
        seen_left = seen_left || p.x == -7;
        seen_right = seen_right || p.x == -3;
    }
    assert!(seen_left && seen_right);
    let single = Domain { left: 4, right: 4, bottom: -9, top: -9 };
    assert_eq!(Point::random_from_domain(&single), Point { x: 4, y: -9 });
    let vast = Domain { left: i32::MIN, right: i32::MAX, bottom: i32::MIN, top: i32::MAX };
    assert!(vast.contains(&Point::random_from_domain(&vast)));
}

#[test]
fn random_numbers_lie_in_their_range() {
    assert_eq!(random_between(5, 5), 5);
    assert_eq!(random_between(u32::MAX, u32::MAX), u32::MAX);
    assert_eq!(random_index(1), 0);
    let mut seen = [false; 4];
    for _ in 0..2000 {
        let drawn = random_between(10, 13);
        assert!(10 <= drawn && drawn <= 13);
        seen[(drawn - 10) as usize] = true;
        assert!(random_index(3) < 3);
    }
    assert_eq!(seen, [true; 4]);
}

#[test]
fn an_annulus_holds_its_inner_edge_and_not_its_outer_one() {
    assert!(Point { x: 10, y: 0 }.in_annulus(10));
    assert!(Point { x: -6, y: 8 }.in_annulus(10));
    assert!(!Point { x: 9, y: 4 }.in_annulus(10));
    assert!(!Point { x: 0, y: 0 }.in_annulus(10));
    assert!(Point { x: 19, y: 6 }.in_annulus(10));
    assert!(!Point { x: 20, y: 0 }.in_annulus(10));
    assert!(!Point { x: -12, y: 16 }.in_annulus(10));
    assert!(!Point { x: 0, y: 0 }.in_annulus(0));
    assert!(!Point { x: 1, y: 0 }.in_annulus(0));
    assert!(Point { x: 1, y: 0 }.in_annulus(1));
    assert!(!Point { x: i32::MIN, y: i32::MIN }.in_annulus(1));
    assert!(Point { x: i32::MIN, y: i32::MIN }.in_annulus(3_000_000_000));
    assert!(!Point { x: i32::MIN, y: i32::MIN }.in_annulus(u32::MAX));
}
