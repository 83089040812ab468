use doodles_lib::algorithms::grid::Grid;
use doodles_lib::algorithms::poisson_disc::{
    calculate_min_distance, check_config, min_distance_range, PoissonDiscSampler, SampleStatus,
    SamplerError,
};
use doodles_lib::geometry::{Domain, Point};
use std::cell::Cell;

fn square(side: i32) -> Domain {
    Domain::from_corners(Point { x: 0, y: 0 }, Point { x: side, y: side })
}

/// A small generator of offsets: a linear congruential sequence turned into a
/// direction and a length between `r` and twice `r`, rounded to the lattice
/// and moved back into the annulus where the rounding carried it out.
struct Annulus {
    state: Cell<u64>,
    calls: Cell<u32>,
}

impl Annulus {
    fn new(seed: u64) -> Self {
        Annulus { state: Cell::new(seed), calls: Cell::new(0) }
    }

    fn unit(&self) -> f64 {
        let next = self
            .state
            .get()
            .wrapping_mul(6364136223846793005)
            .wrapping_add(1442695040888963407);
        self.state.set(next);
        ((next >> 11) as f64) / ((1u64 << 53) as f64)
    }

    fn offset(&self, r: u32) -> Point {
        self.calls.set(self.calls.get() + 1);
        let angle = self.unit() * std::f64::consts::TAU;
        let magnitude = r as f64 * (1.0 + self.unit());
        let mut x = (angle.cos() * magnitude).round() as i64;
        let mut y = (angle.sin() * magnitude).round() as i64;
        let rr = (r as i64) * (r as i64);
        while x * x + y * y < rr {
            if x.abs() >= y.abs() {
                x += x.signum();
            } else {
                y += y.signum();
            }
        }
        while x * x + y * y >= 4 * rr {
            if x.abs() >= y.abs() {
                x -= x.signum();
            } else {
                y -= y.signum();
            }
        }
        Point { x: x as i32, y: y as i32 }
    }
}

fn distance_squared(a: Point, b: Point) -> i64 {
    let dx = a.x as i64 - b.x as i64;
    let dy = a.y as i64 - b.y as i64;
    dx * dx + dy * dy
}

#[test]
fn the_first_sample_lies_in_the_annulus_around_the_seed() {
    let seed = Point { x: 50, y: 50 };
    for start in 0..50u64 {
        let mut sampler = PoissonDiscSampler::with_seed(square(100), 10, 30, seed).unwrap();
        let source = Annulus::new(start);
        match sampler.sample(|r| source.offset(r)) {
            None => assert!(sampler.is_finished()),
            Some(p) => {
                let d = distance_squared(p, seed);
                assert!(d >= 100, "nearer than r: {:?}", p);
                assert!(d < 400, "as far as twice r: {:?}", p);
                assert_eq!(source.calls.get(), 1);
            }
        }
    }
}

#[test]
fn a_run_to_completion_packs_the_domain() {
    let domain = square(100);
    let seed = Point { x: 50, y: 50 };
    let mut sampler = PoissonDiscSampler::with_seed(domain, 10, 30, seed).unwrap();
    let source = Annulus::new(7);
    let mut points = vec![seed];
    let mut rounds = 0usize;
    while !sampler.is_finished() {
        if let Some(p) = sampler.sample(|r| source.offset(r)) {
            points.push(p);
        }
        rounds += 1;
        assert!(rounds < 100_000);
    }
    assert!(points.len() >= 20, "{} points", points.len());
    assert!(points.len() <= 200, "{} points", points.len());
    assert_eq!(sampler.occupied_cells(), points.len());
}

#[test]
fn returned_points_lie_in_the_domain() {
    let domain = Domain { left: -30, right: 45, bottom: -20, top: 60 };
    let seed = Point { x: -30, y: 60 };
    let mut sampler = PoissonDiscSampler::with_seed(domain, 6, 20, seed).unwrap();
    let source = Annulus::new(99);
    while !sampler.is_finished() {
        if let Some(p) = sampler.sample(|r| source.offset(r)) {
            assert!(domain.contains(&p));
            assert!(-30 <= p.x && p.x <= 45 && -20 <= p.y && p.y <= 60);
        }
    }
}

#[test]
fn points_in_touching_cells_keep_their_distance() {
    let domain = square(100);
    let seed = Point { x: 3, y: 97 };
    let mut sampler = PoissonDiscSampler::with_seed(domain, 10, 30, seed).unwrap();
    let grid = Grid::new(7, domain);
    let source = Annulus::new(2024);
    let mut points = vec![seed];
    while !sampler.is_finished() {
        if let Some(p) = sampler.sample(|r| source.offset(r)) {
            points.push(p);
        }
    }
    for (i, a) in points.iter().enumerate() {
        for b in points.iter().skip(i + 1) {
            let (ca, ra) = grid.calculate_grid_indices(a);
            let (cb, rb) = grid.calculate_grid_indices(b);
            let apart = std::cmp::max(ca.abs_diff(cb), ra.abs_diff(rb));
            assert_ne!(apart, 0, "{:?} and {:?} share a cell", a, b);
            if apart != 2 {
                assert!(distance_squared(*a, *b) >= 100, "{:?} and {:?}", a, b);
            }
        }
    }
}

#[test]
fn a_point_two_cells_away_is_not_compared() {
    let seed = Point { x: 6, y: 50 };
    let mut sampler = PoissonDiscSampler::with_seed(square(100), 10, 30, seed).unwrap();
    let second = sampler.sample_around(0, |_| Point { x: 8, y: 12 });
    assert_eq!(second, Some(Point { x: 14, y: 62 }));
    let third = sampler.sample_around(1, |_| Point { x: 0, y: -12 });
    assert_eq!(third, Some(Point { x: 14, y: 50 }));
    assert_eq!(distance_squared(Point { x: 14, y: 50 }, seed), 64);
}

#[test]
fn occupancy_grows_by_one_with_each_point_and_not_otherwise() {
    let mut sampler =
        PoissonDiscSampler::with_seed(square(60), 8, 10, Point { x: 30, y: 30 }).unwrap();
    assert_eq!(sampler.occupied_cells(), 1);
    let source = Annulus::new(5);
    while !sampler.is_finished() {
        let before = sampler.occupied_cells();
        let active = sampler.active_len();
        match sampler.sample(|r| source.offset(r)) {
            Some(_) => {
                assert_eq!(sampler.occupied_cells(), before + 1);
                assert_eq!(sampler.active_len(), active + 1);
            }
            None => {
                assert_eq!(sampler.occupied_cells(), before);
                assert_eq!(sampler.active_len(), active - 1);
            }
        }
    }
}

#[test]
fn sampling_ends_within_two_rounds_per_cell() {
    let domain = square(50);
    let mut sampler = PoissonDiscSampler::with_seed(domain, 5, 12, Point { x: 0, y: 0 }).unwrap();
    let (cols, rows) = Grid::new(3, domain).dimensions();
    assert_eq!((cols, rows), (17, 17));
    let bound = 2 * (cols * rows - 1) + 1;
    let source = Annulus::new(11);
    let mut rounds = 0usize;
    while !sampler.is_finished() {
        sampler.sample(|r| source.offset(r));
        rounds += 1;
        assert!(rounds <= bound);
    }
    assert!(sampler.is_finished());
    assert!(sampler.is_finished());
    assert_eq!(sampler.active_len(), 0);
}

#[test]
fn a_round_stops_at_the_first_valid_candidate() {
    let seed = Point { x: 50, y: 50 };
    let mut sampler = PoissonDiscSampler::with_seed(square(100), 10, 30, seed).unwrap();
    let calls = Cell::new(0u32);
    let sampled = sampler.sample_around(0, |r| {
        calls.set(calls.get() + 1);
        if calls.get() < 4 {
            Point { x: 1, y: 1 }
        } else {
            Point { x: r as i32 + 2, y: 0 }
        }
    });
    assert_eq!(sampled, Some(Point { x: 62, y: 50 }));
    assert_eq!(calls.get(), 4);
    assert_eq!(sampler.active_len(), 2);
}

#[test]
fn a_round_without_a_valid_candidate_retires_the_point() {
    let seed = Point { x: 50, y: 50 };
    let mut sampler = PoissonDiscSampler::with_seed(square(100), 10, 30, seed).unwrap();
    let calls = Cell::new(0u32);
    let sampled = sampler.sample_around(0, |r| {
        assert_eq!(r, 10);
        calls.set(calls.get() + 1);
        Point { x: 0, y: 0 }
    });
    assert_eq!(sampled, None);
    assert_eq!(calls.get(), 30);
    assert!(sampler.is_finished());
    assert_eq!(sampler.occupied_cells(), 1);
}

#[test]
fn a_candidate_outside_the_domain_or_the_lattice_is_invalid() {
    let seed = Point { x: 95, y: 50 };
    let mut sampler = PoissonDiscSampler::with_seed(square(100), 10, 2, seed).unwrap();
    assert_eq!(sampler.sample_around(0, |_| Point { x: 12, y: 0 }), None);
    let mut sampler = PoissonDiscSampler::with_seed(square(100), 10, 2, seed).unwrap();
    assert_eq!(sampler.sample_around(0, |_| Point { x: i32::MAX, y: i32::MIN }), None);
    let mut sampler = PoissonDiscSampler::with_seed(square(100), 10, 2, seed).unwrap();
    assert_eq!(sampler.sample_around(0, |_| Point { x: 5, y: 12 }), Some(Point { x: 100, y: 62 }));
}

#[test]
fn check_point_tests_the_domain_and_the_window() {
    let seed = Point { x: 50, y: 50 };
    let sampler = PoissonDiscSampler::with_seed(square(100), 10, 30, seed).unwrap();
    assert_eq!(sampler.check_point(&Point { x: 60, y: 50 }), SampleStatus::Valid);
    assert_eq!(sampler.check_point(&Point { x: 59, y: 50 }), SampleStatus::Invalid);
    assert_eq!(sampler.check_point(&Point { x: 56, y: 58 }), SampleStatus::Valid);
    assert_eq!(sampler.check_point(&Point { x: 56, y: 57 }), SampleStatus::Invalid);
    assert_eq!(sampler.check_point(&Point { x: 50, y: 50 }), SampleStatus::Invalid);
    assert_eq!(sampler.check_point(&Point { x: 101, y: 50 }), SampleStatus::Invalid);
    assert_eq!(sampler.check_point(&Point { x: 50, y: -1 }), SampleStatus::Invalid);
    assert_eq!(sampler.check_point(&Point { x: 0, y: 0 }), SampleStatus::Valid);
    assert_eq!(sampler.check_point(&Point { x: 100, y: 100 }), SampleStatus::Valid);
}

#[test]
fn a_domain_without_area_is_rejected() {
    let flat = Domain { left: 0, right: 100, bottom: 40, top: 40 };
    let thin = Domain { left: 10, right: 10, bottom: 0, top: 100 };
    let inverted = Domain { left: 100, right: 0, bottom: 0, top: 100 };
    let upside_down = Domain { left: 0, right: 100, bottom: 100, top: 0 };
    for domain in [flat, thin, inverted, upside_down] {
        assert!(matches!(
            PoissonDiscSampler::new(domain, 10, 30),
            Err(SamplerError::InvalidDomain)
        ));
        assert!(matches!(
            PoissonDiscSampler::with_seed(domain, 10, 30, Point { x: 10, y: 40 }),
            Err(SamplerError::InvalidDomain)
        ));
        assert_eq!(check_config(&domain, 10, 30), Some(SamplerError::InvalidDomain));
    }
}

#[test]
fn each_fault_of_the_parameters_has_its_error() {
    let domain = square(100);
    let seed = Point { x: 1, y: 1 };
    assert!(matches!(
        PoissonDiscSampler::with_seed(domain, 0, 30, seed),
        Err(SamplerError::RadiusTooSmall)
    ));
    assert!(matches!(
        PoissonDiscSampler::with_seed(domain, 1, 30, seed),
        Err(SamplerError::RadiusTooSmall)
    ));
    assert!(matches!(
        PoissonDiscSampler::with_seed(domain, 2, 0, seed),
        Err(SamplerError::NoAttempts)
    ));
    assert!(matches!(PoissonDiscSampler::new(domain, 2, 0), Err(SamplerError::NoAttempts)));
    let vast = Domain { left: i32::MIN, right: i32::MAX, bottom: i32::MIN, top: i32::MAX };
    assert!(matches!(
        PoissonDiscSampler::with_seed(vast, 2, 30, seed),
        Err(SamplerError::GridTooLarge)
    ));
    assert!(matches!(PoissonDiscSampler::new(vast, 1000, 30), Err(SamplerError::GridTooLarge)));
    assert!(matches!(
        PoissonDiscSampler::with_seed(domain, 10, 30, Point { x: 101, y: 1 }),
        Err(SamplerError::SeedOutsideDomain)
    ));
    assert_eq!(check_config(&domain, 2, 1), None);
    assert!(PoissonDiscSampler::with_seed(domain, 2, 1, seed).is_ok());
    let widest = Domain { left: 0, right: 4096, bottom: 0, top: 4096 };
    assert_eq!(check_config(&widest, 2, 1), None);
    let too_wide = Domain { left: 0, right: 4097, bottom: 0, top: 4096 };
    assert_eq!(check_config(&too_wide, 2, 1), Some(SamplerError::GridTooLarge));
}

#[test]
fn new_draws_its_first_point_from_the_domain() {
    let domain = Domain { left: -5, right: 5, bottom: 100, top: 103 };
    for _ in 0..200 {
        let sampler = PoissonDiscSampler::new(domain, 3, 4).unwrap();
        assert_eq!(sampler.r(), 3);
        assert!(!sampler.is_finished());
        assert_eq!(sampler.active_len(), 1);
        assert_eq!(sampler.occupied_cells(), 1);
    }
}

#[test]
fn sample_picks_its_point_among_the_active_ones() {
    for _ in 0..50 {
        let seed = Point { x: 10, y: 10 };
        let mut sampler = PoissonDiscSampler::with_seed(square(1000), 10, 1, seed).unwrap();
        assert_eq!(sampler.sample(|_| Point { x: 15, y: 0 }), Some(Point { x: 25, y: 10 }));
        let third = sampler.sample(|_| Point { x: 0, y: 15 }).unwrap();
        assert!(third == Point { x: 10, y: 25 } || third == Point { x: 25, y: 25 });
    }
}

#[test]
fn the_minimum_distance_lies_between_its_bounds() {
    let rect = square(100);
    assert_eq!(min_distance_range(&rect, Some(3), None), (3, 13));
    for _ in 0..200 {
        let r = calculate_min_distance(&rect, Some(3), None);
        assert!(3 <= r && r <= 13);
    }
}

#[test]
fn minimum_distance_ranges() {
    let rect = Domain { left: 0, right: 1024, bottom: 0, top: 640 };
    assert_eq!(min_distance_range(&rect, None, None), (0, 19));
    assert_eq!(min_distance_range(&rect, Some(3), Some(8)), (3, 8));
    assert_eq!(min_distance_range(&rect, None, Some(0)), (0, 0));
    assert_eq!(min_distance_range(&square(1), None, None), (0, 0));
    assert_eq!(min_distance_range(&square(2), Some(1), None), (1, 2));
    assert_eq!(calculate_min_distance(&rect, Some(8), Some(8)), 8);
    assert_eq!(calculate_min_distance(&square(1), None, None), 0);
    for _ in 0..100 {
        let r = calculate_min_distance(&rect, Some(5), Some(6));
        assert!(r == 5 || r == 6);
    }
}

#[test]
fn fill_samples_until_no_active_point_is_left() {
    let domain = Domain { left: -40, right: 40, bottom: -25, top: 25 };
    let seed = Point { x: 0, y: 0 };
    let mut sampler = PoissonDiscSampler::with_seed(domain, 9, 15, seed).unwrap();
    let source = Annulus::new(314);
    let points = sampler.fill(|r| source.offset(r));
    assert!(sampler.is_finished());
    assert_eq!(sampler.active_len(), 0);
    assert_eq!(sampler.occupied_cells(), points.len() + 1);
    assert!(points.len() >= 10);
    for (i, p) in points.iter().enumerate() {
        assert!(domain.contains(p));
        assert_ne!(*p, seed);
        assert!(!points[..i].contains(p));
    }
    let again = sampler.fill(|r| source.offset(r));
    assert!(again.is_empty());
    assert!(sampler.is_finished());
}

#[test]
fn the_widest_domain_and_the_longest_distance_are_within_reach() {
    let vast = Domain { left: i32::MIN, right: i32::MAX, bottom: i32::MIN, top: i32::MAX };
    let seed = Point { x: 0, y: 0 };
    let mut sampler = PoissonDiscSampler::with_seed(vast, u32::MAX, 3, seed).unwrap();
    assert_eq!(sampler.r(), u32::MAX);
    assert_eq!(sampler.check_point(&Point { x: i32::MAX, y: 0 }), SampleStatus::Invalid);
    assert_eq!(sampler.check_point(&Point { x: i32::MAX, y: i32::MIN }), SampleStatus::Invalid);
    assert_eq!(sampler.sample_around(0, |_| Point { x: i32::MAX, y: i32::MAX }), None);
    assert!(sampler.is_finished());
    let mut sampler = PoissonDiscSampler::with_seed(vast, 3_000_000_000, 3, Point {
        x: i32::MIN,
        y: i32::MIN,
    })
    .unwrap();
    assert_eq!(
        sampler.sample_around(0, |_| Point { x: i32::MAX, y: i32::MAX }),
        Some(Point { x: -1, y: -1 })
    );
    assert_eq!(
        sampler.sample_around(1, |_| Point { x: i32::MAX, y: i32::MAX }),
        Some(Point { x: i32::MAX - 1, y: i32::MAX - 1 })
    );
    assert_eq!(sampler.sample_around(2, |_| Point { x: 1, y: 1 }), None);
    assert_eq!(sampler.sample_around(0, |_| Point { x: i32::MAX, y: 0 }), None);
    assert_eq!(sampler.occupied_cells(), 3);
    assert_eq!(sampler.active_len(), 1);
}

#[test]
fn an_offset_outside_the_annulus_is_a_failed_attempt() {
    let seed = Point { x: 50, y: 50 };
    let mut sampler = PoissonDiscSampler::with_seed(square(100), 10, 4, seed).unwrap();
    let calls = Cell::new(0u32);
    let sampled = sampler.sample_around(0, |_| {
        calls.set(calls.get() + 1);
        match calls.get() {
            1 => Point { x: 9, y: 4 },
            2 => Point { x: 20, y: 0 },
            3 => Point { x: -16, y: 12 },
            _ => Point { x: 0, y: 19 },
        }
    });
    assert_eq!(sampled, Some(Point { x: 50, y: 69 }));
    assert_eq!(calls.get(), 4);
    let mut sampler = PoissonDiscSampler::with_seed(square(100), 10, 3, seed).unwrap();
    assert_eq!(sampler.sample_around(0, |_| Point { x: 40, y: 0 }), None);
    assert!(sampler.is_finished());
    let mut sampler = PoissonDiscSampler::with_seed(square(100), 10, 3, seed).unwrap();
    assert_eq!(sampler.sample_around(0, |_| Point { x: -6, y: 8 }), Some(Point { x: 44, y: 58 }));
    assert_eq!(sampler.sample_around(0, |_| Point { x: 19, y: -6 }), Some(Point { x: 69, y: 44 }));
}

#[test]
fn every_new_point_lies_in_the_annulus_around_an_earlier_one() {
    let domain = square(80);
    let seed = Point { x: 40, y: 40 };
    let mut sampler = PoissonDiscSampler::with_seed(domain, 8, 20, seed).unwrap();
    let source = Annulus::new(77);
    let mut points = vec![seed];
    for p in sampler.fill(|r| source.offset(r)) {
        assert!(points.iter().any(|q| {
            let d = distance_squared(p, *q);
            64 <= d && d < 256
        }));
        points.push(p);
    }
    assert!(points.len() > 10);
}
