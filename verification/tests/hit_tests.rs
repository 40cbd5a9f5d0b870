use ray_tracing_iow::list_hitable::{nearest_hit, HitRecord};
use ray_tracing_iow::param::Param;
use ray_tracing_iow::sphere_hitable::{Crossing, Root};

fn key(x: f32) -> Param {
    Param::from_bits(x.to_bits())
}

/// The quadratic of a ray from `origin` along `direction` against a sphere.
fn crossing(origin: [f32; 3], direction: [f32; 3], center: [f32; 3], radius: f32) -> (Crossing, f32, f32) {
    let oc = [origin[0] - center[0], origin[1] - center[1], origin[2] - center[2]];
    let dot = |a: [f32; 3], b: [f32; 3]| a[0] * b[0] + a[1] * b[1] + a[2] * b[2];
    let a = dot(direction, direction);
    let b = dot(oc, direction);
    let c = dot(oc, oc) - radius * radius;
    let discriminant = b * b - a * c;
    let t1 = (-b - discriminant.sqrt()) / a;
    let t2 = (-b + discriminant.sqrt()) / a;
    (Crossing { real: discriminant > 0.0, near: key(t1), far: key(t2) }, t1, t2)
}

fn at(near: i64, far: i64) -> Crossing {
    Crossing { real: true, near: Param::At(near), far: Param::At(far) }
}

#[test]
fn from_bits_of_plain_numbers() {
    assert_eq!(Param::from_bits(0x3f80_0000), Param::At(0x3f80_0000));
    assert_eq!(Param::from_bits(0xbf80_0000), Param::At(-0x3f80_0000));
    assert_eq!(Param::from_bits(0x0000_0001), Param::At(1));
    assert_eq!(Param::from_bits(0x8000_0001), Param::At(-1));
    assert_eq!(Param::from_bits(0x7f7f_ffff), Param::At(0x7f7f_ffff));
    assert_eq!(key(1.0), Param::At(0x3f80_0000));
    assert_eq!(key(-2.5), Param::At(-0x4020_0000));
}

#[test]
fn from_bits_of_the_two_zeros() {
    assert_eq!(Param::from_bits(0x0000_0000), Param::At(0));
    assert_eq!(Param::from_bits(0x8000_0000), Param::At(0));
    assert_eq!(key(0.0), key(-0.0));
}

#[test]
fn from_bits_of_the_infinities() {
    assert_eq!(Param::from_bits(0x7f80_0000), Param::At(0x7f80_0000));
    assert_eq!(Param::from_bits(0xff80_0000), Param::At(-0x7f80_0000));
    assert_eq!(key(f32::INFINITY), Param::At(0x7f80_0000));
    assert_eq!(key(f32::NEG_INFINITY), Param::At(-0x7f80_0000));
}

#[test]
fn from_bits_of_what_is_no_number() {
    assert_eq!(Param::from_bits(0x7f80_0001), Param::Undefined);
    assert_eq!(Param::from_bits(0x7fc0_0000), Param::Undefined);
    assert_eq!(Param::from_bits(0xffc0_0000), Param::Undefined);
    assert_eq!(Param::from_bits(0xffff_ffff), Param::Undefined);
    assert_eq!(Param::from_bits(0x7fff_ffff), Param::Undefined);
    assert_eq!(key(f32::NAN), Param::Undefined);
}

#[test]
fn from_bits_mirrors_the_sign() {
    for bits in [1u32, 0x0080_0000, 0x3f80_0000, 0x4049_0fdb, 0x7f7f_ffff, 0x7f80_0000] {
        let up = Param::from_bits(bits);
        let down = Param::from_bits(bits | 0x8000_0000);
        match (up, down) {
            (Param::At(a), Param::At(b)) => assert_eq!(a, -b),
            _ => panic!("a number was taken for none"),
        }
    }
}

#[test]
fn param_order_follows_the_keys() {
    assert!(Param::At(1).less_than(Param::At(2)));
    assert!(!Param::At(2).less_than(Param::At(2)));
    assert!(!Param::At(3).less_than(Param::At(2)));
    assert!(Param::At(i64::MIN).less_than(Param::At(i64::MAX)));
}

#[test]
fn undefined_compares_with_nothing() {
    assert!(!Param::Undefined.less_than(Param::At(0)));
    assert!(!Param::At(0).less_than(Param::Undefined));
    assert!(!Param::Undefined.less_than(Param::Undefined));
    assert!(!Param::Undefined.is_within(Param::At(-1), Param::At(1)));
    assert!(!Param::At(0).is_within(Param::Undefined, Param::At(1)));
    assert!(!Param::At(0).is_within(Param::At(-1), Param::Undefined));
}

#[test]
fn within_is_an_open_interval() {
    assert!(Param::At(5).is_within(Param::At(4), Param::At(6)));
    assert!(!Param::At(4).is_within(Param::At(4), Param::At(6)));
    assert!(!Param::At(6).is_within(Param::At(4), Param::At(6)));
    assert!(!Param::At(5).is_within(Param::At(6), Param::At(4)));
}

#[test]
fn keys_keep_the_order_of_the_numbers() {
    let xs = [f32::NEG_INFINITY, -3.5, -1.0e-30, -0.0, 0.0, 1.0e-30, 0.001, 2.5, f32::MAX, f32::INFINITY];
    for a in xs {
        for b in xs {
            assert_eq!(key(a).less_than(key(b)), a < b);
        }
        assert!(!key(a).less_than(key(f32::NAN)));
        assert!(!key(f32::NAN).less_than(key(a)));
    }
}

#[test]
fn sphere_takes_the_near_root_first() {
    let c = at(10, 20);
    assert_eq!(c.hit(Param::At(0), Param::At(100)), Some(Root::Near));
    assert_eq!(c.param_of(Root::Near), Param::At(10));
    assert_eq!(c.param_of(Root::Far), Param::At(20));
}

#[test]
fn sphere_takes_the_far_root_when_the_near_one_is_outside() {
    let c = at(-10, 20);
    assert_eq!(c.hit(Param::At(0), Param::At(100)), Some(Root::Far));
    let d = at(0, 20);
    assert_eq!(d.hit(Param::At(0), Param::At(100)), Some(Root::Far));
}

#[test]
fn sphere_is_missed_when_both_roots_are_outside() {
    assert_eq!(at(-10, -5).hit(Param::At(0), Param::At(100)), None);
    assert_eq!(at(100, 200).hit(Param::At(0), Param::At(100)), None);
    assert_eq!(at(-10, 100).hit(Param::At(0), Param::At(100)), None);
    assert_eq!(at(10, 20).hit(Param::At(0), Param::At(10)), None);
}

#[test]
fn sphere_is_missed_without_a_positive_discriminant() {
    let c = Crossing { real: false, near: Param::At(10), far: Param::At(20) };
    assert_eq!(c.hit(Param::At(0), Param::At(100)), None);
}

#[test]
fn sphere_with_an_undefined_root() {
    let c = Crossing { real: true, near: Param::Undefined, far: Param::At(20) };
    assert_eq!(c.hit(Param::At(0), Param::At(100)), Some(Root::Far));
    let d = Crossing { real: true, near: Param::Undefined, far: Param::Undefined };
    assert_eq!(d.hit(Param::At(0), Param::At(100)), None);
    assert_eq!(at(10, 20).hit(Param::Undefined, Param::At(100)), None);
    assert_eq!(at(10, 20).hit(Param::At(0), Param::Undefined), None);
}

#[test]
fn nearest_hit_of_an_empty_scene() {
    assert_eq!(nearest_hit(&Vec::new(), Param::At(0), Param::At(100)), None);
}

#[test]
fn nearest_hit_picks_the_smallest_parameter() {
    let scene = vec![at(50, 60), at(10, 20), at(30, 40)];
    assert_eq!(
        nearest_hit(&scene, Param::At(0), Param::At(1000)),
        Some(HitRecord { t: Param::At(10), index: 1, root: Root::Near })
    );
}

#[test]
fn nearest_hit_keeps_the_first_of_equal_hits() {
    let scene = vec![at(10, 20), at(10, 30), at(10, 40)];
    assert_eq!(
        nearest_hit(&scene, Param::At(0), Param::At(1000)),
        Some(HitRecord { t: Param::At(10), index: 0, root: Root::Near })
    );
}

#[test]
fn nearest_hit_compares_far_roots_too() {
    let scene = vec![at(40, 50), at(-5, 30), at(-10, 35)];
    assert_eq!(
        nearest_hit(&scene, Param::At(0), Param::At(1000)),
        Some(HitRecord { t: Param::At(30), index: 1, root: Root::Far })
    );
}

#[test]
fn nearest_hit_skips_what_lies_outside_the_interval() {
    let scene = vec![at(-20, -10), at(2000, 3000), Crossing { real: false, near: Param::At(1), far: Param::At(2) }];
    assert_eq!(nearest_hit(&scene, Param::At(0), Param::At(1000)), None);
}

#[test]
fn nearest_hit_tests_later_spheres_against_the_closest_so_far() {
    // The second sphere's near root lies beyond the first hit, its far root does not:
    // under the shrunken bound the far root is what counts.
    let odd = Crossing { real: true, near: Param::At(50), far: Param::At(5) };
    let scene = vec![at(10, 20), odd];
    assert_eq!(
        nearest_hit(&scene, Param::At(0), Param::At(1000)),
        Some(HitRecord { t: Param::At(5), index: 1, root: Root::Far })
    );
    let alone = vec![odd];
    assert_eq!(
        nearest_hit(&alone, Param::At(0), Param::At(1000)),
        Some(HitRecord { t: Param::At(50), index: 0, root: Root::Near })
    );
}

#[test]
fn nearest_hit_does_not_depend_on_the_order() {
    let spheres = [at(70, 80), at(-5, 33), at(12, 90), at(12, 13), at(500, 600)];
    let orders: [[usize; 5]; 4] = [[0, 1, 2, 3, 4], [4, 3, 2, 1, 0], [2, 0, 4, 1, 3], [3, 2, 1, 0, 4]];
    for order in orders {
        let scene: Vec<Crossing> = order.iter().map(|k| spheres[*k]).collect();
        let hit = nearest_hit(&scene, Param::At(0), Param::At(1000)).unwrap();
        assert_eq!(hit.t, Param::At(12));
        assert_eq!(scene[hit.index].param_of(hit.root), Param::At(12));
        let first = scene.iter().position(|c| c.near == Param::At(12)).unwrap();
        assert_eq!(hit.index, first);
    }
}

#[test]
fn ray_aimed_at_a_sphere_hits_at_distance_minus_radius() {
    let cases: [(f32, f32); 4] = [(3.0, 0.5), (10.0, 1.0), (100.5, 100.0), (2.0, 1.5)];
    for (d, r) in cases {
        let (c, t1, _) = crossing([0.0, 0.0, 0.0], [0.0, 0.0, -1.0], [0.0, 0.0, -d], r);
        let scene = vec![c];
        let hit = nearest_hit(&scene, key(0.001), key(f32::MAX)).unwrap();
        assert_eq!(hit.root, Root::Near);
        assert_eq!(hit.t, key(t1));
        assert!((t1 - (d - r)).abs() < 1e-4);
    }
}

#[test]
fn ray_from_inside_a_sphere_hits_the_far_side() {
    let (c, t1, t2) = crossing([0.0, 0.0, 0.0], [1.0, 0.0, 0.0], [0.0, 0.0, 0.0], 2.0);
    assert!(t1 < 0.0);
    assert_eq!(c.hit(key(0.001), key(f32::MAX)), Some(Root::Far));
    assert!((t2 - 2.0).abs() < 1e-6);
}

#[test]
fn accepted_hit_lies_on_the_sphere() {
    let origin = [1.0f32, 2.0, 3.0];
    let direction = [-0.3f32, -0.5, -1.0];
    let center = [0.0f32, 0.5, -1.0];
    for radius in [1.5f32, -1.5] {
        let (c, t1, t2) = crossing(origin, direction, center, radius);
        let root = c.hit(key(0.001), key(f32::MAX)).unwrap();
        let t = match root {
            Root::Near => t1,
            Root::Far => t2,
        };
        let p = [origin[0] + t * direction[0], origin[1] + t * direction[1], origin[2] + t * direction[2]];
        let q = [p[0] - center[0], p[1] - center[1], p[2] - center[2]];
        let distance = (q[0] * q[0] + q[1] * q[1] + q[2] * q[2]).sqrt();
        assert!((distance - radius.abs()).abs() < 1e-4);
    }
}

#[test]
fn ray_that_passes_a_sphere_misses_it() {
    let (c, _, _) = crossing([0.0, 0.0, 0.0], [0.0, 0.0, -1.0], [5.0, 0.0, -3.0], 1.0);
    assert!(!c.real);
    assert_eq!(nearest_hit(&vec![c], key(0.001), key(f32::MAX)), None);
}

#[test]
fn ground_and_ball_scene_hits_the_ball_first() {
    let origin = [0.0f32, 0.0, 0.0];
    let direction = [0.0f32, 0.0, -1.0];
    let (ground, _, _) = crossing(origin, direction, [0.0, -100.5, -1.0], 100.0);
    let (ball, t1, _) = crossing(origin, direction, [0.0, 0.0, -1.0], 0.5);
    let scene = vec![ground, ball];
    let hit = nearest_hit(&scene, key(0.001), key(f32::MAX)).unwrap();
    assert_eq!(hit.index, 1);
    assert_eq!(hit.root, Root::Near);
    assert_eq!(hit.t, key(t1));
    assert!((t1 - 0.5).abs() < 1e-6);
}
