use rand::rngs::StdRng;
use rand::SeedableRng;
use raytracer::fixed::Fixed;
use raytracer::hit::Hit;
use raytracer::material::{
    cube_point, first_inside, is_inside_unit_sphere, Lambertian, Material,
};
use raytracer::random::{random_unit, unit_fraction};
use raytracer::ray::Ray;
use raytracer::sphere::Sphere;
use raytracer::vec3::{DegenerateVectorError, Vec3};
use raytracer::world::World;

fn fx(v: f64) -> Fixed {
    Fixed::from_raw((v * 4294967296.0) as i64)
}

fn v3(x: f64, y: f64, z: f64) -> Vec3 {
    Vec3 { x: fx(x), y: fx(y), z: fx(z) }
}

fn t_min() -> Fixed {
    fx(0.0001)
}

#[test]
fn nearest_hit_does_not_depend_on_the_order() {
    let near = Sphere::new(v3(0.0, 0.0, -2.0), fx(1.0));
    let far = Sphere::new(v3(0.0, 0.0, -4.0), fx(1.0));
    let ray = Ray::new(v3(0.0, 0.0, 0.0), v3(0.0, 0.0, -1.0));
    let first = World::new(vec![near, far]).nearest_hit(&ray, fx(0.0), Fixed::max_value()).unwrap();
    let second = World::new(vec![far, near]).nearest_hit(&ray, fx(0.0), Fixed::max_value()).unwrap();
    assert_eq!(first.t, fx(1.0));
    assert_eq!(second.t, fx(1.0));
    assert_eq!(first, second);
    assert_eq!(first.point, v3(0.0, 0.0, -1.0));
    assert_eq!(first.normal, v3(0.0, 0.0, 1.0));
}

#[test]
fn nearest_hit_of_an_empty_scene_is_none() {
    let ray = Ray::new(v3(0.0, 0.0, 0.0), v3(0.0, 0.0, -1.0));
    assert_eq!(World::new(vec![]).nearest_hit(&ray, fx(0.0), Fixed::max_value()), None);
}

#[test]
fn nearest_hit_skips_objects_that_are_missed() {
    let aside = Sphere::new(v3(10.0, 0.0, -2.0), fx(1.0));
    let ahead = Sphere::new(v3(0.0, 0.0, -4.0), fx(1.0));
    let ray = Ray::new(v3(0.0, 0.0, 0.0), v3(0.0, 0.0, -1.0));
    let hit = World::new(vec![aside, ahead, aside]).nearest_hit(&ray, fx(0.0), Fixed::max_value());
    assert_eq!(hit.unwrap().t, fx(3.0));
    assert_eq!(World::new(vec![aside]).nearest_hit(&ray, fx(0.0), Fixed::max_value()), None);
}

#[test]
fn equally_near_hits_give_the_same_parameter_in_either_order() {
    let small = Sphere::new(v3(0.0, 0.0, -2.0), fx(1.0));
    let large = Sphere::new(v3(0.0, 0.0, -3.0), fx(2.0));
    assert!(small.center != large.center);
    let ray_ahead = Ray::new(v3(0.0, 0.0, 0.0), v3(0.0, 0.0, -1.0));
    let first = World::new(vec![small, large]).nearest_hit(&ray_ahead, fx(0.0), Fixed::max_value());
    let second = World::new(vec![large, small]).nearest_hit(&ray_ahead, fx(0.0), Fixed::max_value());
    assert_eq!(first.unwrap().t, fx(1.0));
    assert_eq!(second.unwrap().t, fx(1.0));
    assert_eq!(first.unwrap().normal, v3(0.0, 0.0, 1.0));
    assert_eq!(second.unwrap().normal, v3(0.0, 0.0, 1.0));
}

#[test]
fn sky_is_white_above_and_blue_below() {
    let up = Ray::new(v3(0.0, 0.0, 0.0), v3(0.0, 1.0, 0.0));
    assert_eq!(World::ray_to_ambient_color_vec(&up), v3(1.0, 1.0, 1.0));
    let down = Ray::new(v3(0.0, 0.0, 0.0), v3(0.0, -1.0, 0.0));
    assert_eq!(World::ray_to_ambient_color_vec(&down), v3(0.5, 0.7, 1.0));
    let level = Ray::new(v3(0.0, 0.0, 0.0), v3(0.0, 0.0, -3.0));
    assert_eq!(
        World::ray_to_ambient_color_vec(&level),
        Vec3 { x: fx(0.75), y: Fixed::from_raw(3650722201), z: fx(1.0) }
    );
}

#[test]
fn sky_is_black_for_a_ray_without_direction() {
    let nowhere = Ray::new(v3(1.0, 2.0, 3.0), v3(0.0, 0.0, 0.0));
    assert_eq!(World::ray_to_ambient_color_vec(&nowhere), v3(0.0, 0.0, 0.0));
}

#[test]
fn a_ray_that_hits_nothing_sees_the_sky() {
    let mut rng = StdRng::seed_from_u64(2024);
    let world = World::new(vec![Sphere::new(v3(0.0, 0.0, -5.0), fx(1.0))]);
    let up = Ray::new(v3(0.0, 0.0, 0.0), v3(0.0, 2.0, 0.0));
    assert_eq!(world.trace(&up, t_min(), Fixed::max_value(), &mut rng, 50), v3(1.0, 1.0, 1.0));
    assert_eq!(world.trace(&up, t_min(), Fixed::max_value(), &mut rng, 0), v3(1.0, 1.0, 1.0));
    let empty = World::new(vec![]);
    let down = Ray::new(v3(0.0, 0.0, 0.0), v3(0.0, -1.0, 0.0));
    assert_eq!(empty.trace(&down, t_min(), Fixed::max_value(), &mut rng, 50), v3(0.5, 0.7, 1.0));
}

#[test]
fn a_hit_with_no_bounce_left_is_black() {
    let mut rng = StdRng::seed_from_u64(2024);
    let world = World::new(vec![Sphere::new(v3(0.0, 0.0, -5.0), fx(1.0))]);
    let ray = Ray::new(v3(0.0, 0.0, 0.0), v3(0.0, 0.0, -1.0));
    assert_eq!(world.trace(&ray, t_min(), Fixed::max_value(), &mut rng, 0), v3(0.0, 0.0, 0.0));
}

#[test]
fn a_ray_from_inside_a_sphere_leaves_after_one_bounce() {
    let mut rng = StdRng::seed_from_u64(2024);
    let world = World::new(vec![Sphere::new(v3(0.0, 0.0, 0.0), fx(10.0))]);
    let ray = Ray::new(v3(0.0, 0.0, 0.0), v3(0.0, 0.0, -1.0));
    let half = 2147483648i64;
    for depth in [1u32, 5, 50] {
        for _ in 0..50 {
            let color = world.trace(&ray, t_min(), Fixed::max_value(), &mut rng, depth);
            assert!(half - 2 <= color.z.raw && color.z.raw <= half, "{:?}", color);
            assert!(half / 2 - 2 <= color.x.raw && color.x.raw <= half, "{:?}", color);
        }
    }
    assert_eq!(world.trace(&ray, t_min(), Fixed::max_value(), &mut rng, 0), v3(0.0, 0.0, 0.0));
}

#[test]
fn one_bounce_halves_the_colour() {
    assert_eq!(World::attenuate(v3(1.0, 0.5, 0.25)), v3(0.5, 0.25, 0.125));
    assert_eq!(World::attenuate(v3(0.5, 0.7, 1.0)), fx(0.5) * v3(0.5, 0.7, 1.0));
    assert_eq!(
        World::attenuate(Vec3 { x: Fixed::from_raw(7), y: Fixed::from_raw(-7), z: Fixed::from_raw(1) }),
        Vec3 { x: Fixed::from_raw(3), y: Fixed::from_raw(-3), z: Fixed::from_raw(0) }
    );
}

#[test]
fn a_traced_colour_is_the_sky_halved_once_per_bounce() {
    let mut rng = StdRng::seed_from_u64(2024);
    let world = World::new(vec![
        Sphere::new(v3(0.0, 0.0, -1.0), fx(0.5)),
        Sphere::new(v3(0.0, -100.5, -1.0), fx(100.0)),
    ]);
    let ray = Ray::new(v3(0.0, 0.0, 0.0), v3(0.0, 0.0, -1.0));
    let one = 4294967296i64;
    for _ in 0..200 {
        let color = world.trace(&ray, t_min(), Fixed::max_value(), &mut rng, 50);
        for c in [color.x.raw, color.y.raw, color.z.raw] {
            assert!(0 <= c && c <= one / 2 + 1, "channel {} of {:?}", c, color);
        }
        assert!(color.x.raw <= color.y.raw && color.y.raw <= color.z.raw);
    }
}

#[test]
fn bounce_leaves_along_the_normal_plus_the_offset() {
    let hit = Hit::new(v3(1.0, 2.0, 3.0), v3(0.0, 0.0, 1.0), fx(4.0));
    let ray = Lambertian::bounce(&hit, v3(0.0, 0.0, 0.0)).unwrap();
    assert_eq!(ray.origin, v3(1.0, 2.0, 3.0));
    assert_eq!(ray.direction, v3(0.0, 0.0, 1.0));
    let ray = Lambertian::bounce(&hit, v3(0.75, 0.0, 0.0)).unwrap();
    assert_eq!(ray.origin, v3(1.0, 2.0, 3.0));
    assert_eq!(ray.direction, v3(0.6, 0.0, 0.8));
}

#[test]
fn bounce_without_direction_fails() {
    let hit = Hit::new(v3(1.0, 2.0, 3.0), v3(0.0, 0.0, 1.0), fx(4.0));
    assert_eq!(Lambertian::bounce(&hit, v3(0.0, 0.0, -1.0)), Err(DegenerateVectorError {}));
}

#[test]
fn diffuse_reflection_starts_at_the_hit_point() {
    let mut rng = StdRng::seed_from_u64(2024);
    let hit = Hit::new(v3(1.0, 2.0, 3.0), v3(0.0, 1.0, 0.0), fx(4.0));
    let one = 4294967296i64;
    for _ in 0..200 {
        match World::get_diffuse_reflection(&hit, &mut rng) {
            Ok(ray) => {
                assert_eq!(ray.origin, hit.point);
                assert!((ray.direction.length().raw - one).abs() <= one >> 10);
                assert!(ray.direction.y.raw >= 0);
            }
            Err(e) => assert_eq!(e, DegenerateVectorError {}),
        }
        match Lambertian::new().scatter(&hit, t_min(), Fixed::max_value(), &mut rng) {
            Ok(ray) => assert_eq!(ray.origin, hit.point),
            Err(e) => assert_eq!(e, DegenerateVectorError {}),
        }
    }
}

#[test]
fn random_points_lie_inside_the_unit_sphere() {
    let mut rng = StdRng::seed_from_u64(2024);
    let one = 4294967296i64;
    let mut distinct = false;
    let first = World::random_in_unit_sphere(&mut rng);
    for _ in 0..500 {
        let p = World::random_in_unit_sphere(&mut rng);
        assert!(p.squared_length().raw < one, "{:?}", p);
        assert!(is_inside_unit_sphere(&p));
        let q = Lambertian::random_in_unit_sphere(&mut rng);
        assert!(q.squared_length().raw < one, "{:?}", q);
        distinct = distinct || p != first;
    }
    assert!(distinct);
}

#[test]
fn cube_points_run_from_minus_one_to_one() {
    assert_eq!(cube_point(0, 0, 0), v3(-1.0, -1.0, -1.0));
    assert_eq!(cube_point(1 << 31, 1 << 30, 3 << 30), v3(0.0, -0.5, 0.5));
    assert_eq!(
        cube_point(u32::MAX, 1, 0),
        Vec3 { x: Fixed::from_raw(4294967294), y: Fixed::from_raw(-4294967294), z: fx(-1.0) }
    );
}

#[test]
fn inside_means_squared_length_below_one() {
    assert!(is_inside_unit_sphere(&v3(0.0, 0.0, 0.0)));
    assert!(is_inside_unit_sphere(&v3(0.5, 0.5, 0.5)));
    assert!(!is_inside_unit_sphere(&v3(1.0, 0.0, 0.0)));
    assert!(!is_inside_unit_sphere(&v3(0.0, -1.0, 0.0)));
    assert!(is_inside_unit_sphere(&Vec3 { x: Fixed::from_raw(4294967295), y: fx(0.0), z: fx(0.0) }));
    assert!(!is_inside_unit_sphere(&v3(-1.0, -1.0, -1.0)));
}

#[test]
fn unit_fraction_reads_bits_as_a_fraction() {
    assert_eq!(unit_fraction(0), fx(0.0));
    assert_eq!(unit_fraction(1 << 31), fx(0.5));
    assert_eq!(unit_fraction(u32::MAX).raw, 4294967295);
    let mut rng = StdRng::seed_from_u64(2024);
    for _ in 0..200 {
        let r = random_unit(&mut rng).raw;
        assert!(0 <= r && r < 4294967296);
    }
}

#[test]
fn bounce_exists_for_every_offset_inside_the_unit_sphere() {
    let hit = Hit::new(v3(1.0, 2.0, 3.0), v3(0.0, 0.0, 1.0), fx(4.0));
    let near_opposite = Vec3 { x: fx(0.0), y: fx(0.0), z: Fixed::from_raw(-(4294967296 - 32768)) };
    assert!(is_inside_unit_sphere(&near_opposite));
    let ray = Lambertian::bounce(&hit, near_opposite).unwrap();
    assert_eq!(ray.origin, hit.point);
    assert_eq!(ray.direction, v3(0.0, 0.0, 1.0));
    let skew = Vec3 { x: Fixed::from_raw(98304), y: fx(0.0), z: Fixed::from_raw(-(4294967296 - 2)) };
    assert!(is_inside_unit_sphere(&skew));
    let ray = Lambertian::bounce(&hit, skew).unwrap();
    let one = 4294967296i64;
    let len = ray.direction.length().raw;
    assert!(one - 16 <= len && len <= one, "{:?} has length {}", ray.direction, len);
    assert!(ray.direction.z.raw > 0);
}

#[test]
fn sky_does_not_depend_on_the_length_of_the_direction() {
    let short = Ray::new(v3(0.0, 0.0, 0.0), Vec3 { x: fx(0.0), y: Fixed::from_raw(98304), z: fx(0.0) });
    assert_eq!(World::ray_to_ambient_color_vec(&short), v3(1.0, 1.0, 1.0));
    let least = Ray::new(v3(5.0, 5.0, 5.0), Vec3 { x: fx(0.0), y: Fixed::from_raw(-1), z: fx(0.0) });
    assert_eq!(World::ray_to_ambient_color_vec(&least), v3(0.5, 0.7, 1.0));
    let level = World::ray_to_ambient_color_vec(&Ray::new(v3(0.0, 0.0, 0.0), v3(0.0, 0.0, -3.0)));
    let tiny = Ray::new(v3(1.0, 0.0, 0.0), Vec3 { x: fx(0.0), y: fx(0.0), z: Fixed::from_raw(-7) });
    assert_eq!(World::ray_to_ambient_color_vec(&tiny), level);
}

#[test]
fn sky_lies_between_sky_blue_and_white() {
    let one = 4294967296i64;
    for d in [
        v3(1.0, 2.0, 3.0),
        v3(-0.3, -0.7, 0.1),
        v3(100.0, -250.0, 3.5),
        Vec3 { x: Fixed::from_raw(98304), y: Fixed::from_raw(98304), z: fx(0.0) },
        Vec3 { x: Fixed::from_raw(1), y: Fixed::from_raw(-3), z: Fixed::from_raw(2) },
        Vec3 { x: Fixed::max_value(), y: Fixed::from_raw(i64::MIN), z: fx(0.0) },
    ] {
        let color = World::ray_to_ambient_color_vec(&Ray::new(v3(0.0, 0.0, 0.0), d));
        assert!(one / 2 <= color.x.raw && color.x.raw <= one, "{:?}", color);
        assert!(3006477107 <= color.y.raw && color.y.raw <= one, "{:?}", color);
        assert_eq!(color.z.raw, one);
    }
}

#[test]
fn traced_channels_lie_in_the_unit_interval() {
    let mut rng = StdRng::seed_from_u64(5);
    let world = World::new(vec![
        Sphere::new(v3(0.0, 0.0, -1.0), fx(0.5)),
        Sphere::new(v3(0.0, -100.5, -1.0), fx(100.0)),
    ]);
    let one = 4294967296i64;
    for i in 0..100 {
        let direction = v3(-1.0 + 0.02 * (i as f64), -0.5, -1.0);
        let ray = Ray::new(v3(0.0, 0.0, 0.0), direction);
        let color = world.trace(&ray, t_min(), Fixed::max_value(), &mut rng, 50);
        for c in [color.x.raw, color.y.raw, color.z.raw] {
            assert!(0 <= c && c <= one, "{:?}", color);
        }
    }
}

#[test]
fn one_sphere_gives_exactly_one_attenuation() {
    let mut rng = StdRng::seed_from_u64(11);
    let world = World::new(vec![Sphere::new(v3(0.0, 0.0, -1.0), fx(0.5))]);
    let ray = Ray::new(v3(0.0, 0.0, 0.0), v3(0.0, 0.0, -1.0));
    let one = 4294967296i64;
    for _ in 0..200 {
        let color = world.trace(&ray, t_min(), Fixed::max_value(), &mut rng, 50);
        assert_eq!(color.z.raw, one / 2);
        assert!(one / 4 <= color.x.raw && color.x.raw <= one / 2, "{:?}", color);
        assert!(3006477107 / 2 <= color.y.raw && color.y.raw <= one / 2, "{:?}", color);
    }
}

#[test]
fn the_nearer_of_two_spheres_is_shaded_in_either_order() {
    let near = Sphere::new(v3(0.0, 0.0, -2.0), fx(1.0));
    let far = Sphere::new(v3(0.0, 0.0, -4.0), fx(1.0));
    let ray = Ray::new(v3(0.0, 0.0, 0.0), v3(0.0, 0.0, -1.0));
    let one = 4294967296i64;
    for (seed, spheres) in [(21u64, vec![near, far]), (21u64, vec![far, near])] {
        let mut rng = StdRng::seed_from_u64(seed);
        let world = World::new(spheres);
        for _ in 0..100 {
            let color = world.trace(&ray, t_min(), Fixed::max_value(), &mut rng, 50);
            assert_eq!(color.z.raw, one / 2);
        }
    }
    let first = World::new(vec![near, far]);
    let second = World::new(vec![far, near]);
    let mut a = StdRng::seed_from_u64(33);
    let mut b = StdRng::seed_from_u64(33);
    for _ in 0..100 {
        assert_eq!(
            first.trace(&ray, t_min(), Fixed::max_value(), &mut a, 50),
            second.trace(&ray, t_min(), Fixed::max_value(), &mut b, 50)
        );
    }
}

#[test]
fn first_inside_finds_the_first_point_inside() {
    let outside = (0u32, 0u32, 0u32);
    let centre = (1u32 << 31, 1u32 << 31, 1u32 << 31);
    let inside = (3u32 << 30, 1u32 << 31, 1u32 << 31);
    assert_eq!(first_inside(&vec![]), None);
    assert_eq!(first_inside(&vec![outside, outside]), None);
    assert_eq!(first_inside(&vec![centre]), Some((0, v3(0.0, 0.0, 0.0))));
    assert_eq!(
        first_inside(&vec![outside, (u32::MAX, 0, 0), inside, centre]),
        Some((2, v3(0.5, 0.0, 0.0)))
    );
    assert_eq!(first_inside(&vec![outside, centre, inside]), Some((1, v3(0.0, 0.0, 0.0))));
}

#[test]
fn the_same_seed_draws_the_same_points() {
    let mut a = StdRng::seed_from_u64(77);
    let mut b = StdRng::seed_from_u64(77);
    for _ in 0..50 {
        assert_eq!(World::random_in_unit_sphere(&mut a), Lambertian::random_in_unit_sphere(&mut b));
    }
}

#[test]
fn trace_along_given_offsets() {
    let world = World::new(vec![Sphere::new(v3(0.0, 0.0, -1.0), fx(0.5))]);
    let ray = Ray::new(v3(0.0, 0.0, 0.0), v3(0.0, 0.0, -1.0));
    let straight = vec![v3(0.0, 0.0, 0.0)];
    assert_eq!(
        world.trace_along(&ray, t_min(), Fixed::max_value(), 50, &straight),
        Vec3 { x: fx(0.375), y: Fixed::from_raw(1825361100), z: fx(0.5) }
    );
    let up = vec![v3(0.0, 0.75, 0.0), v3(0.5, 0.5, 0.5)];
    let color = world.trace_along(&ray, t_min(), Fixed::max_value(), 50, &up);
    assert_eq!(color.z, fx(0.5));
    assert_eq!(color.x, Fixed::from_raw(1932735283));
    assert_eq!(world.trace_along(&ray, t_min(), Fixed::max_value(), 50, &vec![]), v3(0.0, 0.0, 0.0));
    assert_eq!(world.trace_along(&ray, t_min(), Fixed::max_value(), 0, &straight), v3(0.0, 0.0, 0.0));
    let opposite = vec![v3(0.0, 0.0, -1.0)];
    assert_eq!(
        world.trace_along(&ray, t_min(), Fixed::max_value(), 50, &opposite),
        v3(0.0, 0.0, 0.0)
    );
    let miss = Ray::new(v3(0.0, 0.0, 0.0), v3(0.0, 1.0, 0.0));
    assert_eq!(world.trace_along(&miss, t_min(), Fixed::max_value(), 50, &vec![]), v3(1.0, 1.0, 1.0));
}

#[test]
fn trace_along_does_not_depend_on_the_order_of_the_objects() {
    let near = Sphere::new(v3(0.0, 0.0, -2.0), fx(1.0));
    let far = Sphere::new(v3(0.0, 0.0, -4.0), fx(1.0));
    let ground = Sphere::new(v3(0.0, -100.5, -1.0), fx(100.0));
    let ray = Ray::new(v3(0.0, 0.0, 0.0), v3(0.0, 0.0, -1.0));
    let offsets = vec![v3(0.0, -0.9, -0.3), v3(0.5, 0.0, 0.5), v3(-0.25, 0.5, 0.25), v3(0.0, 0.0, 0.0)];
    let first = World::new(vec![near, far, ground]);
    let expected = first.trace_along(&ray, t_min(), Fixed::max_value(), 50, &offsets);
    for spheres in [vec![far, near, ground], vec![ground, far, near], vec![near, ground, far]] {
        let world = World::new(spheres);
        assert_eq!(world.trace_along(&ray, t_min(), Fixed::max_value(), 50, &offsets), expected);
    }
}
