use renderer::camera::Camera;
use renderer::color::{ppm_header, push_dec, write_color, Color};
use renderer::fixed::{from_frac, Fx, SCALE};
use renderer::hittable::HitRecord;
use renderer::hittable_list::HittableList;
use renderer::material::{reflectance, Material};
use renderer::ray::Ray;
use renderer::render::{pixel_color, ray_color, render_scanline, sky, write_colors};
use renderer::rng::fresh_rng;
use renderer::sphere::Sphere;
use renderer::vector::{random_in_hemisphere, random_in_unit_sphere, random_unit_interval,
    random_unit_vector, unit_vector, Vec3};

fn v(x: i64, y: i64, z: i64) -> Vec3 {
    Vec3::new(Fx::from_num(x), Fx::from_num(y), Fx::from_num(z))
}

fn half() -> Fx {
    from_frac(1, 2)
}

fn eps() -> Fx {
    from_frac(1, 1000)
}

fn gray_world() -> (HittableList, usize) {
    let mut world = HittableList::new();
    let albedo = Vec3::new(half(), half(), half());
    let m = world.add_material(Material::Lambertian { albedo });
    (world, m)
}

#[test]
fn test_ray_at() {
    let r = Ray { origin: v(1, 2, 3), direction: v(0, 0, -1) };
    assert_eq!(r.at(Fx::from_num(2)), v(1, 2, 1));
    assert_eq!(r.at(Fx::from_num(-1)), v(1, 2, 4));
}

#[test]
fn test_sphere_hit_through_center() {
    let (mut world, m) = gray_world();
    let sphere = Sphere { center: v(0, 0, -1), radius: half(), mat: m };
    world.add(sphere);
    let ray = Ray { origin: v(0, 0, 0), direction: v(0, 0, -1) };
    let rec = world.hit(&ray, eps(), Fx::from_num(1000)).expect("must hit");
    assert_eq!(rec.t, half());
    assert_eq!(rec.normal, v(0, 0, 1));
    assert!(rec.front_face);
    assert_eq!(rec.point, Vec3::new(Fx::zero(), Fx::zero(), half().neg()));
    assert_eq!(rec.normal.length(), Fx::one());
}

#[test]
fn test_sphere_surface_outward_no_hit() {
    let (mut world, m) = gray_world();
    world.add(Sphere { center: v(0, 0, -1), radius: half(), mat: m });
    let origin = Vec3::new(Fx::zero(), Fx::zero(), half().neg());
    let ray = Ray { origin, direction: v(0, 0, 1) };
    assert!(world.hit(&ray, eps(), Fx::from_num(1000)).is_none());
}

#[test]
fn test_list_hit_reports_closest() {
    let ray = Ray { origin: v(0, 0, 0), direction: v(0, 0, -1) };
    for flip in [false, true] {
        let (mut world, m) = gray_world();
        let near = Sphere { center: v(0, 0, -1), radius: half(), mat: m };
        let far = Sphere {
            center: Vec3::new(Fx::zero(), Fx::zero(), from_frac(-5, 4)),
            radius: half(),
            mat: m,
        };
        if flip {
            world.add(far);
            world.add(near);
        } else {
            world.add(near);
            world.add(far);
        }
        let rec = world.hit(&ray, eps(), Fx::from_num(1000)).expect("must hit");
        assert_eq!(rec.t, half());
    }
}

#[test]
fn test_list_hit_tie_keeps_first_found() {
    let ray = Ray { origin: v(0, 0, 0), direction: v(0, 0, -1) };
    for flip in [false, true] {
        let mut world = HittableList::new();
        let first_mat = world.add_material(Material::Lambertian {
            albedo: Vec3::new(half(), half(), half()),
        });
        let second_mat = world.add_material(Material::Metal {
            albedo: Vec3::new(half(), half(), half()),
            fuzz: Fx::zero(),
        });
        let (lead, trail) = if flip {
            (second_mat, first_mat)
        } else {
            (first_mat, second_mat)
        };
        world.add(Sphere { center: v(0, 0, -1), radius: half(), mat: lead });
        world.add(Sphere { center: v(0, 0, -1), radius: half(), mat: trail });
        let rec = world.hit(&ray, eps(), Fx::from_num(1000)).expect("must hit");
        assert_eq!(rec.t, half());
        assert_eq!(rec.mat, lead);
    }
}

#[test]
fn test_metal_scatter_absorbed_into_surface() {
    let albedo = Vec3::new(half(), half(), half());
    let mat = Material::Metal { albedo, fuzz: Fx::zero() };
    let hit = HitRecord {
        point: v(0, 0, -1),
        normal: v(0, 0, 1),
        mat: 0,
        t: Fx::one(),
        front_face: true,
    };
    let ray = Ray { origin: v(0, 0, -2), direction: v(0, 0, 1) };
    let res = mat.scatter_from(&ray, &hit, &v(1, 0, 0), &v(0, 1, 0), half());
    assert!(res.is_none());
}

#[test]
fn test_lambertian_scatter() {
    let albedo = Vec3::new(half(), from_frac(7, 10), from_frac(1, 4));
    let mat = Material::Lambertian { albedo };
    let hit = HitRecord {
        point: v(0, 0, -1),
        normal: v(0, 0, 1),
        mat: 0,
        t: Fx::one(),
        front_face: true,
    };
    let ray = Ray { origin: v(0, 0, 0), direction: v(0, 0, -1) };
    let mut rng = fresh_rng();
    for _ in 0..20 {
        let (attenuation, scattered) = mat.scatter(&ray, &hit, &mut rng).expect("always Some");
        assert_eq!(attenuation, albedo);
        assert_eq!(scattered.origin, hit.point);
    }
}

#[test]
fn test_metal_scatter_head_on_mirror() {
    let albedo = Vec3::new(from_frac(8, 10), from_frac(6, 10), from_frac(2, 10));
    let mat = Material::Metal { albedo, fuzz: Fx::zero() };
    let hit = HitRecord {
        point: v(0, 0, -1),
        normal: v(0, 0, 1),
        mat: 0,
        t: Fx::one(),
        front_face: true,
    };
    let ray = Ray { origin: v(0, 0, 0), direction: v(0, 0, -1) };
    let rand_unit = v(1, 0, 0);
    let rand_ball = Vec3::new(half(), half(), half());
    let res = mat.scatter_from(&ray, &hit, &rand_unit, &rand_ball, half());
    let (attenuation, scattered) = res.expect("head-on reflection points outward");
    assert_eq!(attenuation, albedo);
    assert_eq!(scattered.origin, hit.point);
    assert_eq!(scattered.direction, v(0, 0, 1));
}

#[test]
fn test_dielectric_matched_index_passes_straight() {
    let mat = Material::Dielectric { ior: Fx::one() };
    let hit = HitRecord {
        point: v(0, 0, -1),
        normal: v(0, 0, 1),
        mat: 0,
        t: Fx::one(),
        front_face: true,
    };
    let ray = Ray { origin: v(0, 0, 0), direction: v(0, 0, -1) };
    let res = mat.scatter_from(&ray, &hit, &v(1, 0, 0), &v(0, 1, 0), half());
    let (attenuation, scattered) = res.expect("dielectric always scatters");
    assert_eq!(attenuation, v(1, 1, 1));
    assert_eq!(scattered.origin, hit.point);
    assert_eq!(scattered.direction, v(0, 0, -1));
}

#[test]
fn test_reflectance_grazing_and_head_on() {
    let glass = from_frac(3, 2);
    assert_eq!(reflectance(Fx::one(), glass).bits(), 2621);
    let head_on_matched = reflectance(Fx::one(), Fx::one());
    assert_eq!(head_on_matched.bits(), 0);
}

#[test]
fn test_camera_center_ray() {
    let cam = Camera::new();
    let r = cam.get_ray(half(), half());
    assert_eq!(r.origin, v(0, 0, 0));
    assert_eq!(r.direction, v(0, 0, -1));
}

#[test]
fn test_sky_endpoints() {
    let up = Ray { origin: v(0, 0, 0), direction: v(0, 1, 0) };
    assert_eq!(sky(&up), Vec3::new(half(), from_frac(7, 10), Fx::one()));
    let down = Ray { origin: v(0, 0, 0), direction: v(0, -1, 0) };
    assert_eq!(sky(&down), v(1, 1, 1));
}

#[test]
fn test_ray_color_sky_up_and_down() {
    let (world, _m) = gray_world();
    let mut rng = fresh_rng();
    let up = Ray { origin: v(0, 0, 0), direction: v(0, 1, 0) };
    let c = ray_color(&up, &world, 8, &mut rng);
    assert_eq!(c, Vec3::new(half(), from_frac(7, 10), Fx::one()));
    let mut buf: Vec<u8> = Vec::new();
    write_color(&mut buf, &c, 1);
    assert_eq!(buf, b"181 214 255\n".to_vec());

    let down = Ray { origin: v(0, 0, 0), direction: v(0, -1, 0) };
    let w = ray_color(&down, &world, 8, &mut rng);
    assert_eq!(w, v(1, 1, 1));
    let mut buf2: Vec<u8> = Vec::new();
    write_color(&mut buf2, &w, 1);
    assert_eq!(buf2, b"255 255 255\n".to_vec());
}

#[test]
fn test_ray_color_degenerate_direction_stays_in_range() {
    let (world, _m) = gray_world();
    let mut rng = fresh_rng();
    let tiny = Ray {
        origin: v(0, 0, 0),
        direction: Vec3::new(Fx::zero(), Fx::from_bits(17), Fx::zero()),
    };
    let c = ray_color(&tiny, &world, 4, &mut rng);
    assert_eq!(c.x.bits(), 49152);
    assert_eq!(c.y.bits(), 55705);
    assert_eq!(c.z.bits(), 65536);
    for b in [c.x.bits(), c.y.bits(), c.z.bits()] {
        assert!(0 <= b && b <= SCALE);
    }
}

#[test]
fn test_unit_vector_of_degenerate_is_zero() {
    let tiny = Vec3::new(Fx::from_bits(17), Fx::zero(), Fx::zero());
    assert_eq!(unit_vector(&tiny), Vec3::zero());
    assert_eq!(unit_vector(&Vec3::zero()), Vec3::zero());
}

#[test]
fn test_ray_color_depth_exhausted_is_black() {
    let (world, _m) = gray_world();
    let mut rng = fresh_rng();
    let ray = Ray { origin: v(0, 0, 0), direction: v(0, 1, 0) };
    assert_eq!(ray_color(&ray, &world, 0, &mut rng), Vec3::zero());
}

#[test]
fn test_single_sphere_normal_color() {
    let (mut world, m) = gray_world();
    world.add(Sphere { center: v(0, 0, -1), radius: half(), mat: m });
    let cam = Camera::new();
    let ray = cam.get_ray(half(), half());
    let rec = world.hit(&ray, eps(), Fx::from_num(1000)).expect("aimed at the center");
    assert_eq!(rec.normal, v(0, 0, 1));
    let c = rec.normal.add_s(Fx::one()).scale(half());
    let f = from_frac(25599, 100);
    let red = (c.x.mul(f).bits() as u64 / 65536) as u8;
    let green = (c.y.mul(f).bits() as u64 / 65536) as u8;
    let blue = (c.z.mul(f).bits() as u64 / 65536) as u8;
    assert_eq!(blue, 255);
    assert_eq!(red, 127);
    assert_eq!(green, 127);
}

#[test]
fn test_write_color_exact_line() {
    let color = Vec3::new(Fx::one(), half(), from_frac(1, 4));
    let mut buf: Vec<u8> = Vec::new();
    write_color(&mut buf, &color, 1);
    assert_eq!(buf, b"255 181 127\n".to_vec());
}

#[test]
fn test_write_color_averages_samples() {
    let doubled = Vec3::new(Fx::from_num(2), Fx::one(), half());
    let mut buf: Vec<u8> = Vec::new();
    write_color(&mut buf, &doubled, 2);
    assert_eq!(buf, b"255 181 127\n".to_vec());
}

#[test]
fn test_ppm_header() {
    let mut buf: Vec<u8> = Vec::new();
    ppm_header(&mut buf, 400, 225);
    assert_eq!(buf, b"P3\n400 225\n255\n".to_vec());
}

#[test]
fn test_push_dec() {
    let mut buf: Vec<u8> = Vec::new();
    push_dec(&mut buf, 0);
    buf.push(b' ');
    push_dec(&mut buf, 37);
    buf.push(b' ');
    push_dec(&mut buf, 65535);
    assert_eq!(buf, b"0 37 65535".to_vec());
}

#[test]
fn test_random_unit_interval_range() {
    let mut rng = fresh_rng();
    for _ in 0..100 {
        let x = random_unit_interval(&mut rng);
        assert!(0 <= x.bits() && x.bits() < SCALE);
    }
}

#[test]
fn test_random_in_unit_sphere_inside() {
    let mut rng = fresh_rng();
    for _ in 0..50 {
        let p = random_in_unit_sphere(&mut rng);
        let l = p.length_squared();
        assert!(0 < l.bits() && l.bits() < SCALE);
    }
}

#[test]
fn test_random_unit_vector_length() {
    let mut rng = fresh_rng();
    for _ in 0..50 {
        let u = random_unit_vector(&mut rng);
        assert!((u.length().bits() - SCALE).abs() <= 16);
    }
}

#[test]
fn test_random_in_hemisphere_side() {
    let mut rng = fresh_rng();
    let normal = v(0, 1, 0);
    for _ in 0..50 {
        let p = random_in_hemisphere(&mut rng, &normal);
        assert!(p.dot(&normal).bits() >= 0);
        assert!(p.length_squared().bits() > 0);
    }
}

#[test]
fn test_render_scanline_shape() {
    let (mut world, m) = gray_world();
    world.add(Sphere { center: v(0, 0, -1), radius: half(), mat: m });
    let cam = Camera::new();
    let mut rng = fresh_rng();
    let row = render_scanline(&world, &cam, 2, 4, 4, 2, 4, &mut rng);
    assert_eq!(row.len(), 4);
    let mut buf: Vec<u8> = Vec::new();
    write_colors(&mut buf, &row, 2);
    assert_eq!(buf.iter().filter(|&&b| b == b'\n').count(), 4);
    assert!(buf.iter().all(|&b| b == b' ' || b == b'\n' || b.is_ascii_digit()));
}

#[test]
fn test_pixel_color_is_finite_sum() {
    let (mut world, m) = gray_world();
    world.add(Sphere { center: v(0, 0, -1), radius: half(), mat: m });
    let cam = Camera::new();
    let mut rng = fresh_rng();
    let c: Color = pixel_color(&world, &cam, 1, 1, 4, 4, 3, 4, &mut rng);
    assert!(c.x.bits() >= -2 && c.y.bits() >= -2 && c.z.bits() >= -2);
    assert!(c.x.bits() <= 3 * SCALE + 2 && c.y.bits() <= 3 * SCALE + 2
        && c.z.bits() <= 3 * SCALE + 2);
}

#[test]
fn test_unit_vector_of_camera_ray() {
    let cam = Camera::new();
    let r = cam.get_ray(half(), half());
    let u = unit_vector(&r.direction);
    assert_eq!(u, v(0, 0, -1));
}
