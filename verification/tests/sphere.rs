use raytracer::hit::{HitRecord, Hittable};
use raytracer::ray::Ray;
use raytracer::scalar::Scalar;
use raytracer::sphere::Sphere;
use raytracer::vec::{dot_exact, fx_dot_wide, Vec3};

fn fx(x: f64) -> Scalar {
    Scalar::from_raw((x * 65536.0).round() as i64)
}

fn v(x: f64, y: f64, z: f64) -> Vec3 {
    Vec3::new(fx(x), fx(y), fx(z))
}

fn val(s: Scalar) -> f64 {
    s.raw() as f64 / 65536.0
}

fn unit_sphere() -> Sphere {
    Sphere::new(v(0.0, 0.0, 0.0), fx(1.0))
}

fn far() -> Scalar {
    Scalar::range_max()
}

fn distance(a: &Vec3, b: &Vec3) -> f64 {
    let dx = val(a.x()) - val(b.x());
    let dy = val(a.y()) - val(b.y());
    let dz = val(a.z()) - val(b.z());
    (dx * dx + dy * dy + dz * dz).sqrt()
}

#[test]
fn head_on_hit() {
    let o = v(0.0, 0.0, 5.0);
    let d = v(0.0, 0.0, -1.0);
    let rec = unit_sphere().hit(&Ray(&o, &d), fx(0.0), far()).unwrap();
    assert_eq!(rec.p, v(0.0, 0.0, 1.0));
    assert_eq!(rec.t, fx(4.0));
    assert_eq!(rec.normal, v(0.0, 0.0, 1.0));
    assert!(rec.front_face);
}

#[test]
fn parallel_miss() {
    let o = v(-5.0, 2.0, 0.0);
    let d = v(1.0, 0.0, 0.0);
    assert!(unit_sphere().hit(&Ray(&o, &d), fx(0.0), far()).is_none());
    let o = v(0.0, 2.0, 5.0);
    assert!(unit_sphere().hit(&Ray(&o, &d), fx(0.0), far()).is_none());
}

#[test]
fn hit_from_inside() {
    let o = v(0.0, 0.0, 0.0);
    let d = v(0.0, 0.0, 1.0);
    let rec = unit_sphere().hit(&Ray(&o, &d), fx(0.0), far()).unwrap();
    assert_eq!(rec.t, fx(1.0));
    assert_eq!(rec.p, v(0.0, 0.0, 1.0));
    assert!(!rec.front_face);
    // the outward normal at the exit point is (0, 0, 1); the stored one is its opposite
    assert_eq!(rec.normal, v(0.0, 0.0, -1.0));
}

#[test]
fn sphere_behind_the_ray_is_missed() {
    let o = v(0.0, 0.0, 5.0);
    let d = v(0.0, 0.0, 1.0);
    assert!(unit_sphere().hit(&Ray(&o, &d), fx(0.0), far()).is_none());
    // with a window that reaches behind the origin the same sphere is found
    let rec = unit_sphere().hit(&Ray(&o, &d), fx(-10.0), far()).unwrap();
    assert_eq!(rec.t, fx(-6.0));
    assert_eq!(rec.p, v(0.0, 0.0, -1.0));
}

#[test]
fn window_is_open_below_and_closed_above() {
    let o = v(0.0, 0.0, 5.0);
    let d = v(0.0, 0.0, -1.0);
    let s = unit_sphere();
    let r = Ray(&o, &d);
    // roots are 4 and 6
    assert_eq!(s.hit(&r, fx(0.0), fx(4.0)).unwrap().t, fx(4.0));
    assert!(s.hit(&r, fx(0.0), Scalar::from_raw(fx(4.0).raw() - 1)).is_none());
    assert_eq!(s.hit(&r, fx(4.0), far()).unwrap().t, fx(6.0));
    assert_eq!(s.hit(&r, Scalar::from_raw(fx(4.0).raw() - 1), far()).unwrap().t, fx(4.0));
    assert_eq!(s.hit(&r, fx(4.0), fx(6.0)).unwrap().t, fx(6.0));
    assert!(s.hit(&r, fx(4.0), Scalar::from_raw(fx(6.0).raw() - 1)).is_none());
    assert!(s.hit(&r, fx(6.0), far()).is_none());
    assert!(s.hit(&r, fx(4.5), fx(5.5)).is_none());
}

#[test]
fn far_root_reports_the_back_face() {
    let o = v(0.0, 0.0, 5.0);
    let d = v(0.0, 0.0, -1.0);
    let rec = unit_sphere().hit(&Ray(&o, &d), fx(4.5), far()).unwrap();
    assert_eq!(rec.t, fx(6.0));
    assert_eq!(rec.p, v(0.0, 0.0, -1.0));
    assert!(!rec.front_face);
    assert_eq!(rec.normal, v(0.0, 0.0, 1.0));
}

#[test]
fn empty_and_reversed_windows_report_nothing() {
    let o = v(0.0, 0.0, 5.0);
    let d = v(0.0, 0.0, -1.0);
    let s = unit_sphere();
    let r = Ray(&o, &d);
    assert!(s.hit(&r, fx(4.0), fx(4.0)).is_none());
    assert!(s.hit(&r, fx(7.0), fx(3.0)).is_none());
}

#[test]
fn direction_need_not_have_length_one() {
    let o = v(0.0, 0.0, 5.0);
    let d = v(0.0, 0.0, -2.0);
    let rec = unit_sphere().hit(&Ray(&o, &d), fx(0.0), far()).unwrap();
    assert_eq!(rec.t, fx(2.0));
    assert_eq!(rec.p, v(0.0, 0.0, 1.0));
    assert_eq!(rec.normal, v(0.0, 0.0, 1.0));
    let d = v(0.0, 0.0, -0.25);
    let rec = unit_sphere().hit(&Ray(&o, &d), fx(0.0), far()).unwrap();
    assert_eq!(rec.t, fx(16.0));
    assert_eq!(rec.p, v(0.0, 0.0, 1.0));
}

#[test]
fn tangent_ray_touches() {
    let o = v(-5.0, 1.0, 0.0);
    let d = v(1.0, 0.0, 0.0);
    let rec = unit_sphere().hit(&Ray(&o, &d), fx(0.0), far()).unwrap();
    assert_eq!(rec.t, fx(5.0));
    assert_eq!(rec.p, v(0.0, 1.0, 0.0));
    // the ray runs at right angles to the normal: not a front face
    assert!(!rec.front_face);
    assert_eq!(rec.normal, v(0.0, -1.0, 0.0));
}

#[test]
fn ray_just_outside_misses() {
    let o = Vec3::new(fx(-5.0), Scalar::from_raw(65537), fx(0.0));
    let d = v(1.0, 0.0, 0.0);
    assert!(unit_sphere().hit(&Ray(&o, &d), fx(0.0), far()).is_none());
}

#[test]
fn zero_direction_is_no_hit() {
    let o = v(0.0, 0.0, 0.0);
    let d = v(0.0, 0.0, 0.0);
    assert!(unit_sphere().hit(&Ray(&o, &d), fx(-1.0), far()).is_none());
    let o = v(0.0, 0.0, 5.0);
    assert!(unit_sphere().hit(&Ray(&o, &d), fx(-1.0), far()).is_none());
}

#[test]
fn radius_must_be_positive() {
    let o = v(0.0, 0.0, 5.0);
    let d = v(0.0, 0.0, -1.0);
    let r = Ray(&o, &d);
    let point = Sphere::new(v(0.0, 0.0, 0.0), fx(0.0));
    assert!(point.hit(&r, fx(0.0), far()).is_none());
    let negative = Sphere::new(v(0.0, 0.0, 0.0), fx(-1.0));
    assert!(negative.hit(&r, fx(0.0), far()).is_none());
}

#[test]
fn hit_point_lies_on_the_sphere() {
    let spheres = [
        Sphere::new(v(0.0, 0.0, -1.0), fx(0.5)),
        Sphere::new(v(3.0, -2.0, -10.0), fx(4.0)),
        Sphere::new(v(-100.0, 50.0, -300.0), fx(120.0)),
    ];
    let o = v(0.0, 0.0, 0.0);
    let mut hits = 0;
    for s in spheres.iter() {
        for i in -8..=8 {
            for j in -8..=8 {
                let c = s.center;
                let d = Vec3::new(
                    Scalar::from_raw(c.x().raw() / 64 + i * 37),
                    Scalar::from_raw(c.y().raw() / 64 + j * 41),
                    Scalar::from_raw(c.z().raw() / 64),
                );
                let r = Ray(&o, &d);
                assert!(s.is_in_range() && r.is_in_range());
                if let Some(rec) = s.hit(&r, fx(0.0), far()) {
                    hits += 1;
                    let dist = distance(&rec.p, &s.center);
                    let radius = val(s.radius);
                    assert!((dist - radius).abs() <= 1e-3 * radius, "{} vs {}", dist, radius);
                    let n = rec.normal;
                    let len = (val(n.x()).powi(2) + val(n.y()).powi(2) + val(n.z()).powi(2)).sqrt();
                    assert!((len - 1.0).abs() <= 2e-3, "normal of length {}", len);
                }
            }
        }
    }
    assert!(hits > 100);
}

#[test]
fn normal_opposes_the_ray_and_parameter_is_in_the_window() {
    let s = Sphere::new(v(1.0, 2.0, -3.0), fx(2.5));
    let origins = [v(0.0, 0.0, 0.0), v(1.0, 2.0, -3.0), v(1.0, 2.5, -1.0), v(9.0, 9.0, 9.0)];
    let windows = [(fx(0.0), far()), (fx(-50.0), fx(50.0)), (fx(0.5), fx(3.0)), (fx(-4.0), fx(0.0))];
    let mut hits = 0;
    for o in origins.iter() {
        for i in -5i32..=5 {
            for j in -5i32..=5 {
                for k in -5i32..=5 {
                    let d = Vec3::new(Scalar::from_int(i), Scalar::from_int(j), Scalar::from_int(k));
                    let r = Ray(o, &d);
                    for (t_min, t_max) in windows.iter() {
                        if let Some(rec) = s.hit(&r, *t_min, *t_max) {
                            hits += 1;
                            assert!(dot_exact(&d, &rec.normal) <= 0);
                            assert!(fx_dot_wide(&d, &rec.normal) <= 0);
                            assert!(t_min.raw() < rec.t.raw() && rec.t.raw() <= t_max.raw());
                            assert_eq!(rec.p, r.at(rec.t));
                        }
                    }
                }
            }
        }
    }
    assert!(hits > 1000);
}

#[test]
fn same_query_twice_gives_the_same_record() {
    let s = Sphere::new(v(0.25, -0.5, -3.0), fx(1.25));
    let o = v(0.0, 0.0, 0.0);
    let d = v(0.1, -0.2, -1.0);
    let r = Ray(&o, &d);
    let first: Option<HitRecord> = s.hit(&r, fx(0.0), far());
    let second: Option<HitRecord> = s.hit(&r, fx(0.0), far());
    let a = first.unwrap();
    let b = second.unwrap();
    assert_eq!((a.p, a.normal, a.t, a.front_face), (b.p, b.normal, b.t, b.front_face));
}

#[test]
fn set_face_normal_orients_against_the_ray() {
    let o = v(0.0, 0.0, 0.0);
    let d = v(0.0, 0.0, -1.0);
    let r = Ray(&o, &d);
    let mut rec = HitRecord { p: v(0.0, 0.0, -2.0), normal: v(0.0, 0.0, 0.0), t: fx(2.0), front_face: false };
    rec.set_face_normal(&r, &v(0.0, 0.0, 1.0));
    assert!(rec.front_face);
    assert_eq!(rec.normal, v(0.0, 0.0, 1.0));
    rec.set_face_normal(&r, &v(0.0, 0.0, -1.0));
    assert!(!rec.front_face);
    assert_eq!(rec.normal, v(0.0, 0.0, 1.0));
    rec.set_face_normal(&r, &v(1.0, 0.0, 0.0));
    assert!(!rec.front_face);
    assert_eq!(rec.normal, v(-1.0, 0.0, 0.0));
    assert_eq!(rec.p, v(0.0, 0.0, -2.0));
    assert_eq!(rec.t, fx(2.0));
}

#[test]
fn set_face_normal_takes_extreme_vectors() {
    let o = v(0.0, 0.0, 0.0);
    let d = Vec3(Scalar::from_raw(i64::MAX), Scalar::from_raw(i64::MAX), Scalar::from_raw(i64::MAX));
    let r = Ray(&o, &d);
    let n = Vec3(Scalar::from_raw(i64::MAX), Scalar::from_raw(i64::MAX), Scalar::from_raw(i64::MAX));
    let mut rec = HitRecord { p: o, normal: o, t: fx(1.0), front_face: true };
    rec.set_face_normal(&r, &n);
    assert!(!rec.front_face);
    assert_eq!(rec.normal, -n);
    rec.set_face_normal(&r, &(-n));
    assert!(rec.front_face);
    assert_eq!(rec.normal, -n);
}

#[test]
fn ray_accessors_and_points() {
    let o = v(1.0, 2.0, 3.0);
    let d = v(0.5, 0.0, -1.0);
    let r = Ray(&o, &d);
    assert_eq!(*r.origin(), o);
    assert_eq!(*r.direction(), d);
    assert_eq!(r.at(fx(0.0)), o);
    assert_eq!(r.at(fx(2.0)), v(2.0, 2.0, 1.0));
    assert_eq!(r.at(fx(-1.5)), v(0.25, 2.0, 4.5));
    // products round toward zero
    let tiny = Vec3(Scalar::from_raw(3), Scalar::from_raw(-3), Scalar::from_raw(0));
    let r = Ray(&o, &tiny);
    assert_eq!(
        r.at(fx(0.5)),
        Vec3(
            Scalar::from_raw(fx(1.0).raw() + 1),
            Scalar::from_raw(fx(2.0).raw() - 1),
            fx(3.0)
        )
    );
}

#[test]
fn limits_of_the_range() {
    let m = 16384.0;
    let s = Sphere::new(v(m, m, m), fx(m));
    let o = v(-m, -m, -m);
    let d = v(m, m, m);
    let r = Ray(&o, &d);
    assert!(s.is_in_range() && r.is_in_range());
    let rec = s.hit(&r, fx(-m), fx(m)).unwrap();
    // the ray enters at distance |2m * sqrt(3)| - m from its origin, along a direction of length m * sqrt(3)
    let expected = 2.0 - 1.0 / 3f64.sqrt();
    assert!((val(rec.t) - expected).abs() < 1e-4);
    assert!(rec.front_face);
    let out_of_range = Sphere::new(v(m, m, m), Scalar::from_raw(fx(m).raw() + 1));
    assert!(!out_of_range.is_in_range());
}
