use pathtracer::aabb::Aabb;
use pathtracer::aabb::Axis;
use pathtracer::bvh::Bvh;
use pathtracer::bvh::Prim;
use pathtracer::bvh::closest_of;
use pathtracer::bvh::scan_query;
use pathtracer::color::aggregate_channel;
use pathtracer::color::tone_map_channel;
use pathtracer::hit_record::HitRecordDebug;
use pathtracer::hit_record::oriented_normal;
use pathtracer::hittable::HittableList;
use pathtracer::image_texture::Rgb8;
use pathtracer::image_texture::UVImage;
use pathtracer::interval::Interval;
use pathtracer::material::Normal;
use pathtracer::material::lattice_is_even;
use pathtracer::mesh::Face;
use pathtracer::mesh::FaceVertex;
use pathtracer::mesh::parse_index;
use pathtracer::mesh::resolve_faces;
use pathtracer::perlin::generate_perm;
use pathtracer::perlin::lattice_index;
use pathtracer::ray::Ray;
use pathtracer::vec3::Vec3;
use pathtracer::vec3::near_zero;
use pathtracer::vec3::reflect;

fn v(x: i64, y: i64, z: i64) -> Vec3 {
    Vec3::new(x, y, z)
}

#[test]
fn ray_origin() {
    let r = Ray::new(v(1, 2, 3), v(1, 1, 1));
    assert_eq!(r.origin(), v(1, 2, 3));
}

#[test]
fn ray_at() {
    let r = Ray::new(v(1, 2, 3), v(1, 1, 1));
    assert_eq!(r.at(0), v(1, 2, 3));
    assert_eq!(r.at(1), r.origin().plus(r.direction()));
}

#[test]
fn axis_roundtrip() {
    assert_eq!(Axis::from_idx(0), Axis::X);
    assert_eq!(Axis::from_idx(1), Axis::Y);
    assert_eq!(Axis::from_idx(2), Axis::Z);
    assert_eq!(Axis::X.idx(), 0);
    assert_eq!(Axis::Y.idx(), 1);
    assert_eq!(Axis::Z.idx(), 2);
}

#[test]
fn wrap_points_contains_and_is_minimal() {
    let a = v(3, -1, 7);
    let b = v(-2, 5, 7);
    let w = Aabb::wrap_points(&a, &b);
    assert!(w.contains_point(&a));
    assert!(w.contains_point(&b));
    // Minimal per axis: the corners are exactly the componentwise extremes.
    assert_eq!(w.min, v(-2, -1, 7));
    assert_eq!(w.max, v(3, 5, 7));
}

#[test]
fn wrap_boxes_contains_both() {
    let b0 = Aabb::wrap_points(&v(0, 0, 0), &v(2, 2, 2));
    let b1 = Aabb::wrap_points(&v(-3, 1, 1), &v(1, 4, 1));
    let w = Aabb::wrap_boxes(&b0, &b1);
    // Points of either input box are points of the union box.
    assert!(w.contains_point(&v(2, 2, 2)));
    assert!(w.contains_point(&v(-3, 4, 1)));
    assert!(w.contains_point(&v(1, 1, 1)));
    assert_eq!(w.min, v(-3, 0, 0));
    assert_eq!(w.max, v(2, 4, 2));
}

#[test]
fn wrap_triangle_covers_vertices() {
    let w = Aabb::wrap_triangle(&[v(0, 0, 0), v(4, -2, 1), v(-1, 3, 5)]);
    assert!(w.contains_point(&v(0, 0, 0)));
    assert!(w.contains_point(&v(4, -2, 1)));
    assert!(w.contains_point(&v(-1, 3, 5)));
    assert_eq!(w.min, v(-1, -2, 0));
    assert_eq!(w.max, v(4, 3, 5));
}

#[test]
fn interval_basics() {
    let i = Interval::new(-2, 5);
    assert!(i.contains(-2));
    assert!(i.contains(5));
    assert!(!i.surrounds(5));
    assert!(i.surrounds(0));
    assert_eq!(i.size(), 7);
    assert_eq!(i.clamp(9), 5);
    assert_eq!(i.clamp(-9), -2);
    assert_eq!(i.clamp(1), 1);
    let e = Interval::empty();
    assert!(!e.contains(0));
    let u = Interval::universe();
    assert!(u.contains(i64::MIN) && u.contains(i64::MAX));
    let w = Interval::wrap_intervals(&Interval::new(0, 2), &Interval::new(-1, 1));
    assert_eq!(w, Interval::new(-1, 2));
    assert_eq!(Interval::new(0, 4).expand(2), Interval::new(-1, 5));
    assert!(Interval::new(0, 2).intersects(&Interval::new(2, 3)));
    assert!(!Interval::new(0, 2).intersects(&Interval::new(3, 4)));
}

#[test]
fn longest_axis_tie_break() {
    // X strictly longest.
    let bx = Aabb::new(v(0, 0, 0), v(3, 2, 1));
    assert_eq!(bx.longest_axis(), Axis::X);
    // X ties Y: Y wins over Z, X loses its strict test.
    let bxy = Aabb::new(v(0, 0, 0), v(2, 2, 1));
    assert_eq!(bxy.longest_axis(), Axis::Y);
    // Y ties Z: Z wins.
    let byz = Aabb::new(v(0, 0, 0), v(1, 2, 2));
    assert_eq!(byz.longest_axis(), Axis::Z);
    // All equal: Z.
    let beq = Aabb::new(v(0, 0, 0), v(2, 2, 2));
    assert_eq!(beq.longest_axis(), Axis::Z);
}

#[test]
fn surface_area_and_volume() {
    let b = Aabb::new(v(0, 0, 0), v(2, 3, 4));
    assert_eq!(b.surface_area(), 52);
    assert_eq!(b.volume(), 24);
    assert_eq!(b.center(), v(1, 1, 2));
}

fn cube_at(x: i64, y: i64, z: i64, half: i64, id: usize) -> Prim {
    Prim {
        bbox: Aabb::wrap_points(&v(x - half, y - half, z - half), &v(x + half, y + half, z + half)),
        id,
    }
}

#[test]
fn bvh_query_matches_linear_scan() {
    // A spread of boxes; enough of them to force several leaves.
    let mut prims: Vec<Prim> = Vec::new();
    let mut id = 0;
    for x in 0..4i64 {
        for y in 0..3i64 {
            for z in 0..2i64 {
                prims.push(cube_at(10 * x, 10 * y, 10 * z, 2 + x, id));
                id += 1;
            }
        }
    }
    let bvh = Bvh::new(&mut prims);
    let queries = [
        Aabb::wrap_points(&v(-1, -1, -1), &v(1, 1, 1)),
        Aabb::wrap_points(&v(5, 5, 5), &v(25, 25, 25)),
        Aabb::wrap_points(&v(100, 100, 100), &v(200, 200, 200)), // miss
        Aabb::wrap_points(&v(-100, -100, -100), &v(100, 100, 100)), // everything
    ];
    for q in queries.iter() {
        let mut fast = bvh.query(&prims, q);
        let mut slow = scan_query(&prims, q);
        fast.sort();
        slow.sort();
        assert_eq!(fast, slow);
    }
    // The all-covering query reports every primitive exactly once.
    let mut all = bvh.query(&prims, &queries[3]);
    all.sort();
    let expected: Vec<usize> = (0..prims.len()).collect();
    assert_eq!(all, expected);
}

#[test]
fn bvh_single_primitive() {
    let mut prims = vec![cube_at(0, 0, 0, 1, 7)];
    let bvh = Bvh::new(&mut prims);
    let hit = bvh.query(&prims, &Aabb::wrap_points(&v(0, 0, 0), &v(1, 1, 1)));
    assert_eq!(hit, vec![0]);
    let miss = bvh.query(&prims, &Aabb::wrap_points(&v(5, 5, 5), &v(6, 6, 6)));
    assert!(miss.is_empty());
    assert_eq!(prims[0].id, 7);
}

#[test]
fn tone_map_extremes_and_midpoint() {
    // Full white saturates the channel; black stays black.
    assert_eq!(tone_map_channel(1, 1), 255);
    assert_eq!(tone_map_channel(0, 1), 0);
    // Just below the clamp threshold.
    assert_eq!(tone_map_channel(999, 1000), 255);
    assert_eq!(tone_map_channel(1, 2), 128);
    assert_eq!(tone_map_channel(1, 4), 64);
    // Values above one clamp to the maximum.
    assert_eq!(tone_map_channel(7, 2), 255);
}

#[test]
fn aggregate_extremes() {
    assert_eq!(aggregate_channel(&vec![255]), 255);
    assert_eq!(aggregate_channel(&vec![0]), 0);
    assert_eq!(aggregate_channel(&vec![0, 0, 0]), 0);
    assert_eq!(aggregate_channel(&vec![255, 255, 255, 255]), 255);
}

#[test]
fn aggregate_identical_frames_is_idempotent() {
    for &value in &[0u8, 1, 17, 100, 200, 254, 255] {
        let one = aggregate_channel(&vec![value]);
        for k in [2usize, 3, 8, 16] {
            let many = aggregate_channel(&vec![value; k]);
            assert_eq!(many, one);
        }
    }
}

#[test]
fn aggregate_applies_gamma() {
    // Gamma correction lifts a dark channel: the square root of 63/255
    // is 0.49704..., and 256 times that truncates to 127.
    let quarter = 255u8 / 4; // 63
    assert_eq!(aggregate_channel(&vec![quarter]), 127);
}

#[test]
fn perlin_permutation_is_permutation() {
    let n = 256usize;
    // Swap targets as a deterministic pseudo-random draw: target <= i.
    let targets: Vec<usize> = (0..n).map(|i| (i * 7919 + 13) % (i + 1)).collect();
    let p = generate_perm(n, &targets);
    assert_eq!(p.len(), n);
    let mut seen = vec![false; n];
    for &e in &p {
        assert!(e < n);
        assert!(!seen[e]);
        seen[e] = true;
    }
    assert!(seen.iter().all(|&s| s));
    // The shuffle really moved something for this draw.
    assert!(p.iter().enumerate().any(|(i, &e)| i != e));
}

#[test]
fn perlin_lattice_index_in_range() {
    assert_eq!(lattice_index(255, 255, 255), 255);
    assert_eq!(lattice_index(1, 2, 4), 7);
    assert_eq!(lattice_index(170, 85, 0), 255);
    for a in [0usize, 3, 77, 128, 255] {
        for b in [0usize, 99, 255] {
            assert!(lattice_index(a, b, 31) < 256);
        }
    }
}

fn fv(p: usize, t: usize, n: usize) -> FaceVertex {
    FaceVertex { position: p, uv: t, normal: n }
}

#[test]
fn resolve_faces_rebases_valid_indices() {
    let faces = vec![
        Face { a: fv(1, 1, 1), b: fv(2, 1, 2), c: fv(3, 2, 1) },
        Face { a: fv(3, 2, 2), b: fv(1, 2, 1), c: fv(2, 1, 2) },
    ];
    let out = resolve_faces(3, 2, 2, &faces).unwrap();
    assert_eq!(out.len(), 2);
    assert_eq!(out[0].a, fv(0, 0, 0));
    assert_eq!(out[0].b, fv(1, 0, 1));
    assert_eq!(out[1].c, fv(1, 0, 1));
}

#[test]
fn resolve_faces_rejects_out_of_range() {
    let good = Face { a: fv(1, 1, 1), b: fv(2, 1, 2), c: fv(3, 2, 1) };
    // Second face points past the vertex list; zero is invalid too.
    let bad_high = Face { a: fv(4, 1, 1), b: fv(1, 1, 1), c: fv(2, 1, 1) };
    let err = resolve_faces(3, 2, 2, &vec![good, bad_high]).unwrap_err();
    assert_eq!(err.face, 1);
    let bad_zero = Face { a: fv(0, 1, 1), b: fv(1, 1, 1), c: fv(2, 1, 1) };
    let err = resolve_faces(3, 2, 2, &vec![bad_zero, good]).unwrap_err();
    assert_eq!(err.face, 0);
    let bad_uv = Face { a: fv(1, 3, 1), b: fv(1, 1, 1), c: fv(2, 1, 1) };
    let err = resolve_faces(3, 2, 2, &vec![good, good, bad_uv]).unwrap_err();
    assert_eq!(err.face, 2);
}

#[test]
fn image_texture_sampling() {
    let px = |r: u8| Rgb8 { r, g: 0, b: 0 };
    // 2x2 raster, row major: rows top to bottom 10,20 / 30,40.
    let img = UVImage::new(2, 2, vec![px(10), px(20), px(30), px(40)]);
    assert_eq!(img.texel(0, 0).r, 10);
    assert_eq!(img.texel(1, 1).r, 40);
    // v is flipped: v = 1 samples the top row, v = 0 the bottom row.
    assert_eq!(img.sample(0, 1, 1, 1).r, 10);
    assert_eq!(img.sample(1, 1, 1, 1).r, 20);
    assert_eq!(img.sample(0, 1, 0, 1).r, 30);
    // Coordinates beyond the unit square clamp.
    assert_eq!(img.sample(9, 2, 0, 1).r, 40);
}

#[test]
fn hittable_list_tracks_bounds() {
    let mut list = HittableList::new(vec![cube_at(0, 0, 0, 1, 0)]);
    assert_eq!(list.bbox.min, v(-1, -1, -1));
    list.add(cube_at(10, 0, 0, 2, 1));
    assert_eq!(list.bbox.min, v(-1, -2, -2));
    assert_eq!(list.bbox.max, v(12, 2, 2));
    assert_eq!(list.objects.len(), 2);
}

#[test]
fn reflect_formula_and_antiparallel() {
    // reflect(v, n) == v - 2 dot(v, n) n.
    let d = v(1, -1, 0);
    let n = v(0, 1, 0);
    assert_eq!(reflect(&d, &n), v(1, 1, 0));
    // A vector anti-parallel to a unit normal reflects to its negation.
    let anti = v(0, -3, 0);
    assert_eq!(reflect(&anti, &n), v(0, 3, 0));
    assert_eq!(reflect(&anti, &n), anti.neg());
}

#[test]
fn vector_operations() {
    let a = v(1, 2, 3);
    let b = v(4, 5, 6);
    assert_eq!(a.plus(b), v(5, 7, 9));
    assert_eq!(b.minus(a), v(3, 3, 3));
    assert_eq!(a.scale(2), v(2, 4, 6));
    assert_eq!(a.dot(b), 32);
    assert_eq!(a.cross(b), v(-3, 6, -3));
    assert!(near_zero(&Vec3::zeros()));
    assert!(!near_zero(&v(0, 0, 1)));
}

#[test]
fn intersection_counter_increments() {
    let mut dbg = HitRecordDebug::new();
    assert_eq!(dbg.intersection_checks, 0);
    dbg.inc_intersection_checks();
    dbg.inc_intersection_checks();
    assert_eq!(dbg.intersection_checks, 2);
}

#[test]
fn normal_material_constructs() {
    let m = Normal::new();
    assert_eq!(m, Normal {});
}

#[test]
fn parse_index_accepts_digits_only() {
    assert_eq!(parse_index(b"0"), Some(0));
    assert_eq!(parse_index(b"42"), Some(42));
    assert_eq!(parse_index(b"007"), Some(7));
    assert_eq!(parse_index(b"18446744073709551615"), Some(usize::MAX));
    assert_eq!(parse_index(b""), None);
    assert_eq!(parse_index(b"12a"), None);
    assert_eq!(parse_index(b"-3"), None);
    assert_eq!(parse_index(b"4/5"), None);
    // One past the largest representable value overflows.
    assert_eq!(parse_index(b"18446744073709551616"), None);
}

#[test]
fn closest_candidate_selection() {
    let tvals: Vec<u64> = vec![50, 10, 30, 20];
    assert_eq!(closest_of(&vec![0, 2, 3], &tvals), Some(3));
    assert_eq!(closest_of(&vec![2], &tvals), Some(2));
    assert_eq!(closest_of(&vec![], &tvals), None);
    // Agreement across orderings: the minimal parameter is the same.
    let a = closest_of(&vec![0, 1, 2, 3], &tvals).unwrap();
    let b = closest_of(&vec![3, 2, 1, 0], &tvals).unwrap();
    assert_eq!(tvals[a], tvals[b]);
}

#[test]
fn face_normal_orientation() {
    // A ray running against the outward normal is front-facing and keeps
    // the normal; one running along it flips the normal.
    let down = v(0, -1, 0);
    let up = v(0, 1, 0);
    let (n, front) = oriented_normal(&down, &up);
    assert!(front);
    assert_eq!(n, up);
    let (n, front) = oriented_normal(&up, &up);
    assert!(!front);
    assert_eq!(n, v(0, -1, 0));
}

#[test]
fn checker_cell_parity() {
    assert!(lattice_is_even(0, 0, 0));
    assert!(!lattice_is_even(1, 0, 0));
    assert!(lattice_is_even(1, 1, 0));
    assert!(!lattice_is_even(1, 1, 1));
    // The pattern alternates through negative cells too.
    assert!(!lattice_is_even(-1, 0, 0));
    assert!(lattice_is_even(-1, -1, 0));
    assert!(lattice_is_even(-2, 0, 0));
}
