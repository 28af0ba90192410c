use shadow_mapping::bounds::Aabb;
use shadow_mapping::cascade::blend_factors;
use shadow_mapping::cascade::cascade_blend;
use shadow_mapping::cascade::fit_cascades;
use shadow_mapping::cascade::fit_snapped_cascades;
use shadow_mapping::cascade::sample_cascaded;
use shadow_mapping::cascade::select_cascade;
use shadow_mapping::cascade::Cascade;
use shadow_mapping::cascade::CascadeBlend;
use shadow_mapping::depth_map::DepthMap;
use shadow_mapping::depth_pass::render_ortho;
use shadow_mapping::error::ShadowError;
use shadow_mapping::frustum::along_edge;
use shadow_mapping::frustum::FitMode;
use shadow_mapping::frustum::Frustum;
use shadow_mapping::sampler::sample_directional;
use shadow_mapping::sampler::BiasRange;
use shadow_mapping::sampler::Filter;
use shadow_mapping::scalar::ONE;
use shadow_mapping::split::split_depths;
use shadow_mapping::split::Split;
use shadow_mapping::split::SplitScheme;
use shadow_mapping::transform::directional_transform;
use shadow_mapping::vector::Vec3;
use shadow_mapping::vector::COORD_MAX;

fn v(x: i64, y: i64, z: i64) -> Vec3 {
    Vec3::new(x, y, z)
}

// A camera at the origin that looks down the negative z axis with a
// field of view of about 11 degrees: the planes at depths 10 and 110.
fn camera() -> Frustum {
    Frustum {
        near: 10,
        far: 110,
        near_corners: [v(-1, -1, -10), v(1, -1, -10), v(1, 1, -10), v(-1, 1, -10)],
        far_corners: [v(-11, -11, -110), v(11, -11, -110), v(11, 11, -110), v(-11, 11, -110)],
    }
}

fn inside(c: &Cascade, p: &Vec3) -> bool {
    let t = &c.transform;
    let x = t.side.dot(p);
    let y = t.up.dot(p);
    let z = t.forward.dot(p);
    t.left as i128 <= x
        && x <= t.right as i128
        && t.bottom as i128 <= y
        && y <= t.top as i128
        && t.near as i128 <= z
        && z <= t.far as i128
}

#[test]
fn edges_of_the_frustum_are_interpolated() {
    assert_eq!(along_edge(1, 11, 60, 10, 110), 6);
    assert_eq!(along_edge(-10, -110, 60, 10, 110), -60);
    assert_eq!(along_edge(-1, -11, 10, 10, 110), -1);
    assert_eq!(along_edge(-1, -11, 110, 10, 110), -11);
    assert_eq!(along_edge(0, 1, 1, 0, 3), 0);
    assert_eq!(along_edge(0, -1, 1, 0, 3), -1);
    let f = camera();
    assert_eq!(f.edge_at(0, 60), v(-6, -6, -60));
    assert_eq!(f.edge_at(2, 35), v(3, 3, -35));
}

#[test]
fn boxes_around_the_frustum_and_its_parts() {
    let f = camera();
    assert_eq!(f.bounds(), Aabb { min: v(-11, -11, -110), max: v(11, 11, -10) });
    let part = f.slice_bounds(&Split { near: 10, far: 60 });
    assert_eq!(part, Aabb { min: v(-6, -6, -60), max: v(6, 6, -10) });
    let points = f.slice_points(&Split { near: 60, far: 110 });
    assert_eq!(points.len(), 8);
    assert_eq!(points[0], v(-6, -6, -60));
    assert_eq!(points[6], v(11, 11, -110));
}

#[test]
fn the_cube_around_the_sphere_has_equal_sides() {
    let f = camera();
    let s = Split { near: 10, far: 60 };
    let b = f.slice_sphere(&s);
    // The middle of the part is (0, 0, -35); its furthest corners, those
    // at the depth of 60, lie 26.4 away.
    assert_eq!(b, Aabb { min: v(-26, -26, -61), max: v(26, 26, -9) });
    assert_eq!(b.max.x - b.min.x, b.max.y - b.min.y);
    assert_eq!(b.max.x - b.min.x, b.max.z - b.min.z);
    for p in f.slice_points(&s) {
        assert!(b.contains(&p));
    }
    assert_eq!(f.fitted(&s, FitMode::Sphere), b);
    assert_eq!(f.fitted(&s, FitMode::Box), f.slice_bounds(&s));
}

#[test]
fn the_cube_around_the_sphere_stops_at_the_limits_of_the_world() {
    let f = Frustum {
        near: 1,
        far: 2,
        near_corners: [v(COORD_MAX, 0, 0), v(COORD_MAX, 0, 0), v(COORD_MAX, 0, 0), v(COORD_MAX, 0, 0)],
        far_corners: [
            v(COORD_MAX - 10, 0, 0),
            v(COORD_MAX - 10, 0, 0),
            v(COORD_MAX - 10, 0, 0),
            v(COORD_MAX - 10, 0, 0),
        ],
    };
    let b = f.slice_sphere(&Split { near: 1, far: 2 });
    assert_eq!(b, Aabb { min: v(COORD_MAX - 10, -5, -5), max: v(COORD_MAX, 5, 5) });
}

#[test]
fn one_cascade_is_the_builder_on_the_whole_frustum() {
    let f = camera();
    let d = v(2, -4, 1);
    for scheme in [SplitScheme::Uniform, SplitScheme::Logarithmic, SplitScheme::Practical { blend: ONE / 2 }] {
        let cs = fit_cascades(&f, &d, 1, scheme, FitMode::Box).unwrap();
        assert_eq!(cs.len(), 1);
        assert_eq!(cs[0].split, Split { near: 10, far: 110 });
        assert_eq!(cs[0].bounds, f.bounds());
        assert_eq!(cs[0].transform, directional_transform(&d, &f.bounds()).unwrap());
    }
}

#[test]
fn every_cascade_holds_its_part_of_the_frustum() {
    let f = camera();
    let d = v(2, -4, 1);
    for fit in [FitMode::Box, FitMode::Sphere] {
        for n in 1..=5 {
            let cs = fit_cascades(&f, &d, n, SplitScheme::Practical { blend: ONE / 2 }, fit).unwrap();
            let splits = split_depths(10, 110, n, SplitScheme::Practical { blend: ONE / 2 }).unwrap();
            assert_eq!(cs.len(), n);
            for (c, s) in cs.iter().zip(&splits) {
                assert_eq!(c.split, *s);
                assert_eq!(c.bounds, f.fitted(s, fit));
                assert_eq!(c.transform, directional_transform(&d, &c.bounds).unwrap());
                for p in f.slice_points(s) {
                    assert!(inside(c, &p));
                }
            }
        }
    }
}

#[test]
fn cascades_of_the_demo_camera() {
    let cs = fit_cascades(&camera(), &v(0, -1, 0), 2, SplitScheme::Uniform, FitMode::Box).unwrap();
    assert_eq!(cs[0].split, Split { near: 10, far: 60 });
    assert_eq!(cs[1].split, Split { near: 60, far: 110 });
    assert_eq!(cs[0].bounds, Aabb { min: v(-6, -6, -60), max: v(6, 6, -10) });
    assert_eq!(cs[1].bounds, Aabb { min: v(-11, -11, -110), max: v(11, 11, -60) });
    assert_eq!((cs[0].transform.left, cs[0].transform.right), (-6, 6));
    assert_eq!((cs[0].transform.bottom, cs[0].transform.top), (-60, -10));
    assert_eq!((cs[0].transform.near, cs[0].transform.far), (-6, 6));
    assert_eq!((cs[1].transform.bottom, cs[1].transform.top), (-110, -60));
}

#[test]
fn cascades_are_rejected_for_bad_lights_and_bad_cameras() {
    let f = camera();
    let fit = FitMode::Box;
    assert_eq!(
        fit_cascades(&f, &v(0, 0, 0), 3, SplitScheme::Uniform, fit),
        Err(ShadowError::InvalidLightState)
    );
    assert_eq!(
        fit_cascades(&f, &v(0, 0, 0), 0, SplitScheme::Uniform, fit),
        Err(ShadowError::InvalidLightState)
    );
    assert_eq!(
        fit_cascades(&f, &v(0, -1, 0), 0, SplitScheme::Uniform, fit),
        Err(ShadowError::DegenerateFrustum)
    );
    let mut flat = camera();
    flat.far = flat.near;
    assert_eq!(
        fit_cascades(&flat, &v(0, -1, 0), 2, SplitScheme::Uniform, fit),
        Err(ShadowError::DegenerateFrustum)
    );
}

#[test]
fn cascades_of_a_deep_camera() {
    let mut deep = camera();
    deep.near = 100;
    deep.far = 100_000;
    for scheme in [SplitScheme::Logarithmic, SplitScheme::Uniform, SplitScheme::Practical { blend: ONE / 2 }] {
        let cs = fit_cascades(&deep, &v(0, -1, 0), 8, scheme, FitMode::Sphere).unwrap();
        let splits = split_depths(100, 100_000, 8, scheme).unwrap();
        assert_eq!(cs.len(), 8);
        for (c, s) in cs.iter().zip(&splits) {
            assert_eq!(c.split, *s);
            for p in deep.slice_points(s) {
                assert!(inside(c, &p));
            }
        }
    }
    let log = fit_cascades(&deep, &v(0, -1, 0), 8, SplitScheme::Logarithmic, FitMode::Box).unwrap();
    assert_eq!(log[3].split, Split { near: 1_333, far: 3_162 });
}

// Three cascades of which the middle one is shorter than the zone.
fn short_middle() -> Vec<Cascade> {
    let bounds = Aabb::new(v(-10, 0, -10), v(10, 4, 10)).unwrap();
    let transform = directional_transform(&v(0, -1, 0), &bounds).unwrap();
    [(0, 10), (10, 12), (12, 100)]
        .iter()
        .map(|(near, far)| Cascade { split: Split { near: *near, far: *far }, bounds, transform })
        .collect()
}

#[test]
fn on_a_cut_the_two_cascades_at_the_cut_are_mixed() {
    let cs = short_middle();
    let blend = |depth| cascade_blend(&cs, depth, 5).unwrap();
    assert_eq!(blend(10), CascadeBlend { primary: 1, secondary: 0, weight: 500_000 });
    assert_eq!(blend(12), CascadeBlend { primary: 2, secondary: 1, weight: 500_000 });
    // Between the two cuts the nearer one counts, and the far one where
    // both are as near.
    assert_eq!(blend(11), CascadeBlend { primary: 1, secondary: 2, weight: 400_000 });
    assert_eq!(blend(9), CascadeBlend { primary: 0, secondary: 1, weight: 400_000 });
    assert_eq!(blend(5), CascadeBlend { primary: 0, secondary: 1, weight: 0 });
    assert_eq!(blend(4), CascadeBlend { primary: 0, secondary: 0, weight: 0 });
    assert_eq!(blend(14), CascadeBlend { primary: 2, secondary: 1, weight: 300_000 });
    assert_eq!(blend(17), CascadeBlend { primary: 2, secondary: 2, weight: 0 });
}

#[test]
fn on_a_cut_a_third_cascade_plays_no_part() {
    let cs = short_middle();
    let roof: Vec<Vec3> = (-10..=10).flat_map(|x| (-10..=10).map(move |z| v(x, 4, z))).collect();
    // The two cascades at the cut are in shadow, the third is lit.
    let mut first = DepthMap::new(20, 20).unwrap();
    let mut second = DepthMap::new(20, 20).unwrap();
    let third = DepthMap::new(20, 20).unwrap();
    render_ortho(&mut first, &cs[0].transform, &roof);
    render_ortho(&mut second, &cs[1].transform, &roof);
    let maps = vec![first, second, third];
    let p = v(0, 0, 0);
    let n = v(0, 1, 0);
    assert_eq!(sample_cascaded(&cs, &maps, &p, &n, 10, narrow(), 5), 0);
    assert_eq!(sample_cascaded(&cs, &maps, &p, &n, 12, narrow(), 5), ONE / 2);
    assert_eq!(sample_cascaded(&cs, &maps, &p, &n, 11, narrow(), 5), 400_000);
}

// Two cascades over the depths 0 to 100 and 100 to 200 under a light
// straight down. The map of the first is empty; in the map of the second
// an occluder covers everything.
fn two_cascades() -> (Vec<Cascade>, Vec<DepthMap>) {
    let bounds = Aabb::new(v(-10, 0, -10), v(10, 4, 10)).unwrap();
    let transform = directional_transform(&v(0, -1, 0), &bounds).unwrap();
    let cascades = vec![
        Cascade { split: Split { near: 0, far: 100 }, bounds, transform },
        Cascade { split: Split { near: 100, far: 200 }, bounds, transform },
    ];
    let first = DepthMap::new(20, 20).unwrap();
    let mut second = DepthMap::new(20, 20).unwrap();
    let mut roof = Vec::new();
    for x in -10..=10 {
        for z in -10..=10 {
            roof.push(v(x, 4, z));
        }
    }
    render_ortho(&mut second, &transform, &roof);
    (cascades, vec![first, second])
}

fn narrow() -> Filter {
    Filter { radius: 1, bias: BiasRange { min: 5_000, max: 50_000 } }
}

#[test]
fn the_first_cascade_beyond_the_depth_is_selected() {
    let (cs, _) = two_cascades();
    assert_eq!(select_cascade(&cs, 0), Some(0));
    assert_eq!(select_cascade(&cs, 99), Some(0));
    assert_eq!(select_cascade(&cs, 100), Some(1));
    assert_eq!(select_cascade(&cs, 199), Some(1));
    assert_eq!(select_cascade(&cs, 200), None);
    assert_eq!(select_cascade(&cs, u64::MAX), None);
    assert_eq!(select_cascade(&vec![], 0), None);
}

#[test]
fn the_blend_depends_on_the_distance_to_the_cut() {
    let (cs, _) = two_cascades();
    let blend = |depth| cascade_blend(&cs, depth, 10).unwrap();
    assert_eq!(blend(50), CascadeBlend { primary: 0, secondary: 0, weight: 0 });
    assert_eq!(blend(89), CascadeBlend { primary: 0, secondary: 0, weight: 0 });
    assert_eq!(blend(90), CascadeBlend { primary: 0, secondary: 1, weight: 0 });
    assert_eq!(blend(95), CascadeBlend { primary: 0, secondary: 1, weight: 250_000 });
    assert_eq!(blend(99), CascadeBlend { primary: 0, secondary: 1, weight: 450_000 });
    assert_eq!(blend(100), CascadeBlend { primary: 1, secondary: 0, weight: 500_000 });
    assert_eq!(blend(105), CascadeBlend { primary: 1, secondary: 0, weight: 250_000 });
    assert_eq!(blend(109), CascadeBlend { primary: 1, secondary: 0, weight: 50_000 });
    assert_eq!(blend(110), CascadeBlend { primary: 1, secondary: 1, weight: 0 });
    assert_eq!(blend(199), CascadeBlend { primary: 1, secondary: 1, weight: 0 });
    assert_eq!(blend(0), CascadeBlend { primary: 0, secondary: 0, weight: 0 });
    assert_eq!(cascade_blend(&cs, 200, 10), None);
    assert_eq!(
        cascade_blend(&cs, 100, 0),
        Some(CascadeBlend { primary: 1, secondary: 1, weight: 0 })
    );
}

#[test]
fn a_fragment_on_the_cut_gets_a_mix_of_both_cascades() {
    let (cs, maps) = two_cascades();
    let p = v(0, 0, 0);
    let n = v(0, 1, 0);
    let first = sample_directional(&maps[0], &cs[0].transform, &p, &n, narrow());
    let second = sample_directional(&maps[1], &cs[1].transform, &p, &n, narrow());
    assert_eq!((first, second), (ONE, 0));
    let on_cut = sample_cascaded(&cs, &maps, &p, &n, 100, narrow(), 10);
    assert!(second <= on_cut && on_cut <= first);
    assert_eq!(on_cut, ONE / 2);
    assert_eq!(on_cut, blend_factors(second, first, ONE / 2));
}

#[test]
fn there_is_no_seam_between_two_cascades() {
    let (cs, maps) = two_cascades();
    let p = v(0, 0, 0);
    let n = v(0, 1, 0);
    let at = |depth| sample_cascaded(&cs, &maps, &p, &n, depth, narrow(), 10);
    assert_eq!(at(50), ONE);
    assert_eq!(at(90), ONE);
    assert_eq!(at(95), 750_000);
    assert_eq!(at(99), 550_000);
    assert_eq!(at(100), 500_000);
    assert_eq!(at(105), 250_000);
    assert_eq!(at(109), 50_000);
    assert_eq!(at(110), 0);
    assert_eq!(at(150), 0);
    let mut last = at(85);
    for depth in 86..=115 {
        let f = at(depth);
        assert!(f <= last);
        assert!(last - f <= ONE / 20);
        last = f;
    }
}

#[test]
fn without_a_zone_the_cascades_meet_hard() {
    let (cs, maps) = two_cascades();
    let p = v(0, 0, 0);
    let n = v(0, 1, 0);
    assert_eq!(sample_cascaded(&cs, &maps, &p, &n, 99, narrow(), 0), ONE);
    assert_eq!(sample_cascaded(&cs, &maps, &p, &n, 100, narrow(), 0), 0);
}

#[test]
fn beyond_all_cascades_a_fragment_is_unshadowed() {
    let (cs, maps) = two_cascades();
    let p = v(0, 0, 0);
    let n = v(0, 1, 0);
    assert_eq!(sample_cascaded(&cs, &maps, &p, &n, 200, narrow(), 10), ONE);
    assert_eq!(sample_cascaded(&cs, &maps, &p, &n, u64::MAX, narrow(), 10), ONE);
    assert_eq!(sample_cascaded(&vec![], &vec![], &p, &n, 5, narrow(), 10), ONE);
}

#[test]
fn blended_factors_lie_between_the_two() {
    assert_eq!(blend_factors(ONE, 0, 0), ONE);
    assert_eq!(blend_factors(ONE, 0, ONE / 2), ONE / 2);
    assert_eq!(blend_factors(0, ONE, ONE / 4), ONE / 4);
    assert_eq!(blend_factors(300_000, 300_000, 123_456), 300_000);
    for a in [0, 1, 333_333, ONE] {
        for b in [0, 2, 666_666, ONE] {
            for w in [0, 1, ONE / 3, ONE / 2] {
                let f = blend_factors(a, b, w);
                assert!(a.min(b) <= f && f <= a.max(b));
            }
        }
    }
}

fn moved(f: &Frustum, d: Vec3) -> Frustum {
    let shift = |c: [Vec3; 4]| [c[0].plus(&d), c[1].plus(&d), c[2].plus(&d), c[3].plus(&d)];
    Frustum { near: f.near, far: f.far, near_corners: shift(f.near_corners), far_corners: shift(f.far_corners) }
}

// A quarter turn about the y axis.
fn turned(f: &Frustum) -> Frustum {
    let turn = |c: [Vec3; 4]| {
        [v(c[0].z, c[0].y, -c[0].x), v(c[1].z, c[1].y, -c[1].x), v(c[2].z, c[2].y, -c[2].x), v(c[3].z, c[3].y, -c[3].x)]
    };
    Frustum { near: f.near, far: f.far, near_corners: turn(f.near_corners), far_corners: turn(f.far_corners) }
}

#[test]
fn a_moved_camera_keeps_the_size_of_its_sphere() {
    let s = Split { near: 10, far: 60 };
    let before = camera().slice_sphere(&s);
    assert_eq!(before, Aabb { min: v(-26, -26, -61), max: v(26, 26, -9) });
    for d in [v(100, -7, 3), v(-1, 0, 0), v(0, 0, 0), v(12_345, 678, -90_123)] {
        let after = moved(&camera(), d).slice_sphere(&s);
        assert_eq!(after, Aabb { min: before.min.plus(&d), max: before.max.plus(&d) });
        let tight = moved(&camera(), d).slice_bounds(&s);
        let was = camera().slice_bounds(&s);
        assert_eq!(tight, Aabb { min: was.min.plus(&d), max: was.max.plus(&d) });
    }
}

#[test]
fn a_turned_camera_keeps_the_size_of_its_sphere() {
    let s = Split { near: 10, far: 60 };
    let before = camera().slice_sphere(&s);
    let after = turned(&camera()).slice_sphere(&s);
    assert_eq!(after, Aabb { min: v(-61, -26, -26), max: v(-9, 26, 26) });
    assert_eq!(after.max.x - after.min.x, before.max.x - before.min.x);
    // The tight box changes its shape with the turn; the cube does not.
    assert_eq!(camera().slice_bounds(&s), Aabb { min: v(-6, -6, -60), max: v(6, 6, -10) });
    assert_eq!(turned(&camera()).slice_bounds(&s), Aabb { min: v(-60, -6, -6), max: v(-10, 6, 6) });
}

#[test]
fn snapped_cascades_of_a_moved_camera_differ_by_whole_texels() {
    let light = v(0, -1, 0);
    let at = |f: &Frustum| fit_snapped_cascades(f, &light, 2, SplitScheme::Uniform, FitMode::Sphere, 16).unwrap();
    let here = at(&camera());
    let t = here[0].transform;
    assert_eq!((t.left, t.right, t.bottom, t.top), (-28, 28, -64, -8));
    assert_eq!((t.near, t.far), (-26, 26));
    assert_eq!(here[0].bounds, Aabb { min: v(-26, -26, -61), max: v(26, 26, -9) });
    for d in [v(100, -7, 3), v(1, 1, 1), v(-333, 0, 77)] {
        let there = at(&moved(&camera(), d));
        for (a, b) in here.iter().zip(&there) {
            assert_eq!(a.split, b.split);
            let (p, q) = (a.transform, b.transform);
            // The boxes have one size before they are snapped, and so one
            // size of texel; snapped, they lie whole texels apart.
            let step = 4;
            assert_eq!((q.left - p.left) % step, 0);
            assert_eq!((q.right - p.right) % step, 0);
            assert_eq!((q.bottom - p.bottom) % step, 0);
            assert_eq!((q.top - p.top) % step, 0);
            for c in 0..8 {
                assert!(inside(b, &b.bounds.corner(c)));
            }
        }
    }
    let there = at(&moved(&camera(), v(100, -7, 3)));
    let q = there[0].transform;
    assert_eq!((q.left, q.right, q.bottom, q.top), (-128, -72, -60, -4));
}

#[test]
fn snapped_cascades_are_rejected_as_cascades_are() {
    let f = camera();
    assert_eq!(
        fit_snapped_cascades(&f, &v(0, 0, 0), 2, SplitScheme::Uniform, FitMode::Box, 16),
        Err(ShadowError::InvalidLightState)
    );
    assert_eq!(
        fit_snapped_cascades(&f, &v(0, -1, 0), 0, SplitScheme::Uniform, FitMode::Box, 16),
        Err(ShadowError::DegenerateFrustum)
    );
}
