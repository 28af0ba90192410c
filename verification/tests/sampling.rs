use shadow_mapping::bounds::Aabb;
use shadow_mapping::cube::point_transform;
use shadow_mapping::cube::CubeFace;
use shadow_mapping::depth_map::DepthCube;
use shadow_mapping::depth_map::DepthMap;
use shadow_mapping::depth_map::MAX_RESOLUTION;
use shadow_mapping::depth_pass::render_cube;
use shadow_mapping::depth_pass::render_cube_amplified;
use shadow_mapping::depth_pass::render_cube_six_passes;
use shadow_mapping::depth_pass::render_ortho;
use shadow_mapping::depth_pass::CubeStrategy;
use shadow_mapping::error::ShadowError;
use shadow_mapping::project::cell_of;
use shadow_mapping::project::cube_texel;
use shadow_mapping::project::distance;
use shadow_mapping::project::ortho_texel;
use shadow_mapping::project::ratio_of;
use shadow_mapping::project::restore_distance;
use shadow_mapping::project::store_distance;
use shadow_mapping::project::Texel;
use shadow_mapping::sampler::cosine;
use shadow_mapping::sampler::disk_offset;
use shadow_mapping::sampler::disk_radius;
use shadow_mapping::sampler::pcf;
use shadow_mapping::sampler::sample_directional;
use shadow_mapping::sampler::sample_point;
use shadow_mapping::sampler::slope_bias;
use shadow_mapping::sampler::BiasRange;
use shadow_mapping::sampler::Filter;
use shadow_mapping::sampler::DISK_SAMPLES;
use shadow_mapping::scalar::ONE;
use shadow_mapping::transform::directional_transform;
use shadow_mapping::transform::OrthoTransform;
use shadow_mapping::vector::Vec3;
use shadow_mapping::vector::COORD_MAX;
use shadow_mapping::vector::DIR_MAX;

fn v(x: i64, y: i64, z: i64) -> Vec3 {
    Vec3::new(x, y, z)
}

const BIAS: BiasRange = BiasRange { min: 5_000, max: 50_000 };

fn soft() -> Filter {
    Filter { radius: 1, bias: BIAS }
}

// A light straight down on a scene of 20 by 20 with a height of 4: one
// texel of a map of 20 by 20 is one unit of the world.
fn sun() -> OrthoTransform {
    let scene = Aabb::new(v(-10, 0, -10), v(10, 4, 10)).unwrap();
    directional_transform(&v(0, -1, 0), &scene).unwrap()
}

// A plate of 5 by 5 at a height of 2 above the middle of the floor.
fn plate() -> Vec<Vec3> {
    let mut points = Vec::new();
    for x in -2..=2 {
        for z in -2..=2 {
            points.push(v(x, 2, z));
        }
    }
    points
}

fn sun_map() -> DepthMap {
    let mut m = DepthMap::new(20, 20).unwrap();
    render_ortho(&mut m, &sun(), &plate());
    m
}

#[test]
fn bias_follows_the_slope() {
    assert_eq!(slope_bias(BIAS, ONE as i64), 5_000);
    assert_eq!(slope_bias(BIAS, 0), 50_000);
    assert_eq!(slope_bias(BIAS, (ONE / 2) as i64), 25_000);
    assert_eq!(slope_bias(BIAS, 950_000), 5_000);
    assert_eq!(slope_bias(BIAS, 800_000), 10_000);
    assert_eq!(slope_bias(BIAS, -(ONE as i64)), 100_000);
    assert_eq!(slope_bias(BIAS, i64::MAX), 5_000);
    assert_eq!(slope_bias(BIAS, i64::MIN), 100_000);
    assert_eq!(slope_bias(BiasRange { min: 7, max: 0 }, 0), 7);
    assert_eq!(slope_bias(BiasRange { min: 0, max: 3 }, 500_000), 1);
    assert_eq!(slope_bias(BiasRange { min: u32::MAX, max: u32::MAX }, -2_000_000), 2 * u32::MAX as u64);
}

#[test]
fn bias_does_not_shrink_as_the_angle_grows() {
    let mut last = slope_bias(BIAS, ONE as i64);
    let mut cos = ONE as i64;
    while cos >= 0 {
        let bias = slope_bias(BIAS, cos);
        assert!(bias >= last);
        assert!(bias >= 5_000 && bias <= 50_000);
        last = bias;
        cos -= 1_000;
    }
    assert_eq!(last, 50_000);
}

#[test]
fn cosine_of_the_angle_between_two_vectors() {
    assert_eq!(cosine(&v(0, 7, 0), &v(0, 3, 0)), ONE as i64);
    assert_eq!(cosine(&v(0, 7, 0), &v(0, -3, 0)), -(ONE as i64));
    assert_eq!(cosine(&v(0, 7, 0), &v(5, 0, -5)), 0);
    assert_eq!(cosine(&v(0, 0, 0), &v(5, 0, -5)), 0);
    assert_eq!(cosine(&v(1000, 1000, 0), &v(1000, 0, 0)), 707_106);
    assert_eq!(cosine(&v(1000, 1000, 0), &v(-1000, 0, 0)), -707_106);
    assert_eq!(cosine(&v(1, 1, 0), &v(1, 0, 0)), 707_106);
    assert_eq!(cosine(&v(1000, 0, 0), &v(500, 866, 0)), 500_011);
    assert_eq!(cosine(&v(3, 4, 0), &v(4, 3, 0)), 960_000);
    assert_eq!(cosine(&v(DIR_MAX, DIR_MAX, DIR_MAX), &v(DIR_MAX, DIR_MAX, DIR_MAX)), ONE as i64);
}

#[test]
fn a_new_map_is_cleared_to_the_far_plane() {
    let m = DepthMap::new(3, 2).unwrap();
    assert_eq!((m.width, m.height), (3, 2));
    assert_eq!(m.texels, vec![ONE; 6]);
    let c = DepthCube::new(4).unwrap();
    assert_eq!(c.size, 4);
    assert_eq!(c.faces.len(), 6);
    for face in &c.faces {
        assert_eq!((face.width, face.height), (4, 4));
        assert_eq!(face.texels, vec![ONE; 16]);
    }
}

#[test]
fn a_map_without_size_cannot_be_allocated() {
    assert_eq!(DepthMap::new(0, 4).unwrap_err(), ShadowError::ResourceAllocationFailure);
    assert_eq!(DepthMap::new(4, 0).unwrap_err(), ShadowError::ResourceAllocationFailure);
    assert_eq!(
        DepthMap::new(MAX_RESOLUTION + 1, 1).unwrap_err(),
        ShadowError::ResourceAllocationFailure
    );
    assert_eq!(
        DepthMap::new(1, MAX_RESOLUTION + 1).unwrap_err(),
        ShadowError::ResourceAllocationFailure
    );
    assert_eq!(DepthCube::new(0).unwrap_err(), ShadowError::ResourceAllocationFailure);
    assert_eq!(
        DepthCube::new(MAX_RESOLUTION + 1).unwrap_err(),
        ShadowError::ResourceAllocationFailure
    );
    assert!(DepthMap::new(MAX_RESOLUTION, 1).is_ok());
}

#[test]
fn the_depth_test_keeps_the_nearer_depth() {
    let mut m = DepthMap::new(3, 2).unwrap();
    m.store(1, 1, 700_000);
    assert_eq!(m.get(1, 1), 700_000);
    m.store(1, 1, 800_000);
    assert_eq!(m.get(1, 1), 700_000);
    m.store(1, 1, 100_000);
    assert_eq!(m.get(1, 1), 100_000);
    assert_eq!(m.texels, vec![ONE, ONE, ONE, ONE, 100_000, ONE]);
    assert_eq!(m.fetch(1, 1), 100_000);
    assert_eq!(m.fetch(-1, 1), ONE);
    assert_eq!(m.fetch(1, -1), ONE);
    assert_eq!(m.fetch(3, 1), ONE);
    assert_eq!(m.fetch(1, 2), ONE);
    assert_eq!(m.fetch(i64::MIN, i64::MAX), ONE);
    m.clear();
    assert_eq!(m.texels, vec![ONE; 6]);
}

#[test]
fn a_cube_stores_by_face() {
    let mut c = DepthCube::new(2).unwrap();
    c.store(CubeFace::NegativeY, 1, 0, 5);
    c.store(CubeFace::NegativeY, 1, 0, 9);
    assert_eq!(c.get(CubeFace::NegativeY, 1, 0), 5);
    assert_eq!(c.get(CubeFace::PositiveY, 1, 0), ONE);
    assert_eq!(c.faces[3].texels, vec![ONE, 5, ONE, ONE]);
    c.clear();
    assert_eq!(c.get(CubeFace::NegativeY, 1, 0), ONE);
}

#[test]
fn ratios_and_cells() {
    assert_eq!(ratio_of(0, 0, 10, 100), 0);
    assert_eq!(ratio_of(5, 0, 10, 100), 50);
    assert_eq!(ratio_of(10, 0, 10, 100), 100);
    assert_eq!(ratio_of(-2, -4, 0, ONE), 500_000);
    assert_eq!(ratio_of(1, 0, 3, 10), 3);
    assert_eq!(ratio_of(7, 7, 7, 10), 0);
    assert_eq!(cell_of(0, 0, 10, 4), 0);
    assert_eq!(cell_of(9, 0, 10, 4), 3);
    assert_eq!(cell_of(10, 0, 10, 4), 3);
    assert_eq!(cell_of(5, 0, 10, 4), 2);
    assert_eq!(cell_of(-5, -5, 5, 4), 0);
}

#[test]
fn projection_on_the_map_of_a_directional_light() {
    let t = sun();
    assert_eq!((t.side, t.up, t.forward), (v(-1, 0, 0), v(0, 0, 1), v(0, -1, 0)));
    assert_eq!((t.left, t.right, t.bottom, t.top, t.near, t.far), (-10, 10, -10, 10, -4, 0));
    assert_eq!(ortho_texel(&t, &v(0, 0, 0), 20, 20), Some(Texel { x: 10, y: 10, depth: ONE }));
    assert_eq!(ortho_texel(&t, &v(0, 2, 0), 20, 20), Some(Texel { x: 10, y: 10, depth: ONE / 2 }));
    assert_eq!(ortho_texel(&t, &v(0, 4, 0), 20, 20), Some(Texel { x: 10, y: 10, depth: 0 }));
    assert_eq!(ortho_texel(&t, &v(10, 1, -10), 20, 20), Some(Texel { x: 0, y: 0, depth: 750_000 }));
    assert_eq!(ortho_texel(&t, &v(-10, 1, 10), 20, 20), Some(Texel { x: 19, y: 19, depth: 750_000 }));
    assert_eq!(ortho_texel(&t, &v(11, 0, 0), 20, 20), None);
    assert_eq!(ortho_texel(&t, &v(0, 0, -11), 20, 20), None);
    assert_eq!(ortho_texel(&t, &v(0, 5, 0), 20, 20), None);
    assert_eq!(ortho_texel(&t, &v(0, -1, 0), 20, 20), None);
}

#[test]
fn occluders_leave_their_depth_in_the_map() {
    let m = sun_map();
    for y in 0..20 {
        for x in 0..20 {
            let under_plate = (8..=12).contains(&x) && (8..=12).contains(&y);
            assert_eq!(m.get(x, y), if under_plate { ONE / 2 } else { ONE });
        }
    }
}

#[test]
fn occluders_outside_the_box_leave_nothing() {
    let mut m = DepthMap::new(20, 20).unwrap();
    render_ortho(&mut m, &sun(), &vec![v(50, 2, 0), v(0, 9, 0), v(COORD_MAX + 1, 2, 0)]);
    assert_eq!(m.texels, vec![ONE; 400]);
}

#[test]
fn the_nearest_occluder_wins() {
    let mut m = DepthMap::new(20, 20).unwrap();
    render_ortho(&mut m, &sun(), &vec![v(0, 1, 0), v(0, 3, 0), v(0, 2, 0)]);
    assert_eq!(m.get(10, 10), 250_000);
}

#[test]
fn filtering_counts_the_texels_that_light_the_fragment() {
    let mut m = DepthMap::new(3, 3).unwrap();
    m.store(1, 1, 100_000);
    assert_eq!(pcf(&m, 1, 1, 1, 500_000, 0), 888_888);
    assert_eq!(pcf(&m, 0, 0, 1, 500_000, 0), 888_888);
    assert_eq!(pcf(&m, 1, 1, 0, 500_000, 0), 0);
    assert_eq!(pcf(&m, 0, 1, 0, 500_000, 0), ONE);
    assert_eq!(pcf(&m, 1, 1, 0, 100_000, 0), ONE);
    assert_eq!(pcf(&m, 1, 1, 0, 100_001, 0), 0);
    assert_eq!(pcf(&m, 1, 1, 0, 100_001, 1), ONE);
    assert_eq!(pcf(&m, 1, 1, 2, 500_000, 0), 960_000);
    assert_eq!(pcf(&m, 1, 1, 0, 500_000, u64::MAX), ONE);
}

#[test]
fn shadow_factor_is_bounded() {
    let m = sun_map();
    for radius in [0u8, 1, 2, 5, 255] {
        for depth in [0, 1, 499_999, 500_000, 500_001, ONE, 2 * ONE, u64::MAX] {
            for bias in [0, 1, 5_000, u64::MAX] {
                for (x, y) in [(0, 0), (10, 10), (8, 12), (19, 19), (7, 10)] {
                    assert!(pcf(&m, x, y, radius, depth, bias) <= ONE);
                }
            }
        }
    }
}

#[test]
fn a_fragment_below_the_caster_is_shadowed_and_one_beside_it_is_lit() {
    let m = sun_map();
    let up = v(0, 1, 0);
    assert_eq!(sample_directional(&m, &sun(), &v(0, 0, 0), &up, soft()), 0);
    assert_eq!(sample_directional(&m, &sun(), &v(5, 0, 5), &up, soft()), ONE);
    assert_eq!(sample_directional(&m, &sun(), &v(3, 0, 0), &up, soft()), 666_666);
    assert_eq!(sample_directional(&m, &sun(), &v(3, 0, 3), &up, soft()), 888_888);
    assert_eq!(sample_directional(&m, &sun(), &v(-4, 0, 0), &up, soft()), ONE);
}

#[test]
fn a_caster_does_not_shadow_itself() {
    let m = sun_map();
    let up = v(0, 1, 0);
    assert_eq!(sample_directional(&m, &sun(), &v(0, 2, 0), &up, soft()), ONE);
    assert_eq!(sample_directional(&m, &sun(), &v(2, 2, -2), &up, soft()), ONE);
    let none = Filter { radius: 1, bias: BiasRange { min: 0, max: 0 } };
    assert_eq!(sample_directional(&m, &sun(), &v(0, 2, 0), &up, none), ONE);
}

#[test]
fn the_map_is_always_filtered() {
    let m = sun_map();
    let up = v(0, 1, 0);
    let none = Filter { radius: 0, bias: BIAS };
    for p in [v(0, 0, 0), v(3, 0, 0), v(3, 0, 3), v(5, 0, 5)] {
        assert_eq!(
            sample_directional(&m, &sun(), &p, &up, none),
            sample_directional(&m, &sun(), &p, &up, soft())
        );
    }
    assert_eq!(sample_directional(&m, &sun(), &v(3, 0, 0), &up, none), 666_666);
    let wide = Filter { radius: 2, bias: BIAS };
    assert_eq!(sample_directional(&m, &sun(), &v(3, 0, 0), &up, wide), 600_000);
}

#[test]
fn a_scene_without_occluders_is_unshadowed() {
    let m = DepthMap::new(20, 20).unwrap();
    let up = v(0, 1, 0);
    for p in [v(0, 0, 0), v(10, 0, -10), v(-3, 4, 7), v(0, 2, 0)] {
        for radius in [0u8, 1, 3, 255] {
            let f = Filter { radius, bias: BiasRange { min: 0, max: 0 } };
            assert_eq!(sample_directional(&m, &sun(), &p, &up, f), ONE);
        }
    }
    let t = point_transform(&v(0, 0, 0), 25_000).unwrap();
    let cube = DepthCube::new(16).unwrap();
    for p in [v(0, 3_000, 0), v(1, 0, 0), v(-25_000, 0, 0), v(700, -800, 900)] {
        for radius in [0u32, 40, 10_000, u32::MAX] {
            assert_eq!(sample_point(&cube, &t, &p, 0, radius), ONE);
        }
    }
}

#[test]
fn a_fragment_outside_the_map_is_unshadowed() {
    let m = sun_map();
    let up = v(0, 1, 0);
    assert_eq!(sample_directional(&m, &sun(), &v(50, 0, 0), &up, soft()), ONE);
    assert_eq!(sample_directional(&m, &sun(), &v(0, -1, 0), &up, soft()), ONE);
    assert_eq!(sample_directional(&m, &sun(), &v(0, 5, 0), &up, soft()), ONE);
    assert_eq!(sample_directional(&m, &sun(), &v(COORD_MAX + 1, 0, 0), &up, soft()), ONE);
    assert_eq!(sample_directional(&m, &sun(), &v(0, 0, 0), &v(0, DIR_MAX + 1, 0), soft()), ONE);
}

#[test]
fn a_grazing_surface_gets_more_bias() {
    // An occluder just before the fragment: the least bias leaves the
    // fragment in shadow, the bias of a steep surface lifts it out.
    let mut m = DepthMap::new(20, 20).unwrap();
    let t = sun();
    let scene_top = v(0, 4, 0);
    render_ortho(&mut m, &t, &vec![scene_top]);
    assert_eq!(m.get(10, 10), 0);
    let wide = Filter { radius: 1, bias: BiasRange { min: 5_000, max: 1_000_000 } };
    let fragment = v(0, 2, 0);
    // One texel of the nine is in the way while the bias is small.
    assert_eq!(sample_directional(&m, &t, &fragment, &v(0, 1, 0), wide), 888_888);
    assert_eq!(sample_directional(&m, &t, &fragment, &v(1000, 1000, 0), wide), 888_888);
    assert_eq!(sample_directional(&m, &t, &fragment, &v(866, 500, 0), wide), 888_888);
    assert_eq!(sample_directional(&m, &t, &fragment, &v(2000, 1000, 0), wide), ONE);
    assert_eq!(sample_directional(&m, &t, &fragment, &v(1000, 0, 0), wide), ONE);
    assert_eq!(sample_directional(&m, &t, &fragment, &v(0, -1, 0), wide), ONE);
}

#[test]
fn distances_round_down() {
    assert_eq!(distance(&v(3, 4, 0)), 5);
    assert_eq!(distance(&v(1, 1, 1)), 1);
    assert_eq!(distance(&v(0, 0, 0)), 0);
    assert_eq!(distance(&v(-500, 1000, 500)), 1224);
    assert_eq!(distance(&v(2 * COORD_MAX, 2 * COORD_MAX, 2 * COORD_MAX)), 1_859_775_393);
}

#[test]
fn a_distance_is_stored_as_a_part_of_the_far_plane() {
    assert_eq!(store_distance(1_000, 25_000), 40_000);
    assert_eq!(restore_distance(40_000, 25_000), 1_000);
    assert_eq!(store_distance(25_000, 25_000), ONE);
    assert_eq!(restore_distance(ONE, 25_000), 25_000);
    assert_eq!(store_distance(0, 25_000), 0);
    assert_eq!(store_distance(1, 30_000), 33);
    assert_eq!(restore_distance(33, 30_000), 0);
    for far in [2i64, 3, 999, 25_000, 30_000, 1_000_001, COORD_MAX] {
        for dist in [0u64, 1, 2, 500, 24_999] {
            if dist as i64 <= far {
                let back = restore_distance(store_distance(dist, far), far);
                assert!(back <= dist);
                assert!(dist - back <= far as u64 / ONE + 1);
            }
        }
    }
}

#[test]
fn a_direction_pierces_a_texel_of_its_face() {
    assert_eq!(cube_texel(&v(5, 0, 0), 4), (CubeFace::PositiveX, 2, 2));
    assert_eq!(cube_texel(&v(5, 5, 5), 4), (CubeFace::PositiveX, 0, 0));
    assert_eq!(cube_texel(&v(5, -5, -5), 4), (CubeFace::PositiveX, 3, 3));
    assert_eq!(cube_texel(&v(0, 1000, 0), 64), (CubeFace::PositiveY, 32, 32));
    assert_eq!(cube_texel(&v(-500, 1000, 0), 64), (CubeFace::PositiveY, 16, 32));
    assert_eq!(cube_texel(&v(0, -1000, 500), 64), (CubeFace::NegativeY, 32, 16));
    assert_eq!(cube_texel(&v(1, 0, -7), 8), (CubeFace::NegativeZ, 3, 4));
}

#[test]
fn the_directions_of_sampling_are_twenty_and_distinct() {
    assert_eq!(DISK_SAMPLES, 20);
    let all: Vec<Vec3> = (0..DISK_SAMPLES).map(disk_offset).collect();
    for (i, a) in all.iter().enumerate() {
        assert!(a.within(1) && !a.is_zero());
        assert!(a.dot(a) >= 2);
        for b in &all[..i] {
            assert_ne!(a, b);
        }
    }
    assert_eq!(all[0], v(1, 1, 1));
    assert_eq!(all[8], v(1, 1, 0));
    assert_eq!(all[19], v(0, 1, -1));
}

#[test]
fn radius_of_sampling_grows_with_the_view_distance() {
    assert_eq!(disk_radius(0, 25_000, 1_000), 40);
    assert_eq!(disk_radius(12_500, 25_000, 1_000), 60);
    assert_eq!(disk_radius(25_000, 25_000, 1_000), 80);
    assert_eq!(disk_radius(u64::MAX, 25_000, 1_000), 80);
    assert_eq!(disk_radius(3_000, 25_000, 1_000), 44);
    assert_eq!(disk_radius(0, 25_000, 0), 0);
}

// A point light at the origin that reaches 25 units, in thousandths, and
// below a caster of 1 by 1 whose lower side is 1 unit above the light.
fn lamp_scene(strategy: CubeStrategy) -> DepthCube {
    let t = point_transform(&v(0, 0, 0), 25_000).unwrap();
    let mut occluders = Vec::new();
    let mut x = -500;
    while x <= 500 {
        let mut z = -500;
        while z <= 500 {
            occluders.push(v(x, 1_000, z));
            z += 10;
        }
        x += 10;
    }
    let mut cube = DepthCube::new(64).unwrap();
    render_cube(&mut cube, &t, &occluders, strategy);
    cube
}

#[test]
fn point_light_shadows_behind_the_caster_and_lights_elsewhere() {
    let t = point_transform(&v(0, 0, 0), 25_000).unwrap();
    let cube = lamp_scene(CubeStrategy::Amplified);
    let bias = 150;
    let radius = disk_radius(3_000, 25_000, 1_000);
    // Behind the caster, as seen from the light.
    let behind = sample_point(&cube, &t, &v(0, 3_000, 0), bias, radius);
    assert!(behind < ONE / 2);
    assert_eq!(behind, 0);
    // Outside the footprint of the caster, at the same height.
    let beside = sample_point(&cube, &t, &v(2_900, 3_000, 0), bias, radius);
    assert!(beside >= ONE / 10 * 9);
    assert_eq!(beside, ONE);
    // On the floor half a unit below the light: the caster stands on the
    // other side of the light and casts nothing there.
    let floor = sample_point(&cube, &t, &v(0, -500, 0), bias, radius);
    assert!(floor >= ONE / 10 * 9);
    assert_eq!(floor, ONE);
}

#[test]
fn point_light_shadow_is_soft_at_its_border() {
    let t = point_transform(&v(0, 0, 0), 25_000).unwrap();
    let cube = lamp_scene(CubeStrategy::SixPasses);
    // On the line through the border of the caster.
    let f = sample_point(&cube, &t, &v(1_600, 3_000, 0), 150, 60);
    assert!(0 < f && f < ONE);
    assert_eq!(f % (ONE / 20), 0);
}

#[test]
fn point_light_does_not_shadow_the_caster_itself() {
    let t = point_transform(&v(0, 0, 0), 25_000).unwrap();
    let cube = lamp_scene(CubeStrategy::Amplified);
    assert_eq!(sample_point(&cube, &t, &v(0, 1_000, 0), 26, 0), ONE);
    assert_eq!(sample_point(&cube, &t, &v(300, 1_000, -200), 26, 0), ONE);
}

#[test]
fn point_light_leaves_what_it_cannot_reach_unshadowed() {
    let t = point_transform(&v(0, 0, 0), 25_000).unwrap();
    let cube = lamp_scene(CubeStrategy::Amplified);
    assert_eq!(sample_point(&cube, &t, &v(0, 25_001, 0), 0, 0), ONE);
    assert_eq!(sample_point(&cube, &t, &v(0, 0, 0), 0, 0), ONE);
    assert_eq!(sample_point(&cube, &t, &v(0, COORD_MAX + 1, 0), 0, 0), ONE);
    assert_eq!(sample_point(&cube, &t, &v(0, 25_000, 0), 0, 0), 0);
}

#[test]
fn six_passes_and_one_amplified_pass_leave_the_same_cube() {
    let six = lamp_scene(CubeStrategy::SixPasses);
    let amplified = lamp_scene(CubeStrategy::Amplified);
    assert_eq!(six.size, amplified.size);
    for f in 0..6 {
        assert_eq!(six.faces[f].texels, amplified.faces[f].texels);
    }
    assert!(six.faces[2].texels.iter().any(|d| *d < ONE));
    assert!(six.faces[3].texels.iter().all(|d| *d == ONE));

    let t = point_transform(&v(7, -3, 2), 400).unwrap();
    let mut points = Vec::new();
    for i in 0..500i64 {
        points.push(v((i * 37) % 211 - 100, (i * 91) % 197 - 100, (i * 53) % 223 - 100));
    }
    points.push(v(7, -3, 2));
    points.push(v(COORD_MAX, COORD_MAX, COORD_MAX + 1));
    let mut a = DepthCube::new(16).unwrap();
    let mut b = DepthCube::new(16).unwrap();
    render_cube_six_passes(&mut a, &t, &points);
    render_cube_amplified(&mut b, &t, &points);
    for f in 0..6 {
        assert_eq!(a.faces[f].texels, b.faces[f].texels);
        assert!(a.faces[f].texels.iter().any(|d| *d < ONE));
    }
}

#[test]
fn the_cube_holds_the_distance_to_the_nearest_occluder() {
    let t = point_transform(&v(0, 0, 0), 25_000).unwrap();
    let mut cube = DepthCube::new(64).unwrap();
    let occluders = vec![v(0, 2_000, 0), v(0, 1_000, 0), v(0, 1_500, 0), v(0, 30_000, 0)];
    render_cube(&mut cube, &t, &occluders, CubeStrategy::SixPasses);
    assert_eq!(cube.get(CubeFace::PositiveY, 32, 32), 40_000);
    let lit = cube.faces.iter().map(|f| f.texels.iter().filter(|d| **d < ONE).count()).sum::<usize>();
    assert_eq!(lit, 1);
}
