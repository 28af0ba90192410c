use shadow_mapping::bounds::Aabb;
use shadow_mapping::cube::point_transform;
use shadow_mapping::depth_map::DepthCube;
use shadow_mapping::depth_map::DepthMap;
use shadow_mapping::depth_pass::render_cube;
use shadow_mapping::depth_pass::render_ortho;
use shadow_mapping::depth_pass::CubeStrategy;
use shadow_mapping::error::ShadowError;
use shadow_mapping::light::Light;
use shadow_mapping::query::shadow_factor;
use shadow_mapping::query::to_direction;
use shadow_mapping::query::ShadowMap;
use shadow_mapping::sampler::cosine;
use shadow_mapping::sampler::sample_directional;
use shadow_mapping::sampler::sample_point;
use shadow_mapping::sampler::slope_bias;
use shadow_mapping::sampler::BiasRange;
use shadow_mapping::sampler::Filter;
use shadow_mapping::scalar::ONE;
use shadow_mapping::transform::light_transform;
use shadow_mapping::transform::LightTransform;
use shadow_mapping::vector::Vec3;
use shadow_mapping::vector::COORD_MAX;
use shadow_mapping::vector::DIR_MAX;

fn v(x: i64, y: i64, z: i64) -> Vec3 {
    Vec3::new(x, y, z)
}

fn scene() -> Aabb {
    Aabb::new(v(-10, 0, -10), v(10, 4, 10)).unwrap()
}

fn filter() -> Filter {
    Filter { radius: 1, bias: BiasRange { min: 5_000, max: 50_000 } }
}

fn sun_map(t: &LightTransform) -> ShadowMap {
    let mut m = DepthMap::new(20, 20).unwrap();
    let mut plate = Vec::new();
    for x in -2..=2 {
        for z in -2..=2 {
            plate.push(v(x, 2, z));
        }
    }
    match t {
        LightTransform::Directional(o) => render_ortho(&mut m, o, &plate),
        LightTransform::Point(_) => panic!("the sun is a directional light"),
    }
    ShadowMap::Flat(m)
}

#[test]
fn a_vector_is_brought_into_the_range_of_directions() {
    assert_eq!(to_direction(&v(0, 0, 0)), v(0, 0, 0));
    assert_eq!(to_direction(&v(1, 0, 0)), v(DIR_MAX, 0, 0));
    assert_eq!(to_direction(&v(0, -7, 0)), v(0, -DIR_MAX, 0));
    assert_eq!(to_direction(&v(2, -4, 1)), v(16_384, -32_768, 8_192));
    assert_eq!(to_direction(&v(3, -3, 1)), v(32_768, -32_768, 10_922));
    assert_eq!(to_direction(&v(-1, -3, 3)), v(-10_922, -32_768, 32_768));
    assert_eq!(
        to_direction(&v(2 * COORD_MAX, -2 * COORD_MAX, COORD_MAX)),
        v(DIR_MAX, -DIR_MAX, DIR_MAX / 2)
    );
}

#[test]
fn a_light_that_is_not_valid_casts_no_shadow() {
    let broken = light_transform(&Light::Directional { direction: v(0, 0, 0) }, &scene());
    assert_eq!(broken, Err(ShadowError::InvalidLightState));
    let good = light_transform(&Light::Directional { direction: v(0, -1, 0) }, &scene());
    let map = sun_map(good.as_ref().unwrap());
    let below = v(0, 0, 0);
    let up = v(0, 1, 0);
    assert_eq!(shadow_factor(&good, &map, &below, &up, filter(), 0), 0);
    assert_eq!(shadow_factor(&broken, &map, &below, &up, filter(), 0), ONE);
    for e in [
        ShadowError::InvalidLightState,
        ShadowError::ResourceAllocationFailure,
        ShadowError::DegenerateFrustum,
    ] {
        assert_eq!(shadow_factor(&Err(e), &map, &below, &up, filter(), 0), ONE);
    }
}

#[test]
fn a_directional_light_is_sampled_through_its_map() {
    let t = light_transform(&Light::Directional { direction: v(0, -1, 0) }, &scene());
    let map = sun_map(t.as_ref().unwrap());
    let (o, m) = match (t.as_ref().unwrap(), &map) {
        (LightTransform::Directional(o), ShadowMap::Flat(m)) => (o, m),
        _ => panic!("the sun has a flat map"),
    };
    let up = v(0, 1, 0);
    for p in [v(0, 0, 0), v(3, 0, 0), v(3, 0, 3), v(5, 0, 5), v(0, 2, 0), v(50, 0, 0)] {
        assert_eq!(
            shadow_factor(&t, &map, &p, &up, filter(), 7),
            sample_directional(m, o, &p, &up, filter())
        );
    }
    assert_eq!(shadow_factor(&t, &map, &v(3, 0, 0), &up, filter(), 0), 666_666);
}

#[test]
fn a_map_of_the_other_kind_casts_no_shadow() {
    let sun = light_transform(&Light::Directional { direction: v(0, -1, 0) }, &scene());
    let lamp = light_transform(&Light::Point { position: v(0, 3, 0), far_plane: 25 }, &scene());
    let flat = sun_map(sun.as_ref().unwrap());
    let cube = ShadowMap::Cube(DepthCube::new(8).unwrap());
    let up = v(0, 1, 0);
    assert_eq!(shadow_factor(&sun, &flat, &v(0, 0, 0), &up, filter(), 0), 0);
    assert_eq!(shadow_factor(&sun, &cube, &v(0, 0, 0), &up, filter(), 0), ONE);
    assert_eq!(shadow_factor(&lamp, &flat, &v(0, 0, 0), &up, filter(), 0), ONE);
}

#[test]
fn a_point_light_is_sampled_with_the_bias_of_the_slope() {
    let light = Light::Point { position: v(0, 0, 0), far_plane: 25_000 };
    let t = light_transform(&light, &scene());
    let cube_transform = point_transform(&v(0, 0, 0), 25_000).unwrap();
    let mut cube = DepthCube::new(64).unwrap();
    // An occluder 100 before a wall at a distance of 5000.
    render_cube(&mut cube, &cube_transform, &vec![v(0, 4_900, 0)], CubeStrategy::Amplified);
    let map = ShadowMap::Cube(cube);
    let wall = v(0, 5_000, 0);
    let range = Filter { radius: 1, bias: BiasRange { min: 10, max: 400 } };
    // A wall that faces the light gets the least bias and stays in shadow
    // of the occluder at the one sample that looks straight at it.
    let facing = v(0, -1, 0);
    let steep = v(1000, -1, 0);
    let c = match &map {
        ShadowMap::Cube(c) => c,
        ShadowMap::Flat(_) => panic!("the lamp has a cube"),
    };
    let to_light = to_direction(&v(0, -5_000, 0));
    assert_eq!(to_light, v(0, -DIR_MAX, 0));
    assert_eq!(cosine(&facing, &to_light), ONE as i64);
    assert_eq!(slope_bias(range.bias, cosine(&facing, &to_light)), 10);
    assert_eq!(slope_bias(range.bias, cosine(&steep, &to_light)), 399);
    assert_eq!(
        shadow_factor(&t, &map, &wall, &facing, range, 0),
        sample_point(c, &cube_transform, &wall, 10, 0)
    );
    assert_eq!(shadow_factor(&t, &map, &wall, &facing, range, 0), 0);
    assert_eq!(
        shadow_factor(&t, &map, &wall, &steep, range, 0),
        sample_point(c, &cube_transform, &wall, 399, 0)
    );
    assert_eq!(shadow_factor(&t, &map, &wall, &steep, range, 0), ONE);
    assert_eq!(shadow_factor(&t, &map, &wall, &v(0, DIR_MAX + 1, 0), range, 0), ONE);
    assert_eq!(shadow_factor(&t, &map, &v(0, COORD_MAX + 1, 0), &facing, range, 0), ONE);
    assert_eq!(shadow_factor(&t, &map, &v(0, 0, 0), &facing, range, 0), ONE);
}
