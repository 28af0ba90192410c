use shadow_mapping::bounds::Aabb;
use shadow_mapping::cube::point_transform;
use shadow_mapping::cube::rotate_into_view;
use shadow_mapping::cube::select_face;
use shadow_mapping::cube::CubeFace;
use shadow_mapping::cube::CubeTransform;
use shadow_mapping::cube::CUBE_FOV_DEGREES;
use shadow_mapping::error::ShadowError;
use shadow_mapping::light::Light;
use shadow_mapping::light::NEAR_EPSILON;
use shadow_mapping::scalar::ONE;
use shadow_mapping::snap::snap_down;
use shadow_mapping::snap::snap_to_texels;
use shadow_mapping::snap::snap_up;
use shadow_mapping::snap::texel_step;
use shadow_mapping::transform::axis_extent;
use shadow_mapping::transform::center;
use shadow_mapping::transform::choose_up;
use shadow_mapping::transform::directional_transform;
use shadow_mapping::transform::directional_view;
use shadow_mapping::transform::light_transform;
use shadow_mapping::transform::LightTransform;
use shadow_mapping::transform::OrthoTransform;
use shadow_mapping::vector::Vec3;
use shadow_mapping::vector::COORD_MAX;
use shadow_mapping::vector::DIR_MAX;

fn v(x: i64, y: i64, z: i64) -> Vec3 {
    Vec3::new(x, y, z)
}

// The scene of the demo in tenths of a unit: a floor of 50 by 50 at a
// height of -0.5 and casters up to a height of 2.
fn scene() -> Aabb {
    Aabb::new(v(-250, -5, -250), v(250, 20, 250)).unwrap()
}

fn inside(t: &OrthoTransform, p: &Vec3) -> bool {
    let x = t.side.dot(p);
    let y = t.up.dot(p);
    let z = t.forward.dot(p);
    t.left as i128 <= x
        && x <= t.right as i128
        && t.bottom as i128 <= y
        && y <= t.top as i128
        && t.near as i128 <= z
        && z <= t.far as i128
}

#[test]
fn directional_axes_and_extents() {
    let t = directional_transform(&v(2, -4, 1), &scene()).unwrap();
    assert_eq!(t.forward, v(2, -4, 1));
    assert_eq!(t.side, v(-1, 0, 2));
    assert_eq!(t.up, v(8, 5, 4));
    assert_eq!((t.left, t.right), (-750, 750));
    assert_eq!((t.bottom, t.top), (-3025, 3100));
    assert_eq!((t.near, t.far), (-830, 770));
}

#[test]
fn directional_box_contains_every_corner_of_the_scene() {
    let directions = [
        v(2, -4, 1),
        v(0, -1, 0),
        v(0, 1, 0),
        v(1, 0, 0),
        v(-3, -7, 11),
        v(DIR_MAX, -DIR_MAX, DIR_MAX),
        v(1, -DIR_MAX, 0),
    ];
    let boxes = [
        scene(),
        Aabb::new(v(0, 0, 0), v(0, 0, 0)).unwrap(),
        Aabb::new(v(-COORD_MAX, -COORD_MAX, -COORD_MAX), v(COORD_MAX, COORD_MAX, COORD_MAX)).unwrap(),
        Aabb::new(v(5, 6, 7), v(-5, -6, -7)).unwrap(),
    ];
    for d in directions {
        for b in boxes {
            let t = directional_transform(&d, &b).unwrap();
            for i in 0..8 {
                assert!(inside(&t, &b.corner(i)));
            }
            assert!(inside(&t, &center(&b)));
        }
    }
}

#[test]
fn directional_box_is_tight() {
    let b = scene();
    let t = directional_transform(&v(-3, -7, 11), &b).unwrap();
    let along = |axis: &Vec3| -> (i128, i128) {
        let all: Vec<i128> = (0..8).map(|i| axis.dot(&b.corner(i))).collect();
        (*all.iter().min().unwrap(), *all.iter().max().unwrap())
    };
    assert_eq!(along(&t.side), (t.left as i128, t.right as i128));
    assert_eq!(along(&t.up), (t.bottom as i128, t.top as i128));
    assert_eq!(along(&t.forward), (t.near as i128, t.far as i128));
}

#[test]
fn directional_axes_are_orthogonal() {
    for d in [v(2, -4, 1), v(0, -1, 0), v(0, 5, 0), v(7, 0, 0), v(-3, -7, 11)] {
        let t = directional_transform(&d, &scene()).unwrap();
        assert_eq!(t.side.dot(&t.forward), 0);
        assert_eq!(t.up.dot(&t.forward), 0);
        assert_eq!(t.up.dot(&t.side), 0);
        assert!(!t.side.is_zero());
        assert!(!t.up.is_zero());
    }
}

#[test]
fn light_straight_down_takes_the_fallback_up_vector() {
    assert_eq!(choose_up(&v(0, -1, 0)), v(0, 0, 1));
    assert_eq!(choose_up(&v(0, 9, 0)), v(0, 0, 1));
    assert_eq!(choose_up(&v(1, -1, 0)), v(0, 1, 0));
    assert_eq!(choose_up(&v(0, -1, 1)), v(0, 1, 0));
    let t = directional_transform(&v(0, -1, 0), &scene()).unwrap();
    assert_eq!(t.side, v(-1, 0, 0));
    assert_eq!(t.up, v(0, 0, 1));
    assert_eq!((t.left, t.right), (-250, 250));
    assert_eq!((t.bottom, t.top), (-250, 250));
    assert_eq!((t.near, t.far), (-20, 5));
}

#[test]
fn zero_direction_is_an_invalid_light() {
    assert_eq!(directional_transform(&v(0, 0, 0), &scene()), Err(ShadowError::InvalidLightState));
    let light = Light::Directional { direction: v(0, 0, 0) };
    assert_eq!(light.validate(), Err(ShadowError::InvalidLightState));
    assert_eq!(light_transform(&light, &scene()), Err(ShadowError::InvalidLightState));
    assert_eq!(directional_view(&v(0, 0, 0), &scene()), Err(ShadowError::InvalidLightState));
}

#[test]
fn direction_out_of_range_is_an_invalid_light() {
    assert_eq!(
        directional_transform(&v(DIR_MAX + 1, 0, 0), &scene()),
        Err(ShadowError::InvalidLightState)
    );
    assert_eq!(
        directional_transform(&v(0, i64::MIN, 0), &scene()),
        Err(ShadowError::InvalidLightState)
    );
    assert!(directional_transform(&v(DIR_MAX, 0, -DIR_MAX), &scene()).is_ok());
}

#[test]
fn building_twice_gives_the_same_transform() {
    let lights = [
        Light::Directional { direction: v(2, -4, 1) },
        Light::Point { position: v(0, 0, 0), far_plane: 250 },
    ];
    for light in lights {
        let a = light_transform(&light, &scene()).unwrap();
        let b = light_transform(&light, &scene()).unwrap();
        assert_eq!(a, b);
    }
    assert_eq!(directional_view(&v(2, -4, 1), &scene()), directional_view(&v(2, -4, 1), &scene()));
}

#[test]
fn light_transform_follows_the_kind_of_the_light() {
    let sun = Light::Directional { direction: v(2, -4, 1) };
    assert!(sun.is_directional() && !sun.is_point());
    match light_transform(&sun, &scene()).unwrap() {
        LightTransform::Directional(t) => {
            assert_eq!(t, directional_transform(&v(2, -4, 1), &scene()).unwrap())
        }
        LightTransform::Point(_) => panic!("a directional light has an orthographic transform"),
    }
    let lamp = Light::Point { position: v(1, 2, 3), far_plane: 250 };
    assert!(lamp.is_point() && !lamp.is_directional());
    match light_transform(&lamp, &scene()).unwrap() {
        LightTransform::Point(t) => assert_eq!(t, point_transform(&v(1, 2, 3), 250).unwrap()),
        LightTransform::Directional(_) => panic!("a point light has a cube of views"),
    }
}

#[test]
fn point_transform_is_a_square_view_of_ninety_degrees() {
    let t = point_transform(&v(1, 2, 3), 25_000).unwrap();
    assert_eq!(
        t,
        CubeTransform {
            eye: v(1, 2, 3),
            near: NEAR_EPSILON,
            far: 25_000,
            fov_degrees: 90,
            aspect: ONE,
        }
    );
    assert_eq!(CUBE_FOV_DEGREES, 90);
    assert!(t.near > 0);
}

#[test]
fn point_light_without_reach_is_invalid() {
    assert_eq!(point_transform(&v(0, 0, 0), 1), Err(ShadowError::InvalidLightState));
    assert_eq!(point_transform(&v(0, 0, 0), 0), Err(ShadowError::InvalidLightState));
    assert_eq!(point_transform(&v(0, 0, 0), -5), Err(ShadowError::InvalidLightState));
    assert_eq!(point_transform(&v(0, 0, 0), COORD_MAX + 1), Err(ShadowError::InvalidLightState));
    assert!(point_transform(&v(0, 0, 0), 2).is_ok());
    assert!(point_transform(&v(0, 0, 0), COORD_MAX).is_ok());
}

#[test]
fn point_light_outside_the_world_is_invalid() {
    assert_eq!(point_transform(&v(COORD_MAX + 1, 0, 0), 10), Err(ShadowError::InvalidLightState));
    let lamp = Light::Point { position: v(0, -COORD_MAX - 1, 0), far_plane: 10 };
    assert_eq!(lamp.validate(), Err(ShadowError::InvalidLightState));
    assert_eq!(light_transform(&lamp, &scene()), Err(ShadowError::InvalidLightState));
    assert!(Light::Point { position: v(COORD_MAX, 0, 0), far_plane: 10 }.validate().is_ok());
}

#[test]
fn moving_and_turning_keep_the_kind_of_a_light() {
    let mut lamp = Light::Point { position: v(0, 0, 0), far_plane: 250 };
    lamp.move_to(v(0, 0, 30));
    assert_eq!(lamp, Light::Point { position: v(0, 0, 30), far_plane: 250 });
    lamp.turn_to(v(1, 0, 0));
    assert_eq!(lamp, Light::Point { position: v(0, 0, 30), far_plane: 250 });
    let mut sun = Light::Directional { direction: v(0, -1, 0) };
    sun.move_to(v(5, 5, 5));
    assert_eq!(sun, Light::Directional { direction: v(0, -1, 0) });
    sun.turn_to(v(1, -1, 0));
    assert_eq!(sun, Light::Directional { direction: v(1, -1, 0) });
}

#[test]
fn each_face_turns_its_direction_into_the_forward_axis() {
    for i in 0..6 {
        let face = CubeFace::from_index(i).unwrap();
        assert_eq!(face.index(), i);
        assert_eq!(rotate_into_view(face, &face.direction()), v(0, 0, -1));
        assert_eq!(rotate_into_view(face, &face.up()), v(0, 1, 0));
        assert_eq!(rotate_into_view(face, &face.side()), v(1, 0, 0));
        assert_eq!(face.direction().cross(&face.up()), face.side());
        assert_eq!(face.side().cross(&face.direction()), face.up());
    }
    assert_eq!(CubeFace::from_index(6), None);
}

#[test]
fn face_views_look_along_the_axes_with_the_usual_up_vectors() {
    let t = point_transform(&v(10, 20, 30), 250).unwrap();
    let views = t.face_views();
    let expected = [
        (CubeFace::PositiveX, v(11, 20, 30), v(0, -1, 0)),
        (CubeFace::NegativeX, v(9, 20, 30), v(0, -1, 0)),
        (CubeFace::PositiveY, v(10, 21, 30), v(0, 0, 1)),
        (CubeFace::NegativeY, v(10, 19, 30), v(0, 0, -1)),
        (CubeFace::PositiveZ, v(10, 20, 31), v(0, -1, 0)),
        (CubeFace::NegativeZ, v(10, 20, 29), v(0, -1, 0)),
    ];
    assert_eq!(views.len(), 6);
    for (view, (face, target, up)) in views.iter().zip(expected) {
        assert_eq!(view.face, face);
        assert_eq!(view.eye, v(10, 20, 30));
        assert_eq!(view.target, target);
        assert_eq!(view.up, up);
        assert_eq!(*view, t.face_view(face));
    }
}

#[test]
fn a_direction_falls_on_the_face_of_its_longest_axis() {
    assert_eq!(select_face(&v(5, 1, -2)), CubeFace::PositiveX);
    assert_eq!(select_face(&v(-5, 1, -2)), CubeFace::NegativeX);
    assert_eq!(select_face(&v(1, 5, -2)), CubeFace::PositiveY);
    assert_eq!(select_face(&v(1, -5, -2)), CubeFace::NegativeY);
    assert_eq!(select_face(&v(1, -2, 5)), CubeFace::PositiveZ);
    assert_eq!(select_face(&v(1, -2, -5)), CubeFace::NegativeZ);
    assert_eq!(select_face(&v(5, 5, 5)), CubeFace::PositiveX);
    assert_eq!(select_face(&v(-4, 5, 5)), CubeFace::PositiveY);
    assert_eq!(select_face(&v(0, -3, 3)), CubeFace::NegativeY);
}

#[test]
fn the_eye_stands_before_the_whole_scene() {
    let b = Aabb::new(v(-10, 0, -10), v(10, 4, 10)).unwrap();
    let down = directional_view(&v(0, -1, 0), &b).unwrap();
    assert_eq!(down.target, v(0, 2, 0));
    assert_eq!(down.eye, v(0, 4, 0));
    assert_eq!(down.up, v(0, 0, 1));
    let d = v(2, -4, 1);
    let view = directional_view(&d, &scene()).unwrap();
    assert_eq!(view.target, v(0, 7, 0));
    assert_eq!(view.eye, v(-78, 163, -39));
    assert_eq!(view.up, v(0, 1, 0));
    let t = directional_transform(&d, &scene()).unwrap();
    assert!(d.dot(&view.eye) <= t.near as i128);
    assert!(d.dot(&view.eye) > t.near as i128 - d.dot(&d));
}

#[test]
fn centre_rounds_down() {
    assert_eq!(center(&Aabb::new(v(-3, 0, 1), v(0, 1, 2)).unwrap()), v(-2, 0, 1));
    assert_eq!(center(&Aabb::new(v(-5, -5, -5), v(-4, -4, -4)).unwrap()), v(-5, -5, -5));
}

#[test]
fn boxes_from_points() {
    assert_eq!(
        Aabb::new(v(5, -6, 7), v(-5, 6, -7)),
        Some(Aabb { min: v(-5, -6, -7), max: v(5, 6, 7) })
    );
    assert_eq!(Aabb::new(v(COORD_MAX + 1, 0, 0), v(0, 0, 0)), None);
    assert_eq!(Aabb::new(v(0, 0, 0), v(0, 0, -COORD_MAX - 1)), None);
    assert_eq!(Aabb::enclosing(&vec![]), None);
    assert_eq!(Aabb::enclosing(&vec![v(0, 0, 0), v(0, COORD_MAX + 1, 0)]), None);
    let b = Aabb::enclosing(&vec![v(1, 2, 3), v(-1, 5, 0), v(0, 0, 9)]).unwrap();
    assert_eq!(b, Aabb { min: v(-1, 0, 0), max: v(1, 5, 9) });
    assert!(b.contains(&v(0, 3, 4)));
    assert!(!b.contains(&v(2, 3, 4)));
    assert_eq!(b.corner(0), v(-1, 0, 0));
    assert_eq!(b.corner(1), v(1, 0, 0));
    assert_eq!(b.corner(2), v(-1, 5, 0));
    assert_eq!(b.corner(4), v(-1, 0, 9));
    assert_eq!(b.corner(7), v(1, 5, 9));
}

#[test]
fn extent_of_a_box_along_an_axis() {
    let b = Aabb::new(v(-1, 0, 2), v(3, 5, 4)).unwrap();
    assert_eq!(axis_extent(&v(1, 0, 0), &b), (-1, 3));
    assert_eq!(axis_extent(&v(-1, 0, 0), &b), (-3, 1));
    assert_eq!(axis_extent(&v(2, -1, 1), &b), (-2 - 5 + 2, 6 + 4));
}

#[test]
fn vectors_multiply_exactly() {
    let a = v(1, 2, 3);
    let b = v(-4, 5, 6);
    assert_eq!(a.dot(&b), 24);
    assert_eq!(a.cross(&b), v(-3, -18, 13));
    assert_eq!(a.minus(&b), v(5, -3, -3));
    assert_eq!(a.plus(&b), v(-3, 7, 9));
    assert!(a.within(3) && !a.within(2));
    assert!(v(0, 0, 0).is_zero() && !a.is_zero());
}

#[test]
fn snapping_goes_to_multiples_of_the_step() {
    assert_eq!(snap_down(7, 4), 4);
    assert_eq!(snap_down(8, 4), 8);
    assert_eq!(snap_down(-7, 4), -8);
    assert_eq!(snap_down(-8, 4), -8);
    assert_eq!(snap_down(0, 4), 0);
    assert_eq!(snap_up(7, 4), 8);
    assert_eq!(snap_up(8, 4), 8);
    assert_eq!(snap_up(-7, 4), -4);
    assert_eq!(snap_up(-8, 4), -8);
}

#[test]
fn snapping_follows_a_move_by_whole_steps() {
    for x in -50..50i64 {
        for step in [1i64, 3, 4, 7] {
            for k in [-5i64, -1, 0, 2, 9] {
                assert_eq!(snap_down(x + k * step, step), snap_down(x, step) + k * step);
                assert_eq!(snap_up(x + k * step, step), snap_up(x, step) + k * step);
            }
            assert_eq!(snap_down(snap_down(x, step), step), snap_down(x, step));
            assert!(snap_down(x, step) <= x && x < snap_down(x, step) + step);
            assert!(snap_up(x, step) >= x && x > snap_up(x, step) - step);
        }
    }
}

#[test]
fn size_of_a_texel() {
    assert_eq!(texel_step(-750, 750, 1024), 2);
    assert_eq!(texel_step(0, 10, 1024), 1);
    assert_eq!(texel_step(0, 1024, 1024), 1);
    assert_eq!(texel_step(0, 1025, 1024), 2);
    assert_eq!(texel_step(-3025, 3100, 16), 383);
}

#[test]
fn snapped_box_still_holds_the_scene() {
    let b = scene();
    let t = directional_transform(&v(2, -4, 1), &b).unwrap();
    let sx = texel_step(t.left, t.right, 16);
    let sy = texel_step(t.bottom, t.top, 16);
    assert_eq!((sx, sy), (94, 383));
    let s = snap_to_texels(&t, sx, sy);
    assert_eq!((s.left, s.right), (-752, 752));
    assert_eq!((s.bottom, s.top), (-3064, 3447));
    assert_eq!((s.near, s.far), (t.near, t.far));
    assert_eq!((s.side, s.up, s.forward), (t.side, t.up, t.forward));
    for i in 0..8 {
        assert!(inside(&s, &b.corner(i)));
    }
}
