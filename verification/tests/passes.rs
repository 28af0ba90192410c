use shadow_mapping::cube::CubeFace;
use shadow_mapping::depth_pass::CubeStrategy;
use shadow_mapping::error::ShadowError;
use shadow_mapping::input::processInput;
use shadow_mapping::input::CameraMove;
use shadow_mapping::input::KeyAction;
use shadow_mapping::input::Keys;
use shadow_mapping::light::Light;
use shadow_mapping::mesh::buffer_bytes;
use shadow_mapping::mesh::interleaved_layout;
use shadow_mapping::mesh::vertex_count;
use shadow_mapping::mesh::Attribute;
use shadow_mapping::pass_plan::plan_cube_pass;
use shadow_mapping::pass_plan::plan_flat_pass;
use shadow_mapping::pass_plan::FrameOrder;
use shadow_mapping::pass_plan::PassStep;
use shadow_mapping::resource::kind_for;
use shadow_mapping::resource::request_target;
use shadow_mapping::resource::DepthFormat;
use shadow_mapping::resource::MapKind;
use shadow_mapping::resource::ShadowTarget;
use shadow_mapping::resource::TargetAction;
use shadow_mapping::resource::TargetRequest;
use shadow_mapping::vector::Vec3;

fn sun() -> Light {
    Light::Directional { direction: Vec3::new(2, -4, 1) }
}

fn lamp() -> Light {
    Light::Point { position: Vec3::new(0, 0, 0), far_plane: 25_000 }
}

fn target(kind: MapKind) -> ShadowTarget {
    ShadowTarget { kind, resolution: 1024, framebuffer: 7, texture: 9 }
}

#[test]
fn a_light_gets_a_map_of_its_kind() {
    assert_eq!(kind_for(&sun()), MapKind::Flat);
    assert_eq!(kind_for(&lamp()), MapKind::Cube);
    assert_eq!(
        request_target(&sun(), 1024, DepthFormat::Float),
        Ok(TargetRequest { kind: MapKind::Flat, resolution: 1024, format: DepthFormat::Float })
    );
    assert_eq!(
        request_target(&lamp(), 2048, DepthFormat::Fixed),
        Ok(TargetRequest { kind: MapKind::Cube, resolution: 2048, format: DepthFormat::Fixed })
    );
}

#[test]
fn a_target_without_size_cannot_be_asked_for() {
    assert_eq!(
        request_target(&sun(), 0, DepthFormat::Float),
        Err(ShadowError::ResourceAllocationFailure)
    );
    assert_eq!(
        request_target(&sun(), 16_385, DepthFormat::Float),
        Err(ShadowError::ResourceAllocationFailure)
    );
    assert!(request_target(&sun(), 16_384, DepthFormat::Float).is_ok());
}

#[test]
fn a_failed_allocation_is_reported() {
    let request = request_target(&lamp(), 1024, DepthFormat::Float).unwrap();
    assert_eq!(ShadowTarget::adopt(request, 7, 9, true), Ok(target(MapKind::Cube)));
    assert_eq!(ShadowTarget::adopt(request, 0, 9, true), Err(ShadowError::ResourceAllocationFailure));
    assert_eq!(ShadowTarget::adopt(request, 7, 0, true), Err(ShadowError::ResourceAllocationFailure));
    assert_eq!(ShadowTarget::adopt(request, 7, 9, false), Err(ShadowError::ResourceAllocationFailure));
    let empty = TargetRequest { kind: MapKind::Flat, resolution: 0, format: DepthFormat::Float };
    assert_eq!(ShadowTarget::adopt(empty, 7, 9, true), Err(ShadowError::ResourceAllocationFailure));
}

#[test]
fn a_target_is_created_anew_only_for_another_resolution() {
    let t = target(MapKind::Cube);
    assert_eq!(t.at_resolution(1024, DepthFormat::Float), TargetAction::Keep);
    assert_eq!(
        t.at_resolution(2048, DepthFormat::Float),
        TargetAction::Recreate {
            request: TargetRequest { kind: MapKind::Cube, resolution: 2048, format: DepthFormat::Float }
        }
    );
}

#[test]
fn errors_that_end_the_setup() {
    assert!(!ShadowError::InvalidLightState.aborts_setup());
    assert!(ShadowError::ResourceAllocationFailure.aborts_setup());
    assert!(ShadowError::DegenerateFrustum.aborts_setup());
    assert_eq!(ShadowError::InvalidLightState.describe(), "invalid light state");
    assert_eq!(ShadowError::ResourceAllocationFailure.describe(), "render target allocation failed");
    assert_eq!(ShadowError::DegenerateFrustum.describe(), "degenerate frustum");
}

#[test]
fn a_flat_pass_draws_every_drawable_once() {
    let steps = plan_flat_pass(&target(MapKind::Flat), 2, 3);
    assert_eq!(
        steps,
        vec![
            PassStep::BindTarget { framebuffer: 7 },
            PassStep::SetViewport { width: 1024, height: 1024 },
            PassStep::DisableColorWrites,
            PassStep::ClearDepth,
            PassStep::UseTransform { index: 2 },
            PassStep::Draw { drawable: 0 },
            PassStep::Draw { drawable: 1 },
            PassStep::Draw { drawable: 2 },
            PassStep::ReleaseTarget,
        ]
    );
    assert_eq!(plan_flat_pass(&target(MapKind::Flat), 0, 0).len(), 6);
}

#[test]
fn an_amplified_pass_draws_every_drawable_once() {
    let steps = plan_cube_pass(&target(MapKind::Cube), CubeStrategy::Amplified, 2);
    assert_eq!(
        steps,
        vec![
            PassStep::BindTarget { framebuffer: 7 },
            PassStep::SetViewport { width: 1024, height: 1024 },
            PassStep::DisableColorWrites,
            PassStep::ClearDepth,
            PassStep::UseFaceTransforms,
            PassStep::Draw { drawable: 0 },
            PassStep::Draw { drawable: 1 },
            PassStep::ReleaseTarget,
        ]
    );
}

#[test]
fn six_passes_draw_every_drawable_for_every_face() {
    let steps = plan_cube_pass(&target(MapKind::Cube), CubeStrategy::SixPasses, 2);
    let mut expected = vec![
        PassStep::BindTarget { framebuffer: 7 },
        PassStep::SetViewport { width: 1024, height: 1024 },
        PassStep::DisableColorWrites,
    ];
    for i in 0..6 {
        expected.push(PassStep::AttachFace { face: CubeFace::from_index(i).unwrap() });
        expected.push(PassStep::ClearDepth);
        expected.push(PassStep::UseTransform { index: i });
        expected.push(PassStep::Draw { drawable: 0 });
        expected.push(PassStep::Draw { drawable: 1 });
    }
    expected.push(PassStep::ReleaseTarget);
    assert_eq!(steps, expected);
    let draws = |s: &Vec<PassStep>| s.iter().filter(|p| matches!(p, PassStep::Draw { .. })).count();
    assert_eq!(draws(&steps), 12);
    assert_eq!(draws(&plan_cube_pass(&target(MapKind::Cube), CubeStrategy::Amplified, 2)), 2);
}

#[test]
fn shading_waits_for_every_depth_pass() {
    let mut frame = FrameOrder::begin(3);
    assert_eq!(frame.rendered, vec![false, false, false]);
    assert!(!frame.may_shade());
    frame.finish_depth_pass(2);
    frame.finish_depth_pass(0);
    assert!(!frame.may_shade());
    frame.finish_depth_pass(0);
    assert!(!frame.may_shade());
    frame.finish_depth_pass(1);
    assert!(frame.may_shade());
    assert!(FrameOrder::begin(0).may_shade());
}

fn keys() -> Keys {
    Keys {
        escape: KeyAction::Release,
        w: KeyAction::Release,
        s: KeyAction::Release,
        a: KeyAction::Release,
        d: KeyAction::Release,
        space: KeyAction::Release,
    }
}

#[test]
fn keys_move_the_camera_and_close_the_window() {
    let mut held = false;
    let mut shadows = true;
    let idle = processInput(&keys(), &mut held, &mut shadows);
    assert!(!idle.close);
    assert_eq!(idle.moves, vec![]);
    let all = Keys {
        escape: KeyAction::Press,
        w: KeyAction::Press,
        s: KeyAction::Press,
        a: KeyAction::Press,
        d: KeyAction::Press,
        space: KeyAction::Release,
    };
    let out = processInput(&all, &mut held, &mut shadows);
    assert!(out.close);
    assert_eq!(
        out.moves,
        vec![CameraMove::Forward, CameraMove::Backward, CameraMove::Left, CameraMove::Right]
    );
    let some = Keys { w: KeyAction::Repeat, d: KeyAction::Press, escape: KeyAction::Repeat, ..keys() };
    let out = processInput(&some, &mut held, &mut shadows);
    assert!(!out.close);
    assert_eq!(out.moves, vec![CameraMove::Right]);
    assert!(shadows && !held);
}

#[test]
fn the_space_key_switches_the_shadows_once_for_each_press() {
    let mut held = false;
    let mut shadows = false;
    let down = Keys { space: KeyAction::Press, ..keys() };
    let stay = Keys { space: KeyAction::Repeat, ..keys() };
    processInput(&down, &mut held, &mut shadows);
    assert_eq!((held, shadows), (true, true));
    processInput(&down, &mut held, &mut shadows);
    assert_eq!((held, shadows), (true, true));
    processInput(&stay, &mut held, &mut shadows);
    assert_eq!((held, shadows), (true, true));
    processInput(&keys(), &mut held, &mut shadows);
    assert_eq!((held, shadows), (false, true));
    processInput(&stay, &mut held, &mut shadows);
    assert_eq!((held, shadows), (false, true));
    processInput(&down, &mut held, &mut shadows);
    assert_eq!((held, shadows), (true, false));
}

#[test]
fn layout_of_the_vertices_of_the_cube_and_of_the_quad() {
    let cube = interleaved_layout(&vec![3, 3, 2]).unwrap();
    assert_eq!(cube.stride, 32);
    assert_eq!(
        cube.attributes,
        vec![
            Attribute { index: 0, components: 3, offset: 0 },
            Attribute { index: 1, components: 3, offset: 12 },
            Attribute { index: 2, components: 2, offset: 24 },
        ]
    );
    assert_eq!(vertex_count(36 * 8, &cube), 36);
    assert_eq!(buffer_bytes(36 * 8), Some(1152));
    let quad = interleaved_layout(&vec![3, 2]).unwrap();
    assert_eq!(quad.stride, 20);
    assert_eq!(quad.attributes[1], Attribute { index: 1, components: 2, offset: 12 });
    assert_eq!(vertex_count(20, &quad), 4);
    assert_eq!(buffer_bytes(20), Some(80));
    assert_eq!(buffer_bytes(usize::MAX), None);
    let empty = interleaved_layout(&vec![]).unwrap();
    assert_eq!((empty.stride, empty.attributes.len()), (0, 0));
    assert!(interleaved_layout(&vec![u32::MAX]).is_none());
    assert!(interleaved_layout(&vec![0x1000_0000, 0]).is_some());
    assert!(interleaved_layout(&vec![0x1000_0000, 1]).is_none());
}
