//! The steps of a depth pass on the graphics device, and the order of the
//! passes within a frame.
//!
//! The library decides the steps; whoever owns the device carries them
//! out. Every step names the target or the transform that it is about:
//! nothing is left to what happens to be bound.

use crate::cube::CubeFace;
use crate::depth_pass::CubeStrategy;
use crate::resource::ShadowTarget;
use vstd::prelude::*;

verus! {

/// One step of a depth pass.
#[derive(Clone, Copy, Debug, PartialEq, Eq, Structural)]
pub enum PassStep {
    /// Make the target the only render target.
    BindTarget { framebuffer: u32 },
    /// Set the viewport to the size of the shadow map.
    SetViewport { width: u32, height: u32 },
    /// Switch off writes of colour.
    DisableColorWrites,
    /// Render into one face of the cube.
    AttachFace { face: CubeFace },
    /// Overwrite the depths with the far plane.
    ClearDepth,
    /// Hand the light's transform with this index to the depth program.
    UseTransform { index: usize },
    /// Hand all six face transforms to the depth program, which sends each
    /// primitive to every face.
    UseFaceTransforms,
    /// Draw a drawable, positions only.
    Draw { drawable: usize },
    /// Give the default render target back.
    ReleaseTarget,
}

/// One draw for each of `n` drawables, in their order.
pub open spec fn draws(n: nat) -> Seq<PassStep> {
    Seq::new(n, |k: int| PassStep::Draw { drawable: k as usize })
}

/// The steps that open every pass on `target`.
pub open spec fn opening(target: ShadowTarget) -> Seq<PassStep> {
    seq![
        PassStep::BindTarget { framebuffer: target.framebuffer },
        PassStep::SetViewport { width: target.resolution, height: target.resolution },
        PassStep::DisableColorWrites,
    ]
}

/// The pass that fills the map of a directional light, or of the cascade
/// with index `transform`.
pub open spec fn flat_plan(target: ShadowTarget, transform: usize, n: nat) -> Seq<PassStep> {
    opening(target) + seq![PassStep::ClearDepth, PassStep::UseTransform { index: transform }]
        + draws(n) + seq![PassStep::ReleaseTarget]
}

/// The face at a place in the usual order.
pub open spec fn face_at(i: int) -> CubeFace {
    if i == 0 {
        CubeFace::PositiveX
    } else if i == 1 {
        CubeFace::NegativeX
    } else if i == 2 {
        CubeFace::PositiveY
    } else if i == 3 {
        CubeFace::NegativeY
    } else if i == 4 {
        CubeFace::PositiveZ
    } else {
        CubeFace::NegativeZ
    }
}

/// The steps that fill one face of a cube.
pub open spec fn face_pass(face: CubeFace, n: nat) -> Seq<PassStep> {
    seq![
        PassStep::AttachFace { face },
        PassStep::ClearDepth,
        PassStep::UseTransform { index: face.index_spec() as usize },
    ] + draws(n)
}

/// The steps that fill the first `k` faces of a cube, one after the other.
pub open spec fn face_passes(k: nat, n: nat) -> Seq<PassStep>
    decreases k,
{
    if k == 0 {
        Seq::empty()
    } else {
        face_passes((k - 1) as nat, n) + face_pass(face_at(k - 1), n)
    }
}

/// The pass that fills the cube of a point light.
pub open spec fn cube_plan(target: ShadowTarget, strategy: CubeStrategy, n: nat) -> Seq<PassStep> {
    match strategy {
        CubeStrategy::SixPasses => opening(target) + face_passes(6, n) + seq![
            PassStep::ReleaseTarget,
        ],
        CubeStrategy::Amplified => opening(target) + seq![
            PassStep::ClearDepth,
            PassStep::UseFaceTransforms,
        ] + draws(n) + seq![PassStep::ReleaseTarget],
    }
}

/// The number of draws among some steps.
pub open spec fn draw_count(steps: Seq<PassStep>) -> nat
    decreases steps.len(),
{
    if steps.len() == 0 {
        0
    } else {
        draw_count(steps.drop_last()) + if steps.last() is Draw {
            1nat
        } else {
            0nat
        }
    }
}

/// The draws of steps put one after the other add up.
pub proof fn lemma_draw_count_add(a: Seq<PassStep>, b: Seq<PassStep>)
    ensures
        draw_count(a + b) == draw_count(a) + draw_count(b),
    decreases b.len(),
{
    if b.len() == 0 {
        assert(a + b =~= a);
    } else {
        assert((a + b).drop_last() =~= a + b.drop_last());
        assert((a + b).last() == b.last());
        lemma_draw_count_add(a, b.drop_last());
    }
}

/// `n` draws are `n` draws.
pub proof fn lemma_draw_count_draws(n: nat)
    ensures
        draw_count(draws(n)) == n,
    decreases n,
{
    if n > 0 {
        assert(draws(n).drop_last() =~= draws((n - 1) as nat));
        lemma_draw_count_draws((n - 1) as nat);
    }
}

/// A sequence of up to three steps none of which draws has no draw.
proof fn lemma_draw_count_small(s: Seq<PassStep>)
    requires
        s.len() <= 3,
        forall|i: int| 0 <= i < s.len() ==> !(#[trigger] s[i] is Draw),
    ensures
        draw_count(s) == 0,
    decreases s.len(),
{
    if s.len() > 0 {
        lemma_draw_count_small(s.drop_last());
    }
}

/// The first `k` face passes draw every drawable `k` times.
pub proof fn lemma_face_passes_draws(k: nat, n: nat)
    ensures
        draw_count(face_passes(k, n)) == k * n,
    decreases k,
{
    if k == 0 {
        assert(k * n == 0) by (nonlinear_arith)
            requires
                k == 0,
        ;
    } else {
        let face = face_at(k - 1);
        let head = seq![
            PassStep::AttachFace { face },
            PassStep::ClearDepth,
            PassStep::UseTransform { index: face.index_spec() as usize },
        ];
        lemma_face_passes_draws((k - 1) as nat, n);
        lemma_draw_count_add(face_passes((k - 1) as nat, n), face_pass(face, n));
        lemma_draw_count_add(head, draws(n));
        lemma_draw_count_small(head);
        lemma_draw_count_draws(n);
        assert((k - 1) * n + n == k * n) by (nonlinear_arith);
    }
}

/// A flat pass draws every drawable once. A cube pass draws every drawable
/// once for each face in six passes, and once in all where the pass is
/// amplified.
pub proof fn lemma_plan_draws(target: ShadowTarget, transform: usize, n: nat)
    ensures
        draw_count(flat_plan(target, transform, n)) == n,
        draw_count(cube_plan(target, CubeStrategy::SixPasses, n)) == 6 * n,
        draw_count(cube_plan(target, CubeStrategy::Amplified, n)) == n,
{
    let open = opening(target);
    let close = seq![PassStep::ReleaseTarget];
    lemma_draw_count_small(open);
    lemma_draw_count_small(close);
    lemma_draw_count_draws(n);
    let head = seq![PassStep::ClearDepth, PassStep::UseTransform { index: transform }];
    lemma_draw_count_small(head);
    lemma_draw_count_add(open, head);
    lemma_draw_count_add(open + head, draws(n));
    lemma_draw_count_add(open + head + draws(n), close);
    lemma_face_passes_draws(6, n);
    lemma_draw_count_add(open, face_passes(6, n));
    lemma_draw_count_add(open + face_passes(6, n), close);
    let amp = seq![PassStep::ClearDepth, PassStep::UseFaceTransforms];
    lemma_draw_count_small(amp);
    lemma_draw_count_add(open, amp);
    lemma_draw_count_add(open + amp, draws(n));
    lemma_draw_count_add(open + amp + draws(n), close);
}

fn push_opening(steps: &mut Vec<PassStep>, target: &ShadowTarget)
    ensures
        final(steps)@ == old(steps)@ + opening(*target),
{
    steps.push(PassStep::BindTarget { framebuffer: target.framebuffer });
    steps.push(PassStep::SetViewport { width: target.resolution, height: target.resolution });
    steps.push(PassStep::DisableColorWrites);
    assert(steps@ =~= old(steps)@ + opening(*target));
}

fn push_draws(steps: &mut Vec<PassStep>, drawables: usize)
    ensures
        final(steps)@ == old(steps)@ + draws(drawables as nat),
{
    let mut k: usize = 0;
    assert(steps@ =~= old(steps)@ + draws(0));
    while k < drawables
        invariant
            k <= drawables,
            steps@ == old(steps)@ + draws(k as nat),
        decreases drawables - k,
    {
        steps.push(PassStep::Draw { drawable: k });
        assert(steps@ =~= old(steps)@ + draws((k + 1) as nat));
        k = k + 1;
    }
}

/// Plans the pass that fills a flat map with the light's transform of the
/// given index: 0 for a directional light, the cascade's index for a
/// cascade.
pub fn plan_flat_pass(target: &ShadowTarget, transform: usize, drawables: usize) -> (r: Vec<
    PassStep,
>)
    ensures
        r@ == flat_plan(*target, transform, drawables as nat),
{
    let mut steps: Vec<PassStep> = Vec::new();
    push_opening(&mut steps, target);
    steps.push(PassStep::ClearDepth);
    steps.push(PassStep::UseTransform { index: transform });
    push_draws(&mut steps, drawables);
    steps.push(PassStep::ReleaseTarget);
    assert(steps@ =~= flat_plan(*target, transform, drawables as nat));
    steps
}

/// Plans the pass that fills the cube of a point light, in six passes or
/// in one amplified pass.
pub fn plan_cube_pass(target: &ShadowTarget, strategy: CubeStrategy, drawables: usize) -> (r: Vec<
    PassStep,
>)
    ensures
        r@ == cube_plan(*target, strategy, drawables as nat),
{
    let mut steps: Vec<PassStep> = Vec::new();
    push_opening(&mut steps, target);
    match strategy {
        CubeStrategy::SixPasses => {
            let mut f: usize = 0;
            assert(steps@ =~= opening(*target) + face_passes(0, drawables as nat));
            while f < 6
                invariant
                    f <= 6,
                    steps@ == opening(*target) + face_passes(f as nat, drawables as nat),
                decreases 6 - f,
            {
                let face = CubeFace::from_index(f).unwrap();
                assert(face == face_at(f as int));
                let ghost before = steps@;
                steps.push(PassStep::AttachFace { face });
                steps.push(PassStep::ClearDepth);
                steps.push(PassStep::UseTransform { index: f });
                push_draws(&mut steps, drawables);
                assert(steps@ =~= before + face_pass(face, drawables as nat));
                assert(steps@ =~= opening(*target) + face_passes(
                    (f + 1) as nat,
                    drawables as nat,
                ));
                f = f + 1;
            }
            steps.push(PassStep::ReleaseTarget);
        },
        CubeStrategy::Amplified => {
            steps.push(PassStep::ClearDepth);
            steps.push(PassStep::UseFaceTransforms);
            push_draws(&mut steps, drawables);
            steps.push(PassStep::ReleaseTarget);
        },
    }
    assert(steps@ =~= cube_plan(*target, strategy, drawables as nat));
    steps
}

/// The passes of one frame: the depth pass of every light has to be over
/// before the colour pass reads a shadow map.
#[derive(Debug)]
pub struct FrameOrder {
    pub rendered: Vec<bool>,
}

impl FrameOrder {
    /// Whether the depth pass of every light is over.
    pub open spec fn complete(&self) -> bool {
        forall|i: int| 0 <= i < self.rendered.len() ==> #[trigger] self.rendered[i]
    }

    /// Starts a frame with `lights` lights, none of which has been
    /// rendered.
    pub fn begin(lights: usize) -> (r: FrameOrder)
        ensures
            r.rendered.len() == lights,
            forall|i: int| 0 <= i < lights ==> !(#[trigger] r.rendered[i]),
    {
        let mut rendered: Vec<bool> = Vec::new();
        let mut i: usize = 0;
        while i < lights
            invariant
                i <= lights,
                rendered.len() == i,
                forall|j: int| 0 <= j < i ==> !(#[trigger] rendered[j]),
            decreases lights - i,
        {
            rendered.push(false);
            i = i + 1;
        }
        FrameOrder { rendered }
    }

    /// Records that the depth pass of a light is over. The depth passes of
    /// different lights may come in any order.
    pub fn finish_depth_pass(&mut self, light: usize)
        requires
            light < old(self).rendered.len(),
        ensures
            final(self).rendered@ == old(self).rendered@.update(light as int, true),
    {
        self.rendered.set(light, true);
    }

    /// Whether the colour pass may read the shadow maps: only once the
    /// depth pass of every light is over.
    pub fn may_shade(&self) -> (r: bool)
        ensures
            r == self.complete(),
    {
        let mut i: usize = 0;
        while i < self.rendered.len()
            invariant
                i <= self.rendered.len(),
                forall|j: int| 0 <= j < i ==> #[trigger] self.rendered[j],
            decreases self.rendered.len() - i,
        {
            if !self.rendered[i] {
                return false;
            }
            i = i + 1;
        }
        true
    }
}

} // verus!
