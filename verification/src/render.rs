//! What one frame asks of the GPU, in order: the gravity dispatch and the
//! draw calls of the render pass. Executing the steps is left to the caller.
use vstd::prelude::*;
use crate::trail::{Span, TrailHistory, trail_ranges, total_len};

verus! {

/// Number of bodies one gravity workgroup handles.
pub const WORKGROUP_SIZE: u32 = 64;

/// The render pipelines of a frame.
#[derive(Debug, Clone, Copy, PartialEq, Eq, Structural)]
pub enum Pipeline {
    Bodies,
    Stars,
    Trails,
}

/// The vertex buffers a draw can read.
#[derive(Debug, Clone, Copy, PartialEq, Eq, Structural)]
pub enum VertexSource {
    Stars,
    Mesh,
    Bodies,
    Trail,
}

/// One command of the render pass.
#[derive(Debug, Clone, Copy, PartialEq, Eq, Structural)]
pub enum RenderStep {
    SetPipeline(Pipeline),
    SetCameraBindGroup,
    SetVertexBuffer { slot: u32, source: VertexSource },
    SetIndexBuffer,
    Draw { vertices: Span, instances: Span },
    DrawIndexed { indices: Span, instances: Span },
    /// Report the size of an unindexed body draw.
    ReportDraw { vertex_count: u32, instance_count: u32 },
}

/// What the frame draws from: whether the body mesh has an index buffer, how
/// many indices (or vertices) it draws, the number of bodies, and the number
/// of stars.
pub struct FrameInputs {
    pub indexed: bool,
    pub num_to_draw: u32,
    pub instances: u32,
    pub num_stars: u32,
}

/// Number of gravity workgroups for `instances` bodies: the fewest that
/// give every body a thread.
pub open spec fn workgroups_for(instances: nat) -> nat {
    ((instances + WORKGROUP_SIZE - 1) / (WORKGROUP_SIZE as int)) as nat
}

/// One draw of every range in `ranges`, one instance each, in order.
pub open spec fn range_draws(ranges: Seq<Span>) -> Seq<RenderStep> {
    Seq::new(ranges.len(), |k: int| RenderStep::Draw { vertices: ranges[k], instances: Span { start: 0, end: 1 } })
}

/// The render-pass steps that draw the stars and set up the body buffers.
pub open spec fn scene_prefix(f: FrameInputs) -> Seq<RenderStep> {
    seq![
        RenderStep::SetPipeline(Pipeline::Bodies),
        RenderStep::SetCameraBindGroup,
        RenderStep::SetPipeline(Pipeline::Stars),
        RenderStep::SetVertexBuffer { slot: 0, source: VertexSource::Stars },
        RenderStep::Draw { vertices: Span { start: 0, end: f.num_stars }, instances: Span { start: 0, end: 1 } },
        RenderStep::SetPipeline(Pipeline::Bodies),
        RenderStep::SetCameraBindGroup,
        RenderStep::SetVertexBuffer { slot: 0, source: VertexSource::Mesh },
        RenderStep::SetVertexBuffer { slot: 1, source: VertexSource::Bodies },
    ]
}

/// The steps that draw the bodies: indexed where the mesh has an index
/// buffer; otherwise unindexed, reported, and followed by one draw of the
/// whole trail vertex list where trails are shown.
pub open spec fn body_steps(f: FrameInputs, trail: Option<(u32, Seq<Span>)>) -> Seq<RenderStep> {
    if f.indexed {
        seq![
            RenderStep::SetIndexBuffer,
            RenderStep::DrawIndexed { indices: Span { start: 0, end: f.num_to_draw }, instances: Span { start: 0, end: f.instances } },
        ]
    } else {
        seq![
            RenderStep::ReportDraw { vertex_count: f.num_to_draw, instance_count: f.instances },
            RenderStep::Draw { vertices: Span { start: 0, end: f.num_to_draw }, instances: Span { start: 0, end: f.instances } },
            RenderStep::SetPipeline(Pipeline::Trails),
        ] + match trail {
            Some((n, _)) => seq![
                RenderStep::SetVertexBuffer { slot: 0, source: VertexSource::Trail },
                RenderStep::Draw { vertices: Span { start: 0, end: n }, instances: Span { start: 0, end: 1 } },
            ],
            None => Seq::empty(),
        }
    }
}

/// The steps that draw the trails after the bodies: one draw per trail.
pub open spec fn trail_steps(trail: Option<(u32, Seq<Span>)>) -> Seq<RenderStep> {
    seq![RenderStep::SetPipeline(Pipeline::Trails)] + match trail {
        Some((_, ranges)) => seq![RenderStep::SetVertexBuffer { slot: 0, source: VertexSource::Trail }]
            + range_draws(ranges),
        None => Seq::empty(),
    }
}

/// All steps of the render pass.
pub open spec fn render_steps(f: FrameInputs, trail: Option<(u32, Seq<Span>)>) -> Seq<RenderStep> {
    scene_prefix(f) + body_steps(f, trail) + trail_steps(trail)
}

/// The vertex count and ranges of the shown trails, if any.
pub open spec fn trail_view<P>(trail: Option<&TrailHistory<P>>) -> Option<(u32, Seq<Span>)> {
    match trail {
        Some(t) => Some((t.num_vertices, t.ranges@)),
        None => None,
    }
}

/// Number of gravity workgroups to dispatch for `instances` bodies.
pub fn gravity_workgroups(instances: u32) -> (workgroups: u32)
    requires
        instances + WORKGROUP_SIZE - 1 <= u32::MAX,
    ensures
        workgroups == workgroups_for(instances as nat),
{
    (instances + (WORKGROUP_SIZE - 1)) / WORKGROUP_SIZE
}

/// The steps of the render pass of one frame.
pub fn render_plan<P>(frame: &FrameInputs, trail: Option<&TrailHistory<P>>) -> (steps: Vec<RenderStep>)
    ensures
        steps@ == render_steps(*frame, trail_view(trail)),
{
    let mut steps: Vec<RenderStep> = Vec::new();
    steps.push(RenderStep::SetPipeline(Pipeline::Bodies));
    steps.push(RenderStep::SetCameraBindGroup);
    steps.push(RenderStep::SetPipeline(Pipeline::Stars));
    steps.push(RenderStep::SetVertexBuffer { slot: 0, source: VertexSource::Stars });
    steps.push(RenderStep::Draw { vertices: Span { start: 0, end: frame.num_stars }, instances: Span { start: 0, end: 1 } });
    steps.push(RenderStep::SetPipeline(Pipeline::Bodies));
    steps.push(RenderStep::SetCameraBindGroup);
    steps.push(RenderStep::SetVertexBuffer { slot: 0, source: VertexSource::Mesh });
    steps.push(RenderStep::SetVertexBuffer { slot: 1, source: VertexSource::Bodies });
    let ghost prefix = steps@;
    assert(prefix == scene_prefix(*frame));
    if frame.indexed {
        steps.push(RenderStep::SetIndexBuffer);
        steps.push(
            RenderStep::DrawIndexed { indices: Span { start: 0, end: frame.num_to_draw }, instances: Span { start: 0, end: frame.instances } },
        );
    } else {
        steps.push(RenderStep::ReportDraw { vertex_count: frame.num_to_draw, instance_count: frame.instances });
        steps.push(RenderStep::Draw { vertices: Span { start: 0, end: frame.num_to_draw }, instances: Span { start: 0, end: frame.instances } });
        steps.push(RenderStep::SetPipeline(Pipeline::Trails));
        match trail {
            Some(t) => {
                steps.push(RenderStep::SetVertexBuffer { slot: 0, source: VertexSource::Trail });
                steps.push(RenderStep::Draw { vertices: Span { start: 0, end: t.num_vertices }, instances: Span { start: 0, end: 1 } });
            },
            None => {},
        }
    }
    assert(steps@ =~= prefix + body_steps(*frame, trail_view(trail)));
    let ghost middle = steps@;
    steps.push(RenderStep::SetPipeline(Pipeline::Trails));
    match trail {
        Some(t) => {
            steps.push(RenderStep::SetVertexBuffer { slot: 0, source: VertexSource::Trail });
            let ghost before = steps@;
            let n = t.ranges.len();
            let mut k: usize = 0;
            while k < n
                invariant
                    n == t.ranges@.len(),
                    k <= n,
                    steps@ == before + range_draws(t.ranges@).take(k as int),
                decreases n - k,
            {
                let r = t.ranges[k];
                steps.push(RenderStep::Draw { vertices: r, instances: Span { start: 0, end: 1 } });
                assert(range_draws(t.ranges@).take(k + 1) =~= range_draws(t.ranges@).take(k as int).push(
                    RenderStep::Draw { vertices: r, instances: Span { start: 0, end: 1 } },
                ));
                k = k + 1;
            }
            assert(range_draws(t.ranges@).take(n as int) =~= range_draws(t.ranges@));
        },
        None => {},
    }
    assert(steps@ =~= middle + trail_steps(trail_view(trail)));
    steps
}

/// The gravity dispatch gives every body a thread, with no workgroup more
/// than that needs.
pub proof fn lemma_workgroups_cover_bodies(instances: nat)
    ensures
        workgroups_for(instances) * WORKGROUP_SIZE >= instances,
        workgroups_for(instances) > 0 ==> (workgroups_for(instances) - 1) * WORKGROUP_SIZE
            < instances,
{
    let w = workgroups_for(instances);
    let x = instances + WORKGROUP_SIZE - 1;
    vstd::arithmetic::div_mod::lemma_fundamental_div_mod(x as int, WORKGROUP_SIZE as int);
    assert(x == w * WORKGROUP_SIZE + x % (WORKGROUP_SIZE as int));
    assert(0 <= x % (WORKGROUP_SIZE as int) < WORKGROUP_SIZE);
}

/// Where the shown trails are laid out as an update leaves them, the trail
/// part of the render pass binds the trail buffer once and then draws each
/// trail once, in trail order, over its own range, which lies within the
/// trail vertex list.
pub proof fn lemma_trail_draws_in_bounds<P>(trails: Seq<Seq<P>>)
    requires
        total_len(trails) <= u32::MAX,
    ensures
        ({
            let steps = trail_steps(Some((total_len(trails) as u32, trail_ranges(trails))));
            &&& steps.len() == trails.len() + 2
            &&& steps[1] == RenderStep::SetVertexBuffer { slot: 0, source: VertexSource::Trail }
            &&& forall|k: int|
                0 <= k < trails.len() ==> {
                    let r = trail_ranges(trails)[k];
                    &&& #[trigger] steps[k + 2] == RenderStep::Draw { vertices: r, instances: Span { start: 0, end: 1 } }
                    &&& r.start <= r.end <= total_len(trails)
                    &&& r.end - r.start == trails[k].len()
                }
        }),
{
    crate::trail::lemma_ranges_cover_samples(trails);
    let steps = trail_steps(Some((total_len(trails) as u32, trail_ranges(trails))));
    assert forall|k: int| 0 <= k < trails.len() implies {
        let r = trail_ranges(trails)[k];
        &&& #[trigger] steps[k + 2] == RenderStep::Draw { vertices: r, instances: Span { start: 0, end: 1 } }
        &&& r.start <= r.end <= total_len(trails)
        &&& r.end - r.start == trails[k].len()
    } by {
        assert(trail_ranges(trails)[k].end - trail_ranges(trails)[k].start == trails[k].len());
    }
}

/// With trails hidden, no step of the render pass reads the trail buffer.
pub proof fn lemma_hidden_trails_not_drawn(f: FrameInputs)
    ensures
        forall|i: int|
            0 <= i < render_steps(f, None).len() ==> !(#[trigger] render_steps(f, None)[i] matches RenderStep::SetVertexBuffer {
                source: VertexSource::Trail,
                ..
            }),
{
    let steps = render_steps(f, None);
    assert forall|i: int| 0 <= i < steps.len() implies !(#[trigger] steps[i] matches RenderStep::SetVertexBuffer {
        source: VertexSource::Trail,
        ..
    }) by {
        if i >= 9 {
            let rest = body_steps(f, None) + trail_steps(None);
            assert(steps[i] == rest[i - 9]);
        }
    }
}

/// Every frame draws all its stars and all its bodies: step 4 draws the
/// whole star buffer once, after binding it under the star pipeline; step 10
/// draws the whole body mesh once per body, indexed where the mesh has an
/// index buffer (bound just before) and unindexed otherwise; and no indexed
/// draw of the pass covers anything else.
pub proof fn lemma_frame_draws_everything(f: FrameInputs, trail: Option<(u32, Seq<Span>)>)
    ensures
        ({
            let steps = render_steps(f, trail);
            &&& steps.len() > 10
            &&& steps[2] == RenderStep::SetPipeline(Pipeline::Stars)
            &&& steps[3] == RenderStep::SetVertexBuffer { slot: 0, source: VertexSource::Stars }
            &&& steps[4] == RenderStep::Draw {
                vertices: Span { start: 0, end: f.num_stars },
                instances: Span { start: 0, end: 1 },
            }
            &&& steps[7] == RenderStep::SetVertexBuffer { slot: 0, source: VertexSource::Mesh }
            &&& steps[8] == RenderStep::SetVertexBuffer { slot: 1, source: VertexSource::Bodies }
            &&& f.indexed ==> steps[9] == RenderStep::SetIndexBuffer && steps[10]
                == RenderStep::DrawIndexed {
                indices: Span { start: 0, end: f.num_to_draw },
                instances: Span { start: 0, end: f.instances },
            }
            &&& !f.indexed ==> steps[10] == RenderStep::Draw {
                vertices: Span { start: 0, end: f.num_to_draw },
                instances: Span { start: 0, end: f.instances },
            }
            &&& forall|k: int|
                0 <= k < steps.len() && (#[trigger] steps[k] is DrawIndexed) ==> steps[k]
                    == RenderStep::DrawIndexed {
                    indices: Span { start: 0, end: f.num_to_draw },
                    instances: Span { start: 0, end: f.instances },
                }
        }),
{
    let steps = render_steps(f, trail);
    let pre = scene_prefix(f);
    let body = body_steps(f, trail);
    let rest = trail_steps(trail);
    assert(steps == pre + body + rest);
    assert(pre.len() == 9);
    assert(steps[9] == body[0]);
    assert(steps[10] == body[1]);
    assert forall|k: int| 0 <= k < steps.len() && (#[trigger] steps[k] is DrawIndexed) implies steps[k]
        == RenderStep::DrawIndexed {
        indices: Span { start: 0, end: f.num_to_draw },
        instances: Span { start: 0, end: f.instances },
    } by {
        if k < 9 {
            assert(steps[k] == pre[k]);
        } else if k < 9 + body.len() {
            assert(steps[k] == body[k - 9]);
        } else {
            let r = k - 9 - body.len();
            assert(steps[k] == rest[r]);
            if r > 0 {
                match trail {
                    Some((_, ranges)) => {
                        if r > 1 {
                            assert(rest[r] == range_draws(ranges)[r - 2]);
                        }
                    },
                    None => {},
                }
            }
        }
    }
}

/// Shown trails are drawn at the end of the pass: the trail pipeline is set,
/// the trail buffer bound, and then each trail range is drawn once, in
/// order, with one instance. An unindexed body draw is followed by one draw
/// of the whole trail vertex list. Hidden trails end the pass with the trail
/// pipeline set and nothing drawn after it.
pub proof fn lemma_frame_draws_trails(f: FrameInputs, trail: Option<(u32, Seq<Span>)>)
    ensures
        ({
            let steps = render_steps(f, trail);
            &&& trail matches Some((n, ranges)) ==> {
                let first = steps.len() - ranges.len();
                &&& first >= 11
                &&& steps[first - 2] == RenderStep::SetPipeline(Pipeline::Trails)
                &&& steps[first - 1] == RenderStep::SetVertexBuffer {
                    slot: 0,
                    source: VertexSource::Trail,
                }
                &&& forall|k: int|
                    0 <= k < ranges.len() ==> #[trigger] steps[first + k] == RenderStep::Draw {
                        vertices: ranges[k],
                        instances: Span { start: 0, end: 1 },
                    }
                &&& !f.indexed ==> {
                    &&& steps[11] == RenderStep::SetPipeline(Pipeline::Trails)
                    &&& steps[12] == RenderStep::SetVertexBuffer { slot: 0, source: VertexSource::Trail }
                    &&& steps[13] == RenderStep::Draw {
                        vertices: Span { start: 0, end: n },
                        instances: Span { start: 0, end: 1 },
                    }
                }
            }
            &&& trail is None ==> steps.last() == RenderStep::SetPipeline(Pipeline::Trails)
        }),
{
    let steps = render_steps(f, trail);
    let pre = scene_prefix(f);
    let body = body_steps(f, trail);
    let rest = trail_steps(trail);
    assert(steps == pre + body + rest);
    match trail {
        Some((n, ranges)) => {
            let first = steps.len() - ranges.len();
            assert(rest.len() == ranges.len() + 2);
            assert(steps[first - 2] == rest[0]);
            assert(steps[first - 1] == rest[1]);
            assert forall|k: int| 0 <= k < ranges.len() implies #[trigger] steps[first + k]
                == RenderStep::Draw { vertices: ranges[k], instances: Span { start: 0, end: 1 } } by {
                assert(steps[first + k] == rest[k + 2]);
                assert(rest[k + 2] == range_draws(ranges)[k]);
            }
            if !f.indexed {
                assert(steps[11] == body[2]);
                assert(steps[12] == body[3]);
                assert(steps[13] == body[4]);
            }
        },
        None => {
            assert(steps.last() == rest[0]);
        },
    }
}

} // verus!
