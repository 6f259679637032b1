use space_sim::render::{gravity_workgroups, render_plan, FrameInputs, Pipeline, RenderStep, VertexSource};
use space_sim::trail::{Span, TrailHistory};

fn frame(indexed: bool) -> FrameInputs {
    FrameInputs { indexed, num_to_draw: 6144, instances: 52, num_stars: 5000 }
}

fn span(start: u32, end: u32) -> Span {
    Span { start, end }
}

#[test]
fn workgroup_counts() {
    assert_eq!(gravity_workgroups(0), 0);
    assert_eq!(gravity_workgroups(1), 1);
    assert_eq!(gravity_workgroups(52), 1);
    assert_eq!(gravity_workgroups(64), 1);
    assert_eq!(gravity_workgroups(65), 2);
    assert_eq!(gravity_workgroups(u32::MAX - 63), 67108863);
}

fn scene_prefix() -> Vec<RenderStep> {
    vec![
        RenderStep::SetPipeline(Pipeline::Bodies),
        RenderStep::SetCameraBindGroup,
        RenderStep::SetPipeline(Pipeline::Stars),
        RenderStep::SetVertexBuffer { slot: 0, source: VertexSource::Stars },
        RenderStep::Draw { vertices: span(0, 5000), instances: span(0, 1) },
        RenderStep::SetPipeline(Pipeline::Bodies),
        RenderStep::SetCameraBindGroup,
        RenderStep::SetVertexBuffer { slot: 0, source: VertexSource::Mesh },
        RenderStep::SetVertexBuffer { slot: 1, source: VertexSource::Bodies },
    ]
}

#[test]
fn indexed_frame_with_trails() {
    let mut trail: TrailHistory<u32> = TrailHistory::new(2);
    trail.update(&vec![1, 2]);
    trail.update(&vec![3]);
    let steps = render_plan(&frame(true), Some(&trail));
    let mut expected = scene_prefix();
    expected.extend(vec![
        RenderStep::SetIndexBuffer,
        RenderStep::DrawIndexed { indices: span(0, 6144), instances: span(0, 52) },
        RenderStep::SetPipeline(Pipeline::Trails),
        RenderStep::SetVertexBuffer { slot: 0, source: VertexSource::Trail },
        RenderStep::Draw { vertices: span(0, 2), instances: span(0, 1) },
        RenderStep::Draw { vertices: span(2, 3), instances: span(0, 1) },
    ]);
    assert_eq!(steps, expected);
}

#[test]
fn indexed_frame_without_trails() {
    let steps = render_plan::<u32>(&frame(true), None);
    let mut expected = scene_prefix();
    expected.extend(vec![
        RenderStep::SetIndexBuffer,
        RenderStep::DrawIndexed { indices: span(0, 6144), instances: span(0, 52) },
        RenderStep::SetPipeline(Pipeline::Trails),
    ]);
    assert_eq!(steps, expected);
}

#[test]
fn unindexed_frame_with_trails() {
    let mut trail: TrailHistory<u32> = TrailHistory::new(1);
    trail.update(&vec![7]);
    let steps = render_plan(&frame(false), Some(&trail));
    let mut expected = scene_prefix();
    expected.extend(vec![
        RenderStep::ReportDraw { vertex_count: 6144, instance_count: 52 },
        RenderStep::Draw { vertices: span(0, 6144), instances: span(0, 52) },
        RenderStep::SetPipeline(Pipeline::Trails),
        RenderStep::SetVertexBuffer { slot: 0, source: VertexSource::Trail },
        RenderStep::Draw { vertices: span(0, 1), instances: span(0, 1) },
        RenderStep::SetPipeline(Pipeline::Trails),
        RenderStep::SetVertexBuffer { slot: 0, source: VertexSource::Trail },
        RenderStep::Draw { vertices: span(0, 1), instances: span(0, 1) },
    ]);
    assert_eq!(steps, expected);
}

#[test]
fn hidden_trails_never_bind_the_trail_buffer() {
    for indexed in [true, false] {
        let steps = render_plan::<u32>(&frame(indexed), None);
        assert!(!steps.iter().any(|s| matches!(s, RenderStep::SetVertexBuffer { source: VertexSource::Trail, .. })));
    }
}
