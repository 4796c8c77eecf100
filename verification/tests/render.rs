use daub::image::atlas_runs;
use daub::render::{
    draw_count, frame_is_empty, plan_layers, render_commands, FrameLayer, LayerInput, PixelRect,
    RenderCommand, RenderPipelineCache, RenderStage, RendererConfig,
};
use daub::vertex::{align_vec, grown_vertex_capacity, VertexStaging, VertexWriter};

#[test]
fn mod_vertex_writer_only_reports_bytes_from_its_batch() {
    let mut bytes = vec![0xFF];

    {
        let mut writer = VertexWriter::new(bytes);
        writer.write(&[0x0102_0304_u32]);
        writer.write_bytes(&[5, 6]);

        assert_eq!(writer.len(), size_of::<u32>() + 2);
        assert!(!writer.is_empty());
        bytes = writer.into_bytes();
    }

    assert_eq!(bytes.len(), 1 + size_of::<u32>() + 2);
    assert_eq!(bytes[0], 0xFF);
    assert_eq!(&bytes[1..5], &0x0102_0304_u32.to_ne_bytes());
    assert_eq!(&bytes[5..], &[5, 6]);
}

#[test]
fn clamped_scissor_edges_form_a_pixel_rect() {
    // A rectangle reaching from x = -10 to 390 and from y = 20 to 120 in an
    // 800 x 600 target, already clamped and rounded outwards.
    assert_eq!(
        PixelRect::from_edges(0, 20, 390, 120),
        Some(PixelRect { x: 0, y: 20, width: 390, height: 100 })
    );
}

#[test]
fn empty_scissor_edges_are_rejected() {
    assert_eq!(PixelRect::from_edges(0, 0, 0, 20), None);
    assert_eq!(PixelRect::from_edges(5, 9, 10, 9), None);
}

#[test]
fn full_target_needs_pixels() {
    assert_eq!(PixelRect::full_target(800, 600), Some(PixelRect { x: 0, y: 0, width: 800, height: 600 }));
    assert_eq!(PixelRect::full_target(0, 600), None);
    assert_eq!(PixelRect::full_target(800, 0), None);
}

#[test]
fn align_pads_with_zeros_to_four_bytes() {
    let mut bytes = vec![1, 2, 3, 4, 5];
    align_vec(&mut bytes);
    assert_eq!(bytes, vec![1, 2, 3, 4, 5, 0, 0, 0]);
    align_vec(&mut bytes);
    assert_eq!(bytes.len(), 8);
    let mut empty: Vec<u8> = Vec::new();
    align_vec(&mut empty);
    assert!(empty.is_empty());
}

#[test]
fn vertex_buffer_grows_to_the_next_power_of_two() {
    assert_eq!(grown_vertex_capacity(100, 64), Some(128));
    assert_eq!(grown_vertex_capacity(64, 64), None);
    assert_eq!(grown_vertex_capacity(1, 0), Some(1));
    assert_eq!(grown_vertex_capacity(128, 100), Some(128));
}

#[test]
fn staged_batches_start_aligned_after_each_other() {
    let mut staging = VertexStaging::new();
    assert!(staging.is_empty());
    assert_eq!(staging.append_batch(&[1, 2, 3]), Some((0, 3)));
    assert_eq!(staging.append_batch(&[]), None);
    assert_eq!(staging.append_batch(&[4, 5, 6, 7, 8]), Some((4, 9)));
    assert_eq!(staging.bytes(), &[1, 2, 3, 0, 4, 5, 6, 7, 8]);
    staging.finish();
    assert_eq!(staging.len(), 12);
    assert_eq!(&staging.bytes()[9..], &[0, 0, 0]);
    staging.clear();
    assert!(staging.is_empty());
}

fn rect(x: u32, y: u32, width: u32, height: u32) -> PixelRect {
    PixelRect { x, y, width, height }
}

#[test]
fn plan_skips_layers_without_viewport_scissor_or_primitives() {
    let inputs = vec![
        LayerInput { viewport: Some(rect(100, 50, 400, 200)), scissor: Some(rect(120, 70, 360, 160)), batch_lengths: vec![1] },
        LayerInput { viewport: None, scissor: Some(rect(0, 0, 8, 8)), batch_lengths: vec![3] },
        LayerInput { viewport: Some(rect(0, 0, 8, 8)), scissor: None, batch_lengths: vec![3] },
        LayerInput { viewport: Some(rect(0, 0, 8, 8)), scissor: Some(rect(0, 0, 8, 8)), batch_lengths: vec![0, 0] },
        LayerInput { viewport: Some(rect(0, 0, 800, 600)), scissor: Some(rect(0, 0, 800, 600)), batch_lengths: vec![0, 2, 0, 5] },
    ];
    let pending = plan_layers(&inputs);
    assert_eq!(pending.len(), 2);
    assert_eq!(pending[0].layer, 0);
    assert_eq!(pending[0].viewport, rect(100, 50, 400, 200));
    assert_eq!(pending[0].scissor, rect(120, 70, 360, 160));
    assert_eq!(pending[0].batches, vec![0]);
    assert_eq!(pending[1].layer, 4);
    assert_eq!(pending[1].batches, vec![1, 3]);
}

#[test]
fn commands_set_state_only_when_it_changes() {
    let full = rect(0, 0, 400, 200);
    let clip = rect(10, 10, 100, 100);
    let layers = [
        FrameLayer { viewport: full, scissor: full, draw_count: 2 },
        FrameLayer { viewport: full, scissor: full, draw_count: 1 },
        FrameLayer { viewport: full, scissor: clip, draw_count: 1 },
    ];
    let commands = render_commands(&layers);
    assert_eq!(
        commands,
        vec![
            RenderCommand::SetViewport(full),
            RenderCommand::SetScissor(full),
            RenderCommand::Draw { layer: 0, draw: 0 },
            RenderCommand::Draw { layer: 0, draw: 1 },
            RenderCommand::Draw { layer: 1, draw: 0 },
            RenderCommand::SetScissor(clip),
            RenderCommand::Draw { layer: 2, draw: 0 },
        ]
    );
    assert_eq!(draw_count(&layers), 4);
    assert!(!frame_is_empty(&layers));
    assert!(frame_is_empty(&[FrameLayer { viewport: full, scissor: full, draw_count: 0 }]));
    assert!(render_commands(&[]).is_empty());
}

#[test]
fn image_batches_split_where_the_atlas_changes() {
    assert_eq!(atlas_runs(&[7, 7, 3, 3, 3, 7]), vec![(0, 2), (2, 5), (5, 6)]);
    assert_eq!(atlas_runs(&[1]), vec![(0, 1)]);
    assert!(atlas_runs(&[]).is_empty());
}

#[test]
fn pipeline_cache_builds_each_key_once() {
    let mut cache: RenderPipelineCache<String> = RenderPipelineCache::new();
    assert!(cache.is_empty());
    let first = cache.get_or_create(1, || "quad".to_string());
    let again = cache.get_or_create(1, || "other".to_string());
    let second = cache.get_or_create(2, || "image".to_string());
    assert_eq!((first.as_str(), again.as_str(), second.as_str()), ("quad", "quad", "image"));
    assert_eq!(cache.len(), 2);
    let _ = cache.get_or_create(3, || "text".to_string());
    assert_eq!(cache.len(), 3);
    cache.clear();
    assert!(cache.is_empty());
}

#[test]
fn config_defaults_to_single_sampling() {
    let config = RendererConfig::new(wgpu::TextureFormat::Rgba8UnormSrgb);
    assert_eq!(config.sample_count, 1);
    assert_eq!(config.target_format, wgpu::TextureFormat::Rgba8UnormSrgb);
    assert_ne!(RenderStage::Prepare, RenderStage::Render);
}
