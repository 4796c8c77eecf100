use daub::text::{BatchSlots, FontFamily, FontStretch, FontStyle, FontWeight, Shaping, TextWrap};
use daub::window::{
    follow_up, initial_surface_size, multisampling_supported, needs_multisample_target, redraw_after_render,
    respond_to_event, surface_extent, surface_step, EventAction, EventResponse, FollowUp, RedrawMode,
    SurfaceStatus, SurfaceStep, WindowEventKind,
};

#[test]
fn close_exits_and_redraw_renders() {
    assert_eq!(respond_to_event(WindowEventKind::CloseRequested), EventResponse::Exit);
    assert_eq!(respond_to_event(WindowEventKind::RedrawRequested), EventResponse::Render);
    assert_eq!(
        respond_to_event(WindowEventKind::Resized),
        EventResponse::Forward { resize: true, request_redraw: true }
    );
    assert_eq!(
        respond_to_event(WindowEventKind::ScaleFactorChanged),
        EventResponse::Forward { resize: true, request_redraw: true }
    );
    assert_eq!(
        respond_to_event(WindowEventKind::Other),
        EventResponse::Forward { resize: false, request_redraw: false }
    );
}

#[test]
fn application_actions_override_the_runner() {
    assert_eq!(follow_up(false, EventAction::NoAction), FollowUp::Nothing);
    assert_eq!(follow_up(true, EventAction::NoAction), FollowUp::RequestRedraw);
    assert_eq!(follow_up(false, EventAction::Redraw), FollowUp::RequestRedraw);
    assert_eq!(follow_up(true, EventAction::Exit), FollowUp::Exit);
}

#[test]
fn continuous_mode_redraws_after_every_presented_frame() {
    assert!(redraw_after_render(false, RedrawMode::Continuous, true));
    assert!(!redraw_after_render(false, RedrawMode::Continuous, false));
    assert!(!redraw_after_render(false, RedrawMode::OnDemand, true));
    assert!(redraw_after_render(true, RedrawMode::OnDemand, false));
    assert_eq!(RedrawMode::default(), RedrawMode::OnDemand);
    assert_eq!(EventAction::default(), EventAction::NoAction);
}

#[test]
fn surface_states_map_to_steps() {
    assert_eq!(surface_step(SurfaceStatus::Success), SurfaceStep::Render { reconfigure_after: false });
    assert_eq!(surface_step(SurfaceStatus::Suboptimal), SurfaceStep::Render { reconfigure_after: true });
    assert_eq!(surface_step(SurfaceStatus::Timeout), SurfaceStep::Skip { request_redraw: true });
    assert_eq!(surface_step(SurfaceStatus::Occluded), SurfaceStep::Skip { request_redraw: false });
    assert_eq!(surface_step(SurfaceStatus::Outdated), SurfaceStep::Reconfigure);
    assert_eq!(surface_step(SurfaceStatus::Lost), SurfaceStep::Recreate);
    assert_eq!(surface_step(SurfaceStatus::Validation), SurfaceStep::Fail);
}

#[test]
fn surface_sizes_and_sampling() {
    assert_eq!(surface_extent(0, 10), None);
    assert_eq!(surface_extent(640, 480), Some((640, 480)));
    assert_eq!(initial_surface_size(0, 0), (1, 1));
    assert_eq!(initial_surface_size(640, 480), (640, 480));
    assert!(multisampling_supported(true, 1, false));
    assert!(!multisampling_supported(true, 4, false));
    assert!(multisampling_supported(true, 4, true));
    assert!(!multisampling_supported(false, 1, true));
    assert!(!needs_multisample_target(1));
    assert!(needs_multisample_target(4));
}

#[test]
fn text_style_defaults() {
    assert_eq!(FontFamily::default(), FontFamily::SansSerif);
    assert_eq!(FontWeight::default(), FontWeight::normal());
    assert_eq!(FontWeight::normal(), FontWeight(400));
    assert!(FontWeight::thin() < FontWeight::black());
    assert_eq!(FontWeight::bold(), FontWeight(700));
    assert_eq!(FontStretch::default(), FontStretch::Normal);
    assert_eq!(FontStyle::default(), FontStyle::Normal);
    assert_eq!(TextWrap::default(), TextWrap::WordOrGlyph);
    assert_eq!(Shaping::default(), Shaping::Advanced);
    assert_ne!(FontFamily::Name("Inter".to_string()), FontFamily::Serif);
}

#[test]
fn text_batches_are_reused_across_frames() {
    let mut slots = BatchSlots::new();
    slots.start();
    assert_eq!(slots.next_prepare(), (0, true));
    assert_eq!(slots.next_prepare(), (1, true));
    assert_eq!(slots.next_render(), Some(0));
    assert_eq!(slots.next_render(), Some(1));
    assert_eq!(slots.next_render(), None);
    slots.start();
    assert_eq!(slots.next_prepare(), (0, false));
    assert_eq!(slots.next_render(), Some(0));
}
