//! The decisions of the single-window runner: how it answers window events,
//! surface states and settings. The runner itself performs the answers.
use vstd::prelude::*;

verus! {

/// Controls when another frame is requested after rendering.
#[derive(Debug, Default, Clone, Copy, PartialEq, Eq, Hash, Structural)]
pub enum RedrawMode {
    /// Render only for the initial frame, resizing, or an explicit
    /// [`EventAction::Redraw`].
    #[default]
    OnDemand,
    /// Request another redraw after every presented frame.
    Continuous,
}

/// An action requested in response to a window event.
#[derive(Debug, Default, Clone, Copy, PartialEq, Eq, Hash, Structural)]
pub enum EventAction {
    /// No action.
    #[default]
    NoAction,
    Redraw,
    Exit,
}

/// The window events the runner tells apart.
#[derive(Debug, Clone, Copy, PartialEq, Eq, Structural)]
pub enum WindowEventKind {
    CloseRequested,
    RedrawRequested,
    Resized,
    ScaleFactorChanged,
    Other,
}

/// What the runner does with a window event before the application sees it.
#[derive(Debug, Clone, Copy, PartialEq, Eq, Structural)]
pub enum EventResponse {
    /// Leave the event loop.
    Exit,
    /// Render a frame.
    Render,
    /// Optionally resize the surface, then pass the event to the
    /// application; `request_redraw` is the runner's own wish.
    Forward { resize: bool, request_redraw: bool },
}

/// The runner's answer to a window event of its own window.
pub open spec fn event_response(event: WindowEventKind) -> EventResponse {
    match event {
        WindowEventKind::CloseRequested => EventResponse::Exit,
        WindowEventKind::RedrawRequested => EventResponse::Render,
        WindowEventKind::Resized => EventResponse::Forward { resize: true, request_redraw: true },
        WindowEventKind::ScaleFactorChanged => EventResponse::Forward { resize: true, request_redraw: true },
        WindowEventKind::Other => EventResponse::Forward { resize: false, request_redraw: false },
    }
}

/// The runner's answer to a window event of its own window: only a resize
/// (or a change of scale factor, which resizes the surface) asks for a
/// redraw of its own.
pub fn respond_to_event(event: WindowEventKind) -> (r: EventResponse)
    ensures
        r == event_response(event),
{
    match event {
        WindowEventKind::CloseRequested => EventResponse::Exit,
        WindowEventKind::RedrawRequested => EventResponse::Render,
        WindowEventKind::Resized => EventResponse::Forward { resize: true, request_redraw: true },
        WindowEventKind::ScaleFactorChanged => EventResponse::Forward { resize: true, request_redraw: true },
        WindowEventKind::Other => EventResponse::Forward { resize: false, request_redraw: false },
    }
}

/// What follows a forwarded event once the application answered it.
#[derive(Debug, Clone, Copy, PartialEq, Eq, Structural)]
pub enum FollowUp {
    Exit,
    RequestRedraw,
    Nothing,
}

/// The application's action decides, and without one the runner's own wish.
pub open spec fn follow_up_spec(request_redraw: bool, action: EventAction) -> FollowUp {
    match action {
        EventAction::Exit => FollowUp::Exit,
        EventAction::Redraw => FollowUp::RequestRedraw,
        EventAction::NoAction => if request_redraw {
            FollowUp::RequestRedraw
        } else {
            FollowUp::Nothing
        },
    }
}

/// Combines the runner's own redraw wish with the application's action.
pub fn follow_up(request_redraw: bool, action: EventAction) -> (r: FollowUp)
    ensures
        r == follow_up_spec(request_redraw, action),
{
    match action {
        EventAction::NoAction => {
            if request_redraw {
                FollowUp::RequestRedraw
            } else {
                FollowUp::Nothing
            }
        },
        EventAction::Redraw => FollowUp::RequestRedraw,
        EventAction::Exit => FollowUp::Exit,
    }
}

/// A render attempt is followed by a redraw request when it must be
/// retried, or in continuous mode when it presented a frame.
pub open spec fn redraws_after_render(retry: bool, mode: RedrawMode, presented: bool) -> bool {
    retry || (mode == RedrawMode::Continuous && presented)
}

/// In on-demand mode a window event leads to a redraw request only when it
/// resizes the surface or the application asks for a redraw, and a render
/// leads to another only when it must be retried; in continuous mode every
/// presented frame is followed by a redraw request.
pub proof fn lemma_redraw_policy(event: WindowEventKind, action: EventAction, retry: bool, presented: bool)
    ensures
        event_response(event) matches EventResponse::Forward { request_redraw, .. } ==> (follow_up_spec(request_redraw, action)
            == FollowUp::RequestRedraw <==> (action == EventAction::Redraw || (action == EventAction::NoAction && (
        event == WindowEventKind::Resized || event == WindowEventKind::ScaleFactorChanged)))),
        redraws_after_render(retry, RedrawMode::OnDemand, presented) == retry,
        presented ==> redraws_after_render(retry, RedrawMode::Continuous, presented),
{
}

/// The application's action comes first: `Exit` ends the event loop
/// whatever the runner wished, `Redraw` always requests a redraw, and without
/// an action the runner's own wish is followed. Nothing follows exactly when
/// neither the runner nor the application asks for anything.
pub proof fn lemma_application_action_decides(request_redraw: bool, action: EventAction)
    ensures
        (follow_up_spec(request_redraw, action) == FollowUp::Exit) <==> action == EventAction::Exit,
        action == EventAction::Redraw ==> follow_up_spec(request_redraw, action) == FollowUp::RequestRedraw,
        request_redraw && action != EventAction::Exit ==> follow_up_spec(request_redraw, action)
            == FollowUp::RequestRedraw,
        (follow_up_spec(request_redraw, action) == FollowUp::Nothing) <==> (!request_redraw && action
            == EventAction::NoAction),
{
}

/// A render attempt that must be retried is always followed by a redraw
/// request, in every redraw mode; without a retry, only a presented frame in
/// continuous mode is.
pub proof fn lemma_retry_always_redraws(retry: bool, mode: RedrawMode, presented: bool)
    ensures
        retry ==> redraws_after_render(retry, mode, presented),
        !retry ==> (redraws_after_render(retry, mode, presented) <==> (mode == RedrawMode::Continuous && presented)),
{
}

/// Whether to request another frame after a render attempt: when the
/// attempt must be retried, or in continuous mode after every presented frame.
pub fn redraw_after_render(retry: bool, mode: RedrawMode, presented: bool) -> (r: bool)
    ensures
        r == redraws_after_render(retry, mode, presented),
{
    retry || (mode == RedrawMode::Continuous && presented)
}

/// The state of the surface texture that the runner asked for.
#[derive(Debug, Clone, Copy, PartialEq, Eq, Structural)]
pub enum SurfaceStatus {
    Success,
    Suboptimal,
    Timeout,
    Occluded,
    Outdated,
    Lost,
    Validation,
}

/// How the runner continues a frame after asking for the surface texture.
#[derive(Debug, Clone, Copy, PartialEq, Eq, Structural)]
pub enum SurfaceStep {
    /// Render to the texture; reconfigure afterwards when it is suboptimal.
    Render { reconfigure_after: bool },
    /// Give up this frame; `request_redraw` says whether to try again.
    Skip { request_redraw: bool },
    /// Reconfigure the surface, then try again.
    Reconfigure,
    /// Create a new surface, then try again.
    Recreate,
    /// Fail with a surface validation error.
    Fail,
}

/// The step that a surface status calls for.
pub fn surface_step(status: SurfaceStatus) -> (r: SurfaceStep)
    ensures
        r == match status {
            SurfaceStatus::Success => SurfaceStep::Render { reconfigure_after: false },
            SurfaceStatus::Suboptimal => SurfaceStep::Render { reconfigure_after: true },
            SurfaceStatus::Timeout => SurfaceStep::Skip { request_redraw: true },
            SurfaceStatus::Occluded => SurfaceStep::Skip { request_redraw: false },
            SurfaceStatus::Outdated => SurfaceStep::Reconfigure,
            SurfaceStatus::Lost => SurfaceStep::Recreate,
            SurfaceStatus::Validation => SurfaceStep::Fail,
        },
{
    match status {
        SurfaceStatus::Success => SurfaceStep::Render { reconfigure_after: false },
        SurfaceStatus::Suboptimal => SurfaceStep::Render { reconfigure_after: true },
        SurfaceStatus::Timeout => SurfaceStep::Skip { request_redraw: true },
        SurfaceStatus::Occluded => SurfaceStep::Skip { request_redraw: false },
        SurfaceStatus::Outdated => SurfaceStep::Reconfigure,
        SurfaceStatus::Lost => SurfaceStep::Recreate,
        SurfaceStatus::Validation => SurfaceStep::Fail,
    }
}

/// The surface size to configure, or `None` when the window has no area and
/// the surface must stay unconfigured.
pub fn surface_extent(width: u32, height: u32) -> (r: Option<(u32, u32)>)
    ensures
        (width == 0 || height == 0) ==> r is None,
        !(width == 0 || height == 0) ==> r == Some((width, height)),
{
    if width == 0 || height == 0 {
        None
    } else {
        Some((width, height))
    }
}

/// The size asked of the surface's default configuration: at least one pixel each way.
pub fn initial_surface_size(width: u32, height: u32) -> (r: (u32, u32))
    ensures
        r.0 == if width >= 1 { width } else { 1 },
        r.1 == if height >= 1 { height } else { 1 },
{
    (if width >= 1 { width } else { 1 }, if height >= 1 { height } else { 1 })
}

/// Whether a sample count can be rendered and presented: the format must
/// support the count, and counts above one must be resolvable.
pub fn multisampling_supported(count_supported: bool, sample_count: u32, resolve_supported: bool) -> (r: bool)
    ensures
        r == (count_supported && (sample_count == 1 || resolve_supported)),
{
    count_supported && (sample_count == 1 || resolve_supported)
}

/// Whether a separate multisampled render target is needed.
pub fn needs_multisample_target(sample_count: u32) -> (r: bool)
    ensures
        r == (sample_count != 1),
{
    sample_count != 1
}

} // verus!
