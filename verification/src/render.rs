//! Frame planning for the renderer: which layers and batches are prepared,
//! where each batch's vertex bytes lie, and the render-pass state changes
//! that precede each draw.
use std::collections::HashMap;
use vstd::prelude::*;

verus! {

/// The operation a primitive renderer was performing when it failed.
#[derive(Debug, Clone, Copy, PartialEq, Eq, Hash, Structural)]
pub enum RenderStage {
    Prepare,
    Render,
}

/// `wgpu::TextureFormat`, carried through as an opaque value.
#[verifier::external_type_specification]
#[verifier::external_body]
pub struct ExTextureFormat(wgpu::TextureFormat);

/// Configuration that affects render-pipeline compatibility.
///
/// Create a new renderer if either value changes.
#[derive(Debug, Clone, Copy, PartialEq, Eq, Hash)]
pub struct RendererConfig {
    pub target_format: wgpu::TextureFormat,
    pub sample_count: u32,
}

impl RendererConfig {
    /// A single-sampled configuration for `target_format`.
    pub fn new(target_format: wgpu::TextureFormat) -> (config: Self)
        ensures
            config.target_format == target_format,
            config.sample_count == 1,
    {
        RendererConfig { target_format, sample_count: 1 }
    }
}

/// A rectangle of whole physical pixels: a render-pass viewport or scissor.
#[derive(Debug, Clone, Copy, PartialEq, Eq, Structural)]
pub struct PixelRect {
    pub x: u32,
    pub y: u32,
    pub width: u32,
    pub height: u32,
}

impl PixelRect {
    /// The rectangle between edges already clamped to the target and rounded
    /// outwards to whole pixels, or `None` when it covers no pixel.
    pub fn from_edges(left: u32, top: u32, right: u32, bottom: u32) -> (r: Option<PixelRect>)
        ensures
            (right <= left || bottom <= top) ==> r is None,
            !(right <= left || bottom <= top) ==> r == Some(
                PixelRect { x: left, y: top, width: (right - left) as u32, height: (bottom - top) as u32 },
            ),
    {
        if right <= left || bottom <= top {
            return None;
        }
        Some(PixelRect { x: left, y: top, width: right - left, height: bottom - top })
    }

    /// The whole render target, or `None` for a target without pixels.
    pub fn full_target(width: u32, height: u32) -> (r: Option<PixelRect>)
        ensures
            (width > 0 && height > 0) ==> r == Some(PixelRect { x: 0, y: 0, width, height }),
            !(width > 0 && height > 0) ==> r is None,
    {
        if width > 0 && height > 0 {
            Some(PixelRect { x: 0, y: 0, width, height })
        } else {
            None
        }
    }
}

/// What the renderer knows of one scene layer before preparing it: its
/// resolved viewport and scissor, if any, and the length of each batch.
pub struct LayerInput {
    pub viewport: Option<PixelRect>,
    pub scissor: Option<PixelRect>,
    pub batch_lengths: Vec<usize>,
}

/// A layer that will be prepared: which input layer it is, its viewport and
/// scissor, and the indices of its non-empty batches in batch order.
pub struct PendingLayer {
    pub layer: usize,
    pub viewport: PixelRect,
    pub scissor: PixelRect,
    pub batches: Vec<usize>,
}

/// The indices, in order, of the non-empty batches among `lengths[from..]`.
pub open spec fn non_empty_from(lengths: Seq<usize>, from: int) -> Seq<usize>
    decreases lengths.len() - from,
{
    if from < 0 || from >= lengths.len() {
        Seq::empty()
    } else if lengths[from] == 0 {
        non_empty_from(lengths, from + 1)
    } else {
        seq![from as usize] + non_empty_from(lengths, from + 1)
    }
}

/// The indices, in order, of the non-empty batches.
pub open spec fn non_empty(lengths: Seq<usize>) -> Seq<usize> {
    non_empty_from(lengths, 0)
}

/// The pending layer for input `i`, as (layer, viewport, scissor, batch indices).
pub type PendingView = (usize, PixelRect, PixelRect, Seq<usize>);

/// The layers that are prepared, in order: those with a viewport, a scissor
/// and at least one non-empty batch.
pub open spec fn plan_spec(inputs: Seq<LayerInput>) -> Seq<PendingView>
    decreases inputs.len(),
{
    if inputs.len() == 0 {
        Seq::empty()
    } else {
        let before = plan_spec(inputs.drop_last());
        let last = inputs.last();
        let i = (inputs.len() - 1) as usize;
        match (last.viewport, last.scissor) {
            (Some(viewport), Some(scissor)) => {
                let batches = non_empty(last.batch_lengths@);
                if batches.len() > 0 {
                    before.push((i, viewport, scissor, batches))
                } else {
                    before
                }
            },
            _ => before,
        }
    }
}

proof fn lemma_non_empty_step(lengths: Seq<usize>, n: int)
    requires
        0 <= n < lengths.len(),
        n <= usize::MAX,
    ensures
        non_empty(lengths.subrange(0, n + 1)) == non_empty(lengths.subrange(0, n)) + (if lengths[n] == 0 {
            Seq::<usize>::empty()
        } else {
            seq![n as usize]
        }),
    decreases n,
{
    lemma_non_empty_from_prefix(lengths.subrange(0, n + 1), 0, n);
    assert(lengths.subrange(0, n + 1).subrange(0, n) =~= lengths.subrange(0, n));
}

/// Removing the last element only drops its index, if it was listed.
proof fn lemma_non_empty_from_prefix(lengths: Seq<usize>, from: int, n: int)
    requires
        0 <= from <= n,
        n + 1 == lengths.len(),
        n <= usize::MAX,
    ensures
        non_empty_from(lengths, from) == non_empty_from(lengths.subrange(0, n), from) + (if lengths[n] == 0 {
            Seq::<usize>::empty()
        } else {
            seq![n as usize]
        }),
    decreases n - from,
{
    let shorter = lengths.subrange(0, n);
    if from == n {
        assert(non_empty_from(shorter, from) =~= Seq::<usize>::empty());
        assert(non_empty_from(lengths, from + 1) =~= Seq::<usize>::empty());
        if lengths[n] == 0 {
        } else {
            assert(seq![from as usize] + Seq::<usize>::empty() =~= seq![n as usize]);
        }
    } else {
        lemma_non_empty_from_prefix(lengths, from + 1, n);
        assert(shorter[from] == lengths[from]);
        if lengths[from] != 0 {
            let tail = if lengths[n] == 0 { Seq::<usize>::empty() } else { seq![n as usize] };
            assert(seq![from as usize] + (non_empty_from(shorter, from + 1) + tail) =~= (seq![from as usize]
                + non_empty_from(shorter, from + 1)) + tail);
        }
    }
}

/// Chooses the layers to prepare and their non-empty batches.
pub fn plan_layers(inputs: &[LayerInput]) -> (pending: Vec<PendingLayer>)
    ensures
        pending@.map_values(|p: PendingLayer| (p.layer, p.viewport, p.scissor, p.batches@)) == plan_spec(inputs@),
{
    let mut pending: Vec<PendingLayer> = Vec::new();
    let mut i: usize = 0;
    while i < inputs.len()
        invariant
            0 <= i <= inputs@.len(),
            pending@.map_values(|p: PendingLayer| (p.layer, p.viewport, p.scissor, p.batches@)) == plan_spec(
                inputs@.subrange(0, i as int),
            ),
        decreases inputs@.len() - i,
    {
        let input = &inputs[i];
        proof {
            assert(inputs@.subrange(0, i + 1).drop_last() =~= inputs@.subrange(0, i as int));
        }
        if let (Some(viewport), Some(scissor)) = (input.viewport, input.scissor) {
            let mut batches: Vec<usize> = Vec::new();
            let mut j: usize = 0;
            while j < input.batch_lengths.len()
                invariant
                    0 <= j <= input.batch_lengths@.len(),
                    batches@ == non_empty(input.batch_lengths@.subrange(0, j as int)),
                decreases input.batch_lengths@.len() - j,
            {
                proof {
                    lemma_non_empty_step(input.batch_lengths@, j as int);
                }
                if input.batch_lengths[j] != 0 {
                    batches.push(j);
                } else {
                    assert(batches@ + Seq::<usize>::empty() =~= batches@);
                }
                j += 1;
            }
            proof {
                assert(input.batch_lengths@.subrange(0, j as int) =~= input.batch_lengths@);
            }
            if batches.len() > 0 {
                let ghost before = pending@;
                pending.push(PendingLayer { layer: i, viewport, scissor, batches });
                proof {
                    assert(pending@.map_values(|p: PendingLayer| (p.layer, p.viewport, p.scissor, p.batches@)) =~= before.map_values(
                        |p: PendingLayer| (p.layer, p.viewport, p.scissor, p.batches@),
                    ).push((i, viewport, scissor, non_empty(inputs@[i as int].batch_lengths@))));
                }
            }
        }
        i += 1;
    }
    proof {
        assert(inputs@.subrange(0, i as int) =~= inputs@);
    }
    pending
}

/// A prepared layer as the render pass sees it: its viewport, its scissor and
/// the number of draws it records.
#[derive(Debug, Clone, Copy, PartialEq, Eq, Structural)]
pub struct FrameLayer {
    pub viewport: PixelRect,
    pub scissor: PixelRect,
    pub draw_count: usize,
}

/// One step of recording a prepared frame.
#[derive(Debug, Clone, Copy, PartialEq, Eq, Structural)]
pub enum RenderCommand {
    SetViewport(PixelRect),
    SetScissor(PixelRect),
    Draw { layer: usize, draw: usize },
}

/// The viewport and scissor last set by `commands`, if any.
pub open spec fn pass_state(commands: Seq<RenderCommand>) -> (Option<PixelRect>, Option<PixelRect>)
    decreases commands.len(),
{
    if commands.len() == 0 {
        (None, None)
    } else {
        let (viewport, scissor) = pass_state(commands.drop_last());
        match commands.last() {
            RenderCommand::SetViewport(r) => (Some(r), scissor),
            RenderCommand::SetScissor(r) => (viewport, Some(r)),
            RenderCommand::Draw { .. } => (viewport, scissor),
        }
    }
}

/// The commands for the draws `0..n` of layer `l`.
pub open spec fn draw_commands(l: usize, n: nat) -> Seq<RenderCommand>
    decreases n,
{
    if n == 0 {
        Seq::empty()
    } else {
        draw_commands(l, (n - 1) as nat).push(RenderCommand::Draw { layer: l, draw: (n - 1) as usize })
    }
}

/// The commands that record `layers` in strict order, setting the viewport
/// and the scissor only when they change.
pub open spec fn commands_spec(layers: Seq<FrameLayer>) -> Seq<RenderCommand>
    decreases layers.len(),
{
    if layers.len() == 0 {
        Seq::empty()
    } else {
        let before = commands_spec(layers.drop_last());
        let layer = layers.last();
        let (viewport, scissor) = pass_state(before);
        let with_viewport = if viewport == Some(layer.viewport) {
            before
        } else {
            before.push(RenderCommand::SetViewport(layer.viewport))
        };
        let with_scissor = if scissor == Some(layer.scissor) {
            with_viewport
        } else {
            with_viewport.push(RenderCommand::SetScissor(layer.scissor))
        };
        with_scissor + draw_commands((layers.len() - 1) as usize, layer.draw_count as nat)
    }
}

proof fn lemma_pass_state_push(commands: Seq<RenderCommand>, c: RenderCommand)
    ensures
        pass_state(commands.push(c)) == match c {
            RenderCommand::SetViewport(r) => (Some(r), pass_state(commands).1),
            RenderCommand::SetScissor(r) => (pass_state(commands).0, Some(r)),
            RenderCommand::Draw { .. } => pass_state(commands),
        },
{
    assert(commands.push(c).drop_last() =~= commands);
}

/// The draw commands among `commands`, in order.
pub open spec fn draws_only(commands: Seq<RenderCommand>) -> Seq<RenderCommand>
    decreases commands.len(),
{
    if commands.len() == 0 {
        Seq::empty()
    } else {
        let before = draws_only(commands.drop_last());
        if commands.last() is Draw {
            before.push(commands.last())
        } else {
            before
        }
    }
}

/// Every draw of every layer, layer by layer.
pub open spec fn all_draws(layers: Seq<FrameLayer>) -> Seq<RenderCommand>
    decreases layers.len(),
{
    if layers.len() == 0 {
        Seq::empty()
    } else {
        all_draws(layers.drop_last()) + draw_commands((layers.len() - 1) as usize, layers.last().draw_count as nat)
    }
}

proof fn lemma_draw_commands(l: usize, n: nat)
    ensures
        draw_commands(l, n).len() == n,
        forall|k: int| 0 <= k < n ==> #[trigger] draw_commands(l, n)[k] == (RenderCommand::Draw { layer: l, draw: k as usize }),
    decreases n,
{
    if n > 0 {
        lemma_draw_commands(l, (n - 1) as nat);
    }
}

proof fn lemma_draws_only_append(a: Seq<RenderCommand>, b: Seq<RenderCommand>)
    ensures
        draws_only(a + b) == draws_only(a) + draws_only(b),
    decreases b.len(),
{
    if b.len() == 0 {
        assert(a + b =~= a);
        assert(draws_only(a) + Seq::<RenderCommand>::empty() =~= draws_only(a));
    } else {
        lemma_draws_only_append(a, b.drop_last());
        assert((a + b).drop_last() =~= a + b.drop_last());
        if b.last() is Draw {
            assert(draws_only(a) + draws_only(b.drop_last()).push(b.last()) =~= (draws_only(a) + draws_only(b.drop_last())).push(b.last()));
        }
    }
}

proof fn lemma_draws_only_draw_commands(l: usize, n: nat)
    ensures
        draws_only(draw_commands(l, n)) == draw_commands(l, n),
        forall|c: Seq<RenderCommand>| #[trigger] pass_state(c + draw_commands(l, n)) == pass_state(c),
    decreases n,
{
    if n > 0 {
        lemma_draws_only_draw_commands(l, (n - 1) as nat);
        assert(draw_commands(l, n).drop_last() =~= draw_commands(l, (n - 1) as nat));
        assert forall|c: Seq<RenderCommand>| #[trigger] pass_state(c + draw_commands(l, n)) == pass_state(c) by {
            assert((c + draw_commands(l, n)).drop_last() =~= c + draw_commands(l, (n - 1) as nat));
            assert(pass_state(c + draw_commands(l, (n - 1) as nat)) == pass_state(c));
        }
    }
}

/// The state-setting commands that precede a layer's draws: none, one or two.
proof fn lemma_layer_prefix(layers: Seq<FrameLayer>)
    requires
        layers.len() > 0,
    ensures
        ({
            let before = commands_spec(layers.drop_last());
            let all = commands_spec(layers);
            let l = (layers.len() - 1) as usize;
            let n = layers.last().draw_count as nat;
            exists|set: Seq<RenderCommand>|
                {
                    &&& set.len() <= 2
                    &&& draws_only(set) == Seq::<RenderCommand>::empty()
                    &&& all == before + set + draw_commands(l, n)
                    &&& pass_state(before + set) == (Some(layers.last().viewport), Some(layers.last().scissor))
                }
        }),
{
    let before = commands_spec(layers.drop_last());
    let layer = layers.last();
    let (viewport, scissor) = pass_state(before);
    let v = if viewport == Some(layer.viewport) { Seq::<RenderCommand>::empty() } else { seq![RenderCommand::SetViewport(layer.viewport)] };
    let sc = if scissor == Some(layer.scissor) { Seq::<RenderCommand>::empty() } else { seq![RenderCommand::SetScissor(layer.scissor)] };
    let set = v + sc;
    lemma_pass_state_push(before, RenderCommand::SetViewport(layer.viewport));
    let with_viewport = before + v;
    if viewport != Some(layer.viewport) {
        assert(with_viewport =~= before.push(RenderCommand::SetViewport(layer.viewport)));
    } else {
        assert(with_viewport =~= before);
    }
    lemma_pass_state_push(with_viewport, RenderCommand::SetScissor(layer.scissor));
    if scissor != Some(layer.scissor) {
        assert(with_viewport + sc =~= with_viewport.push(RenderCommand::SetScissor(layer.scissor)));
    } else {
        assert(with_viewport + sc =~= with_viewport);
    }
    assert(before + set =~= with_viewport + sc);
    assert(draws_only(set) == Seq::<RenderCommand>::empty()) by {
        reveal_with_fuel(draws_only, 3);
        if viewport != Some(layer.viewport) && scissor != Some(layer.scissor) {
            assert(set.drop_last() =~= v);
            assert(v.drop_last() =~= Seq::<RenderCommand>::empty());
        } else if viewport != Some(layer.viewport) {
            assert(set =~= v);
            assert(v.drop_last() =~= Seq::<RenderCommand>::empty());
        } else if scissor != Some(layer.scissor) {
            assert(set =~= sc);
            assert(sc.drop_last() =~= Seq::<RenderCommand>::empty());
        } else {
            assert(set =~= Seq::<RenderCommand>::empty());
        }
    }
}

/// A recorded frame draws every prepared draw exactly once, layer after
/// layer and, within a layer, in draw order: layers are strict ordering
/// barriers.
pub proof fn lemma_commands_draw_in_layer_order(layers: Seq<FrameLayer>)
    ensures
        draws_only(commands_spec(layers)) == all_draws(layers),
    decreases layers.len(),
{
    if layers.len() > 0 {
        lemma_commands_draw_in_layer_order(layers.drop_last());
        lemma_layer_prefix(layers);
        let before = commands_spec(layers.drop_last());
        let l = (layers.len() - 1) as usize;
        let n = layers.last().draw_count as nat;
        let set = choose|set: Seq<RenderCommand>|
            {
                &&& set.len() <= 2
                &&& draws_only(set) == Seq::<RenderCommand>::empty()
                &&& commands_spec(layers) == before + set + draw_commands(l, n)
                &&& pass_state(before + set) == (Some(layers.last().viewport), Some(layers.last().scissor))
            };
        lemma_draws_only_append(before + set, draw_commands(l, n));
        lemma_draws_only_append(before, set);
        lemma_draws_only_draw_commands(l, n);
        assert(draws_only(before) + Seq::<RenderCommand>::empty() =~= draws_only(before));
    }
}

/// Every draw is recorded while its own layer's viewport and scissor are set.
pub proof fn lemma_draws_see_their_layer(layers: Seq<FrameLayer>, n: int)
    requires
        layers.len() <= usize::MAX,
        0 <= n < commands_spec(layers).len(),
        commands_spec(layers)[n] is Draw,
    ensures
        ({
            let l = commands_spec(layers)[n]->layer;
            &&& l < layers.len()
            &&& pass_state(commands_spec(layers).subrange(0, n)) == (Some(layers[l as int].viewport), Some(layers[l as int].scissor))
        }),
    decreases layers.len(),
{
    let all = commands_spec(layers);
    if layers.len() == 0 {
        assert(false);
    } else {
        lemma_layer_prefix(layers);
        let before = commands_spec(layers.drop_last());
        let l = (layers.len() - 1) as usize;
        let count = layers.last().draw_count as nat;
        let set = choose|set: Seq<RenderCommand>|
            {
                &&& set.len() <= 2
                &&& draws_only(set) == Seq::<RenderCommand>::empty()
                &&& all == before + set + draw_commands(l, count)
                &&& pass_state(before + set) == (Some(layers.last().viewport), Some(layers.last().scissor))
            };
        lemma_draw_commands(l, count);
        if n < before.len() {
            assert(all[n] == before[n]);
            lemma_draws_see_their_layer(layers.drop_last(), n);
            assert(all.subrange(0, n) =~= before.subrange(0, n));
            let l2 = all[n]->layer;
            assert(layers[l2 as int] == layers.drop_last()[l2 as int]);
        } else if n < before.len() + set.len() {
            assert(all[n] == set[n - before.len()]);
            assert(set[n - before.len()] is Draw);
            assert(draws_only(set).len() > 0) by {
                lemma_draws_only_contains(set, n - before.len());
            }
        } else {
            let k = n - before.len() - set.len();
            assert(all[n] == draw_commands(l, count)[k]);
            lemma_draw_commands(l, k as nat);
            assert(all.subrange(0, n) =~= (before + set) + draw_commands(l, k as nat)) by {
                assert forall|m: int| 0 <= m < k implies draw_commands(l, k as nat)[m] == #[trigger] draw_commands(l, count)[m] by {
                }
            }
            lemma_draws_only_draw_commands(l, k as nat);
            assert(pass_state((before + set) + draw_commands(l, k as nat)) == pass_state(before + set));
            assert(all[n]->layer == l);
            assert(layers[l as int] == layers.last());
        }
    }
}

proof fn lemma_draws_only_contains(commands: Seq<RenderCommand>, i: int)
    requires
        0 <= i < commands.len(),
        commands[i] is Draw,
    ensures
        draws_only(commands).len() > 0,
    decreases commands.len(),
{
    if i < commands.len() - 1 {
        lemma_draws_only_contains(commands.drop_last(), i);
    }
}

/// Records the viewport, scissor and draw commands of a prepared frame.
pub fn render_commands(layers: &[FrameLayer]) -> (commands: Vec<RenderCommand>)
    ensures
        commands@ == commands_spec(layers@),
{
    let mut commands: Vec<RenderCommand> = Vec::new();
    let mut current_viewport: Option<PixelRect> = None;
    let mut current_scissor: Option<PixelRect> = None;
    let mut i: usize = 0;
    while i < layers.len()
        invariant
            0 <= i <= layers@.len(),
            commands@ == commands_spec(layers@.subrange(0, i as int)),
            (current_viewport, current_scissor) == pass_state(commands@),
        decreases layers@.len() - i,
    {
        let layer = layers[i];
        proof {
            assert(layers@.subrange(0, i + 1).drop_last() =~= layers@.subrange(0, i as int));
        }
        if current_viewport != Some(layer.viewport) {
            proof {
                lemma_pass_state_push(commands@, RenderCommand::SetViewport(layer.viewport));
            }
            commands.push(RenderCommand::SetViewport(layer.viewport));
            current_viewport = Some(layer.viewport);
        }
        if current_scissor != Some(layer.scissor) {
            proof {
                lemma_pass_state_push(commands@, RenderCommand::SetScissor(layer.scissor));
            }
            commands.push(RenderCommand::SetScissor(layer.scissor));
            current_scissor = Some(layer.scissor);
        }
        let ghost with_scissor = commands@;
        let mut d: usize = 0;
        while d < layer.draw_count
            invariant
                0 <= d <= layer.draw_count,
                commands@ == with_scissor + draw_commands(i, d as nat),
                (current_viewport, current_scissor) == pass_state(commands@),
            decreases layer.draw_count - d,
        {
            proof {
                lemma_pass_state_push(commands@, RenderCommand::Draw { layer: i, draw: d });
                assert(with_scissor + draw_commands(i, (d + 1) as nat) =~= (with_scissor + draw_commands(i, d as nat)).push(
                    RenderCommand::Draw { layer: i, draw: d },
                ));
            }
            commands.push(RenderCommand::Draw { layer: i, draw: d });
            d += 1;
        }
        i += 1;
    }
    proof {
        assert(layers@.subrange(0, i as int) =~= layers@);
    }
    commands
}

/// The total number of draws.
pub open spec fn draw_total(layers: Seq<FrameLayer>) -> nat
    decreases layers.len(),
{
    if layers.len() == 0 {
        0
    } else {
        draw_total(layers.drop_last()) + layers.last().draw_count as nat
    }
}

/// The number of draws a prepared frame records.
pub fn draw_count(layers: &[FrameLayer]) -> (n: usize)
    requires
        draw_total(layers@) <= usize::MAX,
    ensures
        n == draw_total(layers@),
{
    let mut total: usize = 0;
    let mut i: usize = 0;
    while i < layers.len()
        invariant
            0 <= i <= layers@.len(),
            draw_total(layers@) <= usize::MAX,
            total == draw_total(layers@.subrange(0, i as int)),
        decreases layers@.len() - i,
    {
        proof {
            assert(layers@.subrange(0, i + 1).drop_last() =~= layers@.subrange(0, i as int));
            lemma_draw_total_prefix(layers@, i + 1);
        }
        total = total + layers[i].draw_count;
        i += 1;
    }
    proof {
        assert(layers@.subrange(0, i as int) =~= layers@);
    }
    total
}

/// Whether a prepared frame records no draw.
pub fn frame_is_empty(layers: &[FrameLayer]) -> (b: bool)
    ensures
        b == (forall|i: int| 0 <= i < layers@.len() ==> (#[trigger] layers@[i]).draw_count == 0),
{
    let mut i: usize = 0;
    while i < layers.len()
        invariant
            0 <= i <= layers@.len(),
            forall|k: int| 0 <= k < i ==> (#[trigger] layers@[k]).draw_count == 0,
        decreases layers@.len() - i,
    {
        if layers[i].draw_count != 0 {
            return false;
        }
        i += 1;
    }
    true
}

proof fn lemma_draw_total_prefix(layers: Seq<FrameLayer>, n: int)
    requires
        0 <= n <= layers.len(),
    ensures
        draw_total(layers.subrange(0, n)) <= draw_total(layers),
    decreases layers.len(),
{
    if n < layers.len() {
        assert(layers.drop_last().subrange(0, n) =~= layers.subrange(0, n));
        lemma_draw_total_prefix(layers.drop_last(), n);
    } else {
        assert(layers.subrange(0, n) =~= layers);
    }
}

/// Render pipelines shared between primitive renderers, one per key.
pub struct RenderPipelineCache<V> {
    pipelines: HashMap<u64, V>,
}

impl<V: Clone> RenderPipelineCache<V> {
    /// The stored pipeline of each key.
    pub closed spec fn view(&self) -> Map<u64, V> {
        self.pipelines@
    }

    pub fn new() -> (cache: Self)
        ensures
            cache@ == Map::<u64, V>::empty(),
            cache@.dom().finite(),
    {
        RenderPipelineCache { pipelines: HashMap::new() }
    }

    /// A clone of the pipeline stored under `key`, built by `build` and
    /// stored first when there is none; `build` runs only then.
    pub fn get_or_create<F: FnOnce() -> V>(&mut self, key: u64, build: F) -> (pipeline: V)
        requires
            !old(self)@.contains_key(key) ==> call_requires(build, ()),
        ensures
            final(self)@.dom().finite(),
            final(self)@.contains_key(key),
            cloned::<V>(final(self)@[key], pipeline),
            old(self)@.contains_key(key) ==> final(self)@.len() == old(self)@.len(),
            !old(self)@.contains_key(key) ==> final(self)@.len() == old(self)@.len() + 1,
            old(self)@.contains_key(key) ==> final(self)@ == old(self)@,
            !old(self)@.contains_key(key) ==> final(self)@ == old(self)@.insert(key, final(self)@[key]) && call_ensures(
                build,
                (),
                final(self)@[key],
            ),
    {
        broadcast use vstd::std_specs::hash::group_hash_axioms;
        match self.pipelines.get(&key) {
            Some(stored) => {
                return stored.clone();
            },
            None => {},
        }
        let built = build();
        let pipeline = built.clone();
        self.pipelines.insert(key, built);
        pipeline
    }

    pub fn is_empty(&self) -> (b: bool)
        ensures
            b == (self@.len() == 0),
            self@.dom().finite(),
    {
        broadcast use vstd::std_specs::hash::group_hash_axioms;
        self.pipelines.is_empty()
    }

    pub fn len(&self) -> (n: usize)
        ensures
            n == self@.len(),
            self@.dom().finite(),
    {
        broadcast use vstd::std_specs::hash::group_hash_axioms;
        self.pipelines.len()
    }

    pub fn clear(&mut self)
        ensures
            final(self)@ == Map::<u64, V>::empty(),
            final(self)@.dom().finite(),
    {
        broadcast use vstd::std_specs::hash::group_hash_axioms;
        self.pipelines.clear();
    }
}

} // verus!
