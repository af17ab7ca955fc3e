//! What is to be done outside: signals, processes, files.

use crate::text::views;
use crate::tunnel::{SignalRequest, Tunnel, TunnelView};
use vstd::prelude::*;

verus! {

/// One thing to be done outside.
#[derive(Debug)]
pub enum Effect {
    /// Send a signal.
    Signal(SignalRequest),
    /// Spawn socat with these arguments for the tunnel with this id; then tell
    /// whether it could be spawned.
    Spawn { id: u64, args: Vec<String> },
    /// Wait for the tunnel with this id to stop; then finish its restart.
    Restart { id: u64 },
    /// Wait for this tunnel, which is no longer in the list, to stop; then
    /// finish its removal.
    Remove(Tunnel),
    /// Save the definitions of all tunnels.
    Save,
    /// Write a file; then tell whether it could be written.
    Export { path: String, text: String },
}

/// One thing to be done outside, with its texts as sequences.
pub enum EffectView {
    Signal(SignalRequest),
    Spawn { id: u64, args: Seq<Seq<char>> },
    Restart { id: u64 },
    Remove(TunnelView),
    Save,
    Export { path: Seq<char>, text: Seq<char> },
}

impl View for Effect {
    type V = EffectView;

    open spec fn view(&self) -> EffectView {
        match self {
            Effect::Signal(request) => EffectView::Signal(*request),
            Effect::Spawn { id, args } => EffectView::Spawn { id: *id, args: views(args@) },
            Effect::Restart { id } => EffectView::Restart { id: *id },
            Effect::Remove(t) => EffectView::Remove(t@),
            Effect::Save => EffectView::Save,
            Effect::Export { path, text } => EffectView::Export { path: path@, text: text@ },
        }
    }
}

/// A list of things to be done, with their texts as sequences.
pub open spec fn effect_views(effects: Seq<Effect>) -> Seq<EffectView> {
    effects.map_values(|e: Effect| e@)
}

/// A signal to be sent, if there is one.
pub open spec fn signals(request: Option<SignalRequest>) -> Seq<EffectView> {
    match request {
        Some(r) => seq![EffectView::Signal(r)],
        None => seq![],
    }
}

/// A process to be spawned, if there is one.
pub open spec fn spawns(id: u64, args: Option<Seq<Seq<char>>>) -> Seq<EffectView> {
    match args {
        Some(a) => seq![EffectView::Spawn { id, args: a }],
        None => seq![],
    }
}

/// Adds one thing to be done.
pub(crate) fn push_effect(effects: &mut Vec<Effect>, e: Effect)
    ensures
        effect_views(final(effects)@) == effect_views(old(effects)@).push(e@),
{
    effects.push(e);
    assert(effect_views(effects@) =~= effect_views(old(effects)@).push(e@));
}

/// Adds a signal to be sent, if there is one.
pub(crate) fn push_signal(effects: &mut Vec<Effect>, request: Option<SignalRequest>)
    ensures
        effect_views(final(effects)@) == effect_views(old(effects)@) + signals(request),
{
    if let Some(r) = request {
        push_effect(effects, Effect::Signal(r));
    }
    assert(effect_views(effects@) =~= effect_views(old(effects)@) + signals(request));
}

/// Adds a process to be spawned, if there is one.
pub(crate) fn push_spawn(effects: &mut Vec<Effect>, id: u64, args: Option<Vec<String>>)
    ensures
        effect_views(final(effects)@) == effect_views(old(effects)@) + spawns(
            id,
            crate::tunnel::args_view(args),
        ),
{
    if let Some(a) = args {
        push_effect(effects, Effect::Spawn { id, args: a });
    }
    assert(effect_views(effects@) =~= effect_views(old(effects)@) + spawns(
        id,
        crate::tunnel::args_view(args),
    ));
}

} // verus!
