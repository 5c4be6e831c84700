//! What a dictation hotkey press and release mean.
//!
//! One key serves both modes. A quick tap toggles hands-free dictation; holding the
//! key is push-to-talk and ends when it is let go. The press behaves identically
//! either way, only the release differs, so nothing has to guess at press time which
//! mode was meant.

use vstd::prelude::*;
use vstd::string::StringExecFns;
use crate::config::{default_hotkey, default_hotkey_text, Platform};
use crate::text::{chars_of, str_eq};
use crate::update::{ascii_lower, lower_ascii};

verus! {

/// How long the key must be held for the release to end dictation. Below this a
/// press is a tap, and dictation keeps running until the next press.
pub const HOLD_THRESHOLD_MS: u64 = 300;

/// What the caller should do when the hotkey is released.
#[derive(Debug, Clone, Copy, PartialEq, Eq, Structural)]
pub enum ReleaseAction {
    /// End dictation: the key was held, so this was push-to-talk.
    Stop,
    /// Do nothing: either it was a tap, or the press had already ended dictation.
    Nothing,
}

/// The release ends dictation exactly when the press started it and the key was
/// held for at least the threshold.
pub open spec fn release_stops(press_started_recording: bool, held_ms: u64) -> bool {
    press_started_recording && held_ms >= HOLD_THRESHOLD_MS
}

/// Decide what a release means.
///
/// `press_started_recording` distinguishes the two things a press can do: a press
/// while hands-free dictation runs stops it, and the release that follows must then
/// neither stop it again nor restart it, however long the key was held.
pub fn release_action(press_started_recording: bool, held_ms: u64) -> (action: ReleaseAction)
    ensures
        action == (if release_stops(press_started_recording, held_ms) {
            ReleaseAction::Stop
        } else {
            ReleaseAction::Nothing
        }),
{
    if !press_started_recording {
        return ReleaseAction::Nothing;
    }
    if held_ms >= HOLD_THRESHOLD_MS {
        ReleaseAction::Stop
    } else {
        ReleaseAction::Nothing
    }
}

/// A release after a press that did not start dictation never stops anything.
pub proof fn lemma_release_after_stopping_press_is_nothing(held_ms: u64)
    ensures
        !release_stops(false, held_ms),
{
}

/// Holding longer never turns a push-to-talk stop back into a tap.
pub proof fn lemma_release_monotone_in_hold(started: bool, shorter: u64, longer: u64)
    requires
        shorter <= longer,
        release_stops(started, shorter),
    ensures
        release_stops(started, longer),
{
}

/// The hotkey older settings files carry, and the one used when none is set.
pub const LEGACY_HOTKEY: &'static str = "Super+Alt+Space";

/// Whether `hotkey` names the Fn / globe key (`fn`, any ASCII case).
pub open spec fn names_fn_key(hotkey: Seq<char>) -> bool {
    hotkey.len() == 2 && (hotkey[0] == 'f' || hotkey[0] == 'F') && (hotkey[1] == 'n'
        || hotkey[1] == 'N')
}

/// Whether `hotkey` is the Fn / globe key, compared ignoring ASCII case.
pub fn is_fn_key(hotkey: &str) -> (b: bool)
    ensures
        b == names_fn_key(hotkey@),
{
    let v = chars_of(hotkey);
    v.len() == 2 && (v[0] == 'f' || v[0] == 'F') && (v[1] == 'n' || v[1] == 'N')
}

/// The hotkey to register: the configured one, or `Super+Alt+Space` when none is
/// configured.
pub fn effective_hotkey(configured: &str) -> (r: String)
    ensures
        r@ == (if configured@.len() == 0 {
            LEGACY_HOTKEY@
        } else {
            configured@
        }),
{
    if configured.is_empty() {
        String::from_str(LEGACY_HOTKEY)
    } else {
        String::from_str(configured)
    }
}

/// The hotkey after the one-time migration: a configuration written before macOS
/// support carries the Windows default, which on macOS is replaced by the platform
/// default until onboarding is complete. `None` when nothing changes.
pub fn migrated_hotkey(platform: Platform, onboarding_complete: bool, hotkey: &str) -> (r: Option<
    &'static str,
>)
    ensures
        match r {
            Some(h) => platform == Platform::MacOs && !onboarding_complete && hotkey@
                == LEGACY_HOTKEY@ && h@ == default_hotkey_text(platform),
            None => !(platform == Platform::MacOs && !onboarding_complete && hotkey@
                == LEGACY_HOTKEY@),
        },
{
    if platform == Platform::MacOs && !onboarding_complete && str_eq(hotkey, LEGACY_HOTKEY) {
        Some(default_hotkey(platform))
    } else {
        None
    }
}

/// Whether the Fn key can serve as the hotkey: only on macOS, where it is watched by
/// an event tap instead of being registered with the OS.
pub fn fn_key_supported(platform: Platform) -> (b: bool)
    ensures
        b == (platform == Platform::MacOs),
{
    match platform {
        Platform::MacOs => true,
        _ => false,
    }
}

/// Whether two hotkey strings name the same shortcut, compared ignoring ASCII case
/// (`eq_ignore_ascii_case`).
pub fn hotkeys_match(a: &str, b: &str) -> (r: bool)
    ensures
        r == (ascii_lower(a@) == ascii_lower(b@)),
{
    let x = lower_ascii(a);
    let y = lower_ascii(b);
    if x.len() != y.len() {
        return false;
    }
    let mut i: usize = 0;
    while i < x.len()
        invariant
            i <= x.len() == y.len(),
            x@ == ascii_lower(a@),
            y@ == ascii_lower(b@),
            forall|k: int| 0 <= k < i ==> x@[k] == y@[k],
        decreases x.len() - i,
    {
        if x[i] != y[i] {
            return false;
        }
        i = i + 1;
    }
    assert(x@ =~= y@);
    true
}

/// The bit of an event's modifier flags that carries the Fn / globe key
/// (`NX_SECONDARYFNMASK`); the key never produces a key event of its own.
pub const FN_FLAG_MASK: u64 = 0x0080_0000;

/// What a modifier-flags change means for the Fn key.
#[derive(Debug, Clone, Copy, PartialEq, Eq, Structural)]
pub enum FnEdge {
    /// The key went down.
    Pressed,
    /// The key came back up.
    Released,
    /// Some other modifier changed; the Fn key stayed as it was.
    Unchanged,
}

/// Whether the Fn key is down in `flags`.
pub open spec fn fn_down(flags: u64) -> bool {
    flags & 0x0080_0000u64 != 0
}

/// The edge a flags change makes, given whether the key was down before.
pub open spec fn fn_edge(was_down: bool, flags: u64) -> FnEdge {
    if fn_down(flags) && !was_down {
        FnEdge::Pressed
    } else if !fn_down(flags) && was_down {
        FnEdge::Released
    } else {
        FnEdge::Unchanged
    }
}

/// Track the Fn key across a flags change: whether it is down now, and the edge.
///
/// Press and release both arrive as flag changes, so only the transitions count: one
/// press reports `Pressed` once, one release reports `Released` once.
pub fn fn_key_edge(was_down: bool, flags: u64) -> (r: (bool, FnEdge))
    ensures
        r.0 == fn_down(flags),
        r.1 == fn_edge(was_down, flags),
{
    let down = flags & FN_FLAG_MASK != 0;
    if down && !was_down {
        (true, FnEdge::Pressed)
    } else if !down && was_down {
        (false, FnEdge::Released)
    } else {
        (down, FnEdge::Unchanged)
    }
}

/// Presses and releases alternate: while the key is down no change reports another
/// press, and while it is up no change reports a release.
pub proof fn lemma_fn_edges_alternate(was_down: bool, flags: u64)
    ensures
        was_down ==> fn_edge(was_down, flags) != FnEdge::Pressed,
        !was_down ==> fn_edge(was_down, flags) != FnEdge::Released,
        fn_edge(was_down, flags) == FnEdge::Pressed ==> fn_down(flags),
        fn_edge(was_down, flags) == FnEdge::Released ==> !fn_down(flags),
{
}

/// Whether the Fn key is down after a run of flag changes, starting from `was_down`.
pub open spec fn fn_down_after(was_down: bool, flags: Seq<u64>) -> bool {
    if flags.len() == 0 {
        was_down
    } else {
        fn_down(flags.last())
    }
}

/// The presses and releases a run of flag changes reports, in order, starting from
/// `was_down`; changes that leave the key as it was report nothing.
pub open spec fn fn_edges(was_down: bool, flags: Seq<u64>) -> Seq<FnEdge>
    decreases flags.len(),
{
    if flags.len() == 0 {
        Seq::empty()
    } else {
        let before = flags.drop_last();
        let edge = fn_edge(fn_down_after(was_down, before), flags.last());
        if edge == FnEdge::Unchanged {
            fn_edges(was_down, before)
        } else {
            fn_edges(was_down, before).push(edge)
        }
    }
}

/// Over any run of flag changes that starts with the key up, the reported edges
/// alternate press, release, press, ..., starting with a press, and the key is down
/// at the end exactly when the last edge was a press.
pub proof fn lemma_fn_edges_alternate_over_a_run(flags: Seq<u64>)
    ensures
        forall|i: int|
            0 <= i < fn_edges(false, flags).len() ==> #[trigger] fn_edges(false, flags)[i] == (
            if i % 2 == 0 {
                FnEdge::Pressed
            } else {
                FnEdge::Released
            }),
        fn_down_after(false, flags) == (fn_edges(false, flags).len() % 2 == 1),
    decreases flags.len(),
{
    if flags.len() > 0 {
        let before = flags.drop_last();
        lemma_fn_edges_alternate_over_a_run(before);
        let prev = fn_edges(false, before);
        let e = fn_edge(fn_down_after(false, before), flags.last());
        if e != FnEdge::Unchanged {
            assert forall|i: int| 0 <= i < prev.push(e).len() implies #[trigger] prev.push(e)[i] == (
                if i % 2 == 0 {
                    FnEdge::Pressed
                } else {
                    FnEdge::Released
                }) by {
                if i < prev.len() {
                    assert(prev.push(e)[i] == prev[i]);
                }
            }
        }
    }
}

} // verus!
