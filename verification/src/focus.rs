//! Taking the keyboard focus: the keyboard events to synthesize, recognizing
//! shell flyouts, and the escalation sequence used when the operating system
//! refuses to hand over the foreground.

use vstd::prelude::*;
use crate::text::chars_of;

verus! {

pub const VK_ESCAPE: u16 = 0x1B;
pub const VK_SHIFT: u16 = 0x10;
pub const VK_CONTROL: u16 = 0x11;
pub const VK_MENU: u16 = 0x12;
pub const VK_LWIN: u16 = 0x5B;
pub const VK_RWIN: u16 = 0x5C;
pub const KEYEVENTF_KEYUP: u32 = 0x0002;
pub const INPUT_KEYBOARD: u32 = 1;

/// A keyboard event as the operating system's input queue takes it.
#[derive(Clone, Copy)]
pub struct KeyboardInput {
    pub vk: u16,
    pub scan: u16,
    pub flags: u32,
    pub time: u32,
    pub extra_info: usize,
}

/// A mouse event; present for its size, since an input record is as large
/// as its largest kind.
#[derive(Clone, Copy)]
pub struct MouseInput {
    pub dx: i32,
    pub dy: i32,
    pub mouse_data: u32,
    pub flags: u32,
    pub time: u32,
    pub extra_info: usize,
}

/// The payload of an input record.
pub union InputPayload {
    pub keyboard: KeyboardInput,
    pub _mouse: MouseInput,
}

/// One input record.
pub struct Input {
    pub kind: u32,
    pub payload: InputPayload,
}

/// The record is the keyboard event (`vk`, `flags`) with all other fields zero.
pub open spec fn is_key_event(input: Input, vk: u16, flags: u32) -> bool {
    &&& input.kind == INPUT_KEYBOARD
    &&& is_variant(input.payload, "keyboard")
    &&& get_union_field::<InputPayload, KeyboardInput>(input.payload, "keyboard") == KeyboardInput {
        vk,
        scan: 0,
        flags,
        time: 0,
        extra_info: 0,
    }
}

/// The keyboard record for one event.
pub fn key_input(vk: u16, flags: u32) -> (r: Input)
    ensures
        is_key_event(r, vk, flags),
{
    Input {
        kind: INPUT_KEYBOARD,
        payload: InputPayload {
            keyboard: KeyboardInput { vk, scan: 0, flags, time: 0, extra_info: 0 },
        },
    }
}

/// The records for a batch of (virtual key, flags) events, sent together so
/// nothing can interleave between them.
pub fn key_inputs(events: &[(u16, u32)]) -> (r: Vec<Input>)
    ensures
        r@.len() == events@.len(),
        forall|i: int| 0 <= i < r@.len() ==> is_key_event(#[trigger] r@[i], events@[i].0, events@[i].1),
{
    let mut r: Vec<Input> = Vec::new();
    let mut i: usize = 0;
    while i < events.len()
        invariant
            i <= events@.len(),
            r@.len() == i,
            forall|k: int| 0 <= k < i ==> is_key_event(#[trigger] r@[k], events@[k].0, events@[k].1),
        decreases events@.len() - i,
    {
        let (vk, flags) = events[i];
        r.push(key_input(vk, flags));
        i = i + 1;
    }
    r
}

/// A key press and its release, as (virtual key, flags) events.
pub fn tap_key(vk: u16) -> (r: Vec<(u16, u32)>)
    ensures
        r@ == seq![(vk, 0u32), (vk, KEYEVENTF_KEYUP)],
{
    let mut r: Vec<(u16, u32)> = Vec::new();
    r.push((vk, 0));
    r.push((vk, KEYEVENTF_KEYUP));
    assert(r@ =~= seq![(vk, 0u32), (vk, KEYEVENTF_KEYUP)]);
    r
}

/// The modifier keys whose state is checked before synthesizing keys: CTRL,
/// SHIFT, ALT and both Windows keys.
pub fn modifier_keys() -> (r: Vec<u16>)
    ensures
        r@ == seq![VK_CONTROL, VK_SHIFT, VK_MENU, VK_LWIN, VK_RWIN],
{
    let r = vec![VK_CONTROL, VK_SHIFT, VK_MENU, VK_LWIN, VK_RWIN];
    assert(r@ =~= seq![VK_CONTROL, VK_SHIFT, VK_MENU, VK_LWIN, VK_RWIN]);
    r
}

/// The key-up events for the modifiers that are held, in the order of
/// `modifier_keys` (`held[i]` says whether the `i`-th is held); none when
/// nothing is held. Releasing them first keeps synthesized taps from turning
/// into chords with the hotkey's own modifiers.
pub fn release_held_modifiers(held: &[bool]) -> (r: Vec<(u16, u32)>)
    requires
        held@.len() == 5,
    ensures
        r@ == held_keys(held@).map_values(|vk: u16| (vk, KEYEVENTF_KEYUP)),
{
    let keys = modifier_keys();
    let mut r: Vec<(u16, u32)> = Vec::new();
    let mut i: usize = 0;
    while i < 5
        invariant
            keys@ == seq![VK_CONTROL, VK_SHIFT, VK_MENU, VK_LWIN, VK_RWIN],
            held@.len() == 5,
            i <= 5,
            r@ == held_keys(held@.take(i as int)).map_values(|vk: u16| (vk, KEYEVENTF_KEYUP)),
        decreases 5 - i,
    {
        proof {
            assert(held@.take(i + 1).drop_last() =~= held@.take(i as int));
        }
        if held[i] {
            r.push((keys[i], KEYEVENTF_KEYUP));
        }
        i = i + 1;
        assert(r@ =~= held_keys(held@.take(i as int)).map_values(|vk: u16| (vk, KEYEVENTF_KEYUP)));
    }
    assert(held@.take(5) =~= held@);
    r
}

/// The modifier at a position of `modifier_keys`.
pub open spec fn modifier_at(i: int) -> u16 {
    if i == 0 {
        VK_CONTROL
    } else if i == 1 {
        VK_SHIFT
    } else if i == 2 {
        VK_MENU
    } else if i == 3 {
        VK_LWIN
    } else {
        VK_RWIN
    }
}

/// The modifiers flagged as held, in order.
pub open spec fn held_keys(held: Seq<bool>) -> Seq<u16>
    decreases held.len(),
{
    if held.len() == 0 {
        Seq::empty()
    } else {
        let r = held_keys(held.drop_last());
        if held.last() {
            r.push(modifier_at(held.len() - 1))
        } else {
            r
        }
    }
}

/// `c`, lower-cased if it is an ASCII capital, equals `d`.
pub open spec fn folds_to(c: char, d: char) -> bool {
    if 'A' <= c && c <= 'Z' {
        (c as u32) + 32 == d as u32
    } else {
        c == d
    }
}

/// `path`, with ASCII capitals lower-cased, ends with `suffix`.
pub open spec fn ends_with_folded(path: Seq<char>, suffix: Seq<char>) -> bool {
    &&& suffix.len() <= path.len()
    &&& forall|k: int|
        0 <= k < suffix.len() ==> folds_to(path[path.len() - suffix.len() + k], #[trigger] suffix[k])
}

/// The executables of the shell flyouts (Start menu, Search, Action Center),
/// which capture keyboard input while open.
pub open spec fn shell_flyout_names() -> Seq<Seq<char>> {
    seq![
        "startmenuexperiencehost.exe"@,
        "searchhost.exe"@,
        "searchapp.exe"@,
        "shellexperiencehost.exe"@,
    ]
}

fn ends_with_ignoring_ascii_case(path: &Vec<char>, suffix: &str) -> (r: bool)
    ensures
        r == ends_with_folded(path@, suffix@),
{
    let s = chars_of(suffix);
    if s.len() > path.len() {
        return false;
    }
    let off = path.len() - s.len();
    let mut k: usize = 0;
    while k < s.len()
        invariant
            s@ == suffix@,
            s.len() <= path.len(),
            off == path.len() - s.len(),
            k <= s.len(),
            forall|q: int| 0 <= q < k ==> folds_to(path@[off + q], #[trigger] s@[q]),
        decreases s.len() - k,
    {
        let c = path[off + k];
        let d = s[k];
        let same = if 'A' <= c && c <= 'Z' {
            (c as u32) + 32 == d as u32
        } else {
            c == d
        };
        if !same {
            assert(!folds_to(path@[off + k], s@[k as int]));
            return false;
        }
        k = k + 1;
    }
    true
}

/// Whether an executable path belongs to a shell flyout: the path, ignoring
/// ASCII case, ends with one of `shell_flyout_names`.
pub fn is_shell_flyout(path: &str) -> (r: bool)
    ensures
        r == exists|i: int|
            0 <= i < shell_flyout_names().len() && ends_with_folded(
                path@,
                #[trigger] shell_flyout_names()[i],
            ),
{
    let cs = chars_of(path);
    let a = ends_with_ignoring_ascii_case(&cs, "startmenuexperiencehost.exe");
    let b = ends_with_ignoring_ascii_case(&cs, "searchhost.exe");
    let c = ends_with_ignoring_ascii_case(&cs, "searchapp.exe");
    let d = ends_with_ignoring_ascii_case(&cs, "shellexperiencehost.exe");
    proof {
        let names = shell_flyout_names();
        assert(names[0] == "startmenuexperiencehost.exe"@);
        assert(names[1] == "searchhost.exe"@);
        assert(names[2] == "searchapp.exe"@);
        assert(names[3] == "shellexperiencehost.exe"@);
        if a {
            assert(ends_with_folded(path@, names[0]));
        }
        if b {
            assert(ends_with_folded(path@, names[1]));
        }
        if c {
            assert(ends_with_folded(path@, names[2]));
        }
        if d {
            assert(ends_with_folded(path@, names[3]));
        }
    }
    a || b || c || d
}


/// Where the foreground sequence stands: each state waits for the outcome of
/// the action it was entered with.
#[derive(PartialEq, Eq, Structural, Clone, Copy, Debug)]
pub enum ForegroundState {
    Start,
    /// Waiting to learn whether the window already is in the foreground.
    AwaitingForegroundCheck,
    /// Waiting for the outcome of a plain activation.
    AwaitingPlainActivation,
    /// Waiting to learn whether a shell flyout holds the foreground.
    AwaitingFlyoutCheck,
    /// Waiting for the flyout to be dismissed.
    AwaitingDismissal,
    /// Waiting for the outcome of forced attempt number `attempt` (from 0).
    AwaitingAttempt { attempt: u8 },
    Finished { success: bool },
}

/// What to do next to take the foreground.
#[derive(PartialEq, Eq, Structural, Clone, Copy, Debug)]
pub enum ForegroundAction {
    /// Report whether the window is the foreground window.
    CheckForeground,
    /// Activate the window without synthesizing input; report whether it took the foreground.
    ActivatePlain,
    /// Release the held modifiers, then report whether a shell flyout holds the foreground.
    ReleaseModifiersAndCheckFlyout,
    /// Tap Escape to dismiss the flyout and give it a moment.
    DismissFlyout,
    /// Pause first if asked, tap ALT, attach to the foreground thread, activate,
    /// detach; report whether the window took the foreground.
    ForceActivate { pause_first: bool },
    /// Done; `success` says whether the window holds the foreground.
    Stop { success: bool },
}

/// The number of forced activation attempts.
pub const FORCE_ATTEMPTS: u8 = 3;

/// The sequence's transitions. `observed` is the outcome of the action the
/// current state was entered with (ignored at the start and after a dismissal).
pub open spec fn foreground_step_spec(state: ForegroundState, observed: bool) -> (
    ForegroundState,
    ForegroundAction,
) {
    match state {
        ForegroundState::Start => (
            ForegroundState::AwaitingForegroundCheck,
            ForegroundAction::CheckForeground,
        ),
        ForegroundState::AwaitingForegroundCheck => if observed {
            (ForegroundState::Finished { success: true }, ForegroundAction::Stop { success: true })
        } else {
            (ForegroundState::AwaitingPlainActivation, ForegroundAction::ActivatePlain)
        },
        ForegroundState::AwaitingPlainActivation => if observed {
            (ForegroundState::Finished { success: true }, ForegroundAction::Stop { success: true })
        } else {
            (
                ForegroundState::AwaitingFlyoutCheck,
                ForegroundAction::ReleaseModifiersAndCheckFlyout,
            )
        },
        ForegroundState::AwaitingFlyoutCheck => if observed {
            (ForegroundState::AwaitingDismissal, ForegroundAction::DismissFlyout)
        } else {
            (
                ForegroundState::AwaitingAttempt { attempt: 0 },
                ForegroundAction::ForceActivate { pause_first: false },
            )
        },
        ForegroundState::AwaitingDismissal => (
            ForegroundState::AwaitingAttempt { attempt: 0 },
            ForegroundAction::ForceActivate { pause_first: false },
        ),
        ForegroundState::AwaitingAttempt { attempt } => if observed {
            (ForegroundState::Finished { success: true }, ForegroundAction::Stop { success: true })
        } else if attempt + 1 < FORCE_ATTEMPTS {
            (
                ForegroundState::AwaitingAttempt { attempt: (attempt + 1) as u8 },
                ForegroundAction::ForceActivate { pause_first: true },
            )
        } else {
            (ForegroundState::Finished { success: false }, ForegroundAction::Stop { success: false })
        },
        ForegroundState::Finished { success } => (
            ForegroundState::Finished { success },
            ForegroundAction::Stop { success },
        ),
    }
}

/// Advances the foreground sequence (see `foreground_step_spec`): first a
/// check, then a plain activation, and only when that is refused the
/// escalation with synthesized keys, at most `FORCE_ATTEMPTS` times.
pub fn foreground_step(state: ForegroundState, observed: bool) -> (r: (ForegroundState, ForegroundAction))
    requires
        state_valid(state),
    ensures
        r == foreground_step_spec(state, observed),
        state_valid(r.0),
{
    match state {
        ForegroundState::Start => (
            ForegroundState::AwaitingForegroundCheck,
            ForegroundAction::CheckForeground,
        ),
        ForegroundState::AwaitingForegroundCheck => if observed {
            (ForegroundState::Finished { success: true }, ForegroundAction::Stop { success: true })
        } else {
            (ForegroundState::AwaitingPlainActivation, ForegroundAction::ActivatePlain)
        },
        ForegroundState::AwaitingPlainActivation => if observed {
            (ForegroundState::Finished { success: true }, ForegroundAction::Stop { success: true })
        } else {
            (
                ForegroundState::AwaitingFlyoutCheck,
                ForegroundAction::ReleaseModifiersAndCheckFlyout,
            )
        },
        ForegroundState::AwaitingFlyoutCheck => if observed {
            (ForegroundState::AwaitingDismissal, ForegroundAction::DismissFlyout)
        } else {
            (
                ForegroundState::AwaitingAttempt { attempt: 0 },
                ForegroundAction::ForceActivate { pause_first: false },
            )
        },
        ForegroundState::AwaitingDismissal => (
            ForegroundState::AwaitingAttempt { attempt: 0 },
            ForegroundAction::ForceActivate { pause_first: false },
        ),
        ForegroundState::AwaitingAttempt { attempt } => if observed {
            (ForegroundState::Finished { success: true }, ForegroundAction::Stop { success: true })
        } else if attempt + 1 < FORCE_ATTEMPTS {
            (
                ForegroundState::AwaitingAttempt { attempt: attempt + 1 },
                ForegroundAction::ForceActivate { pause_first: true },
            )
        } else {
            (ForegroundState::Finished { success: false }, ForegroundAction::Stop { success: false })
        },
        ForegroundState::Finished { success } => (
            ForegroundState::Finished { success },
            ForegroundAction::Stop { success },
        ),
    }
}

/// A reachable state: attempts are numbered below `FORCE_ATTEMPTS`.
pub open spec fn state_valid(state: ForegroundState) -> bool {
    match state {
        ForegroundState::AwaitingAttempt { attempt } => attempt < FORCE_ATTEMPTS,
        _ => true,
    }
}

/// The actions the sequence takes from `state` when the outcomes are `observed`, one per outcome.
pub open spec fn foreground_run(state: ForegroundState, observed: Seq<bool>) -> Seq<ForegroundAction>
    decreases observed.len(),
{
    if observed.len() == 0 {
        Seq::empty()
    } else {
        let (next, action) = foreground_step_spec(state, observed[0]);
        seq![action] + foreground_run(next, observed.drop_first())
    }
}

/// The action synthesizes keyboard input.
pub open spec fn synthesizes_input(action: ForegroundAction) -> bool {
    match action {
        ForegroundAction::ReleaseModifiersAndCheckFlyout | ForegroundAction::DismissFlyout
        | ForegroundAction::ForceActivate { .. } => true,
        _ => false,
    }
}

/// The number of forced activations among the actions.
pub open spec fn forced_count(actions: Seq<ForegroundAction>) -> nat
    decreases actions.len(),
{
    if actions.len() == 0 {
        0
    } else {
        forced_count(actions.drop_first()) + if actions[0] is ForceActivate {
            1nat
        } else {
            0nat
        }
    }
}

/// How many forced activations may still come from a state.
pub open spec fn forced_budget(state: ForegroundState) -> nat {
    match state {
        ForegroundState::AwaitingAttempt { attempt } => (FORCE_ATTEMPTS - 1 - attempt) as nat,
        ForegroundState::Finished { .. } => 0,
        _ => FORCE_ATTEMPTS as nat,
    }
}

proof fn lemma_forced_within_budget(state: ForegroundState, observed: Seq<bool>)
    requires
        state_valid(state),
    ensures
        forced_count(foreground_run(state, observed)) <= forced_budget(state),
    decreases observed.len(),
{
    if observed.len() > 0 {
        let (next, action) = foreground_step_spec(state, observed[0]);
        lemma_forced_within_budget(next, observed.drop_first());
        let run = foreground_run(state, observed);
        assert(run.drop_first() =~= foreground_run(next, observed.drop_first()));
    }
}

/// However the operating system answers, the sequence forces activation at
/// most `FORCE_ATTEMPTS` times.
pub proof fn lemma_forced_attempts_bounded(observed: Seq<bool>)
    ensures
        forced_count(foreground_run(ForegroundState::Start, observed)) <= FORCE_ATTEMPTS,
{
    lemma_forced_within_budget(ForegroundState::Start, observed);
}

proof fn lemma_finished_only_stops(state: ForegroundState, observed: Seq<bool>)
    requires
        state is Finished,
    ensures
        forall|i: int|
            0 <= i < foreground_run(state, observed).len() ==> #[trigger] foreground_run(
                state,
                observed,
            )[i] is Stop,
    decreases observed.len(),
{
    if observed.len() > 0 {
        lemma_finished_only_stops(state, observed.drop_first());
        let run = foreground_run(state, observed);
        assert(run.drop_first() =~= foreground_run(state, observed.drop_first()));
        assert forall|i: int| 0 <= i < run.len() implies #[trigger] run[i] is Stop by {
            if i > 0 {
                assert(run[i] == run.drop_first()[i - 1]);
            }
        }
    }
}

proof fn lemma_run_len(state: ForegroundState, observed: Seq<bool>)
    ensures
        foreground_run(state, observed).len() == observed.len(),
    decreases observed.len(),
{
    if observed.len() > 0 {
        let (next, _) = foreground_step_spec(state, observed[0]);
        lemma_run_len(next, observed.drop_first());
    }
}

/// Keyboard input is only ever synthesized after both the test whether the
/// window already is in the foreground (`observed[1]`) and the plain
/// activation (`observed[2]`) came back refused: when either succeeds,
/// nothing is synthesized.
pub proof fn lemma_no_synthesis_when_granted(observed: Seq<bool>)
    ensures
        forall|i: int|
            0 <= i < foreground_run(ForegroundState::Start, observed).len() && synthesizes_input(
                #[trigger] foreground_run(ForegroundState::Start, observed)[i],
            ) ==> 2 <= i && !observed[1] && !observed[2],
{
    let run = foreground_run(ForegroundState::Start, observed);
    lemma_run_len(ForegroundState::Start, observed);
    if observed.len() == 0 {
        return;
    }
    let o1 = observed.drop_first();
    let r1 = foreground_run(ForegroundState::AwaitingForegroundCheck, o1);
    assert(run =~= seq![ForegroundAction::CheckForeground] + r1);
    if o1.len() == 0 {
        return;
    }
    let o2 = o1.drop_first();
    assert(o1[0] == observed[1]);
    if observed[1] {
        let fin = foreground_run(ForegroundState::Finished { success: true }, o2);
        assert(r1 =~= seq![ForegroundAction::Stop { success: true }] + fin);
        lemma_finished_only_stops(ForegroundState::Finished { success: true }, o2);
        assert forall|i: int| 0 <= i < run.len() implies !synthesizes_input(#[trigger] run[i]) by {
            if i >= 2 {
                assert(run[i] == fin[i - 2]);
            }
        }
        return;
    }
    let r2 = foreground_run(ForegroundState::AwaitingPlainActivation, o2);
    assert(r1 =~= seq![ForegroundAction::ActivatePlain] + r2);
    if o2.len() == 0 {
        return;
    }
    let o3 = o2.drop_first();
    assert(o2[0] == observed[2]);
    if observed[2] {
        let fin = foreground_run(ForegroundState::Finished { success: true }, o3);
        assert(r2 =~= seq![ForegroundAction::Stop { success: true }] + fin);
        lemma_finished_only_stops(ForegroundState::Finished { success: true }, o3);
        assert forall|i: int| 0 <= i < run.len() implies !synthesizes_input(#[trigger] run[i]) by {
            if i >= 3 {
                assert(run[i] == fin[i - 3]);
            }
        }
    } else {
        assert(run[0] == ForegroundAction::CheckForeground);
        assert(run[1] == ForegroundAction::ActivatePlain);
    }
}

} // verus!
