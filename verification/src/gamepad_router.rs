//! Turning successive gamepad snapshots into navigation moves (with
//! auto-repeat of a held direction) and button actions (on press only).

use crate::konami::KonamiInput;
use vstd::prelude::*;

verus! {

/// A held direction repeats once it has been held longer than this, in
/// nanoseconds (350 ms).
pub const NAV_REPEAT_DELAY_NANOS: u64 = 350_000_000;

/// Milliseconds between two polls of the gamepad.
pub const POLL_INTERVAL_MS: u64 = 20;

/// Buttons read from a gamepad: A, Start, B, X, Back, Y.
pub const BUTTON_COUNT: usize = 6;

/// What a button does.
#[derive(Debug, Clone, Copy, PartialEq, Eq, Structural)]
pub enum GamepadAction {
    ActivateSelection,
    Reject,
    ShowInfoForSelection,
    ToggleFullscreen,
    OpenSettings,
}

/// A move of the selection, and the Konami input it stands for on a fresh
/// press.
pub type Move = ((i32, i32), Option<KonamiInput>);

/// Up, down, left, right as (dx, dy).
pub open spec fn direction_delta(i: int) -> (i32, i32) {
    if i == 0 {
        (0i32, -1i32)
    } else if i == 1 {
        (0i32, 1i32)
    } else if i == 2 {
        (-1i32, 0i32)
    } else {
        (1i32, 0i32)
    }
}

/// The Konami input of each direction.
pub open spec fn direction_input(i: int) -> KonamiInput {
    if i == 0 {
        KonamiInput::Up
    } else if i == 1 {
        KonamiInput::Down
    } else if i == 2 {
        KonamiInput::Left
    } else {
        KonamiInput::Right
    }
}

/// Action of each button: A and Start activate, B rejects, X shows info, Back
/// toggles fullscreen, Y opens settings.
pub open spec fn button_action(i: int) -> GamepadAction {
    if i <= 1 {
        GamepadAction::ActivateSelection
    } else if i == 2 {
        GamepadAction::Reject
    } else if i == 3 {
        GamepadAction::ShowInfoForSelection
    } else if i == 4 {
        GamepadAction::ToggleFullscreen
    } else {
        GamepadAction::OpenSettings
    }
}

/// Konami input of each button: A is A, B is B, the others count as Other.
pub open spec fn button_input(i: int) -> KonamiInput {
    if i == 0 {
        KonamiInput::A
    } else if i == 2 {
        KonamiInput::B
    } else {
        KonamiInput::Other
    }
}

/// Time from `since` to `now`, zero if `now` is earlier (as `Instant` does).
pub open spec fn elapsed(now: u64, since: u64) -> int {
    if now >= since {
        now - since
    } else {
        0
    }
}

/// Direction `i` moves the selection on this poll: it is held, and it was
/// just pressed, or is already repeating, or has been held past the delay.
pub open spec fn direction_fires(
    prev: [bool; 4],
    current: [bool; 4],
    last_move: [u64; 4],
    repeating: [bool; 4],
    now: u64,
    i: int,
) -> bool {
    current@[i] && (!prev@[i] || repeating@[i] || elapsed(now, last_move@[i]) > NAV_REPEAT_DELAY_NANOS)
}

/// The move that direction `i` makes when it fires.
pub open spec fn direction_move(prev: [bool; 4], i: int) -> Move {
    (direction_delta(i), if !prev@[i] { Some(direction_input(i)) } else { None })
}

/// The moves made by the first `k` directions, in direction order.
pub open spec fn moves_upto(
    prev: [bool; 4],
    current: [bool; 4],
    last_move: [u64; 4],
    repeating: [bool; 4],
    now: u64,
    k: int,
) -> Seq<Move>
    decreases k,
{
    if k <= 0 {
        Seq::empty()
    } else {
        let before = moves_upto(prev, current, last_move, repeating, now, k - 1);
        if direction_fires(prev, current, last_move, repeating, now, k - 1) {
            before.push(direction_move(prev, k - 1))
        } else {
            before
        }
    }
}

/// The directions that fire this poll, with the time of their last move and
/// their repeat state brought up to date: a released direction stops
/// repeating; a direction that fires records `now` and repeats from then on
/// unless this was its first press.
pub fn decide_moves(
    prev: [bool; 4],
    current: [bool; 4],
    last_move: &mut [u64; 4],
    repeating: &mut [bool; 4],
    now: u64,
) -> (moves: Vec<Move>)
    ensures
        moves@ == moves_upto(prev, current, *old(last_move), *old(repeating), now, 4),
        forall|i: int|
            #![trigger direction_fires(prev, current, *old(last_move), *old(repeating), now, i)]
            0 <= i < 4 ==> {
                let fires = direction_fires(prev, current, *old(last_move), *old(repeating), now, i);
                &&& final(last_move)@[i] == if fires { now } else { old(last_move)@[i] }
                &&& final(repeating)@[i] == if !current@[i] {
                    false
                } else if fires {
                    prev@[i]
                } else {
                    old(repeating)@[i]
                }
            },
{
    let ghost last0 = *last_move;
    let ghost rep0 = *repeating;
    let mut moves: Vec<Move> = Vec::new();
    let mut i: usize = 0;
    while i < 4
        invariant
            i <= 4,
            moves@ == moves_upto(prev, current, last0, rep0, now, i as int),
            forall|j: int|
                #![trigger last0@[j]]
                i <= j < 4 ==> last_move@[j] == last0@[j] && repeating@[j] == rep0@[j],
            forall|j: int|
                #![trigger direction_fires(prev, current, last0, rep0, now, j)]
                0 <= j < i ==> {
                    let fires = direction_fires(prev, current, last0, rep0, now, j);
                    &&& last_move@[j] == if fires { now } else { last0@[j] }
                    &&& repeating@[j] == if !current@[j] {
                        false
                    } else if fires {
                        prev@[j]
                    } else {
                        rep0@[j]
                    }
                },
        decreases 4 - i,
    {
        proof {
            assert(last_move@[i as int] == last0@[i as int]);
            assert(repeating@[i as int] == rep0@[i as int]);
        }
        let ghost lm = *last_move;
        let ghost rp = *repeating;
        if !current[i] {
            repeating[i] = false;
        } else {
            let fresh_press = !prev[i];
            let since = last_move[i];
            let waited: u64 = if now >= since { now - since } else { 0 };
            if fresh_press || repeating[i] || waited > NAV_REPEAT_DELAY_NANOS {
                let delta: (i32, i32) = if i == 0 {
                    (0, -1)
                } else if i == 1 {
                    (0, 1)
                } else if i == 2 {
                    (-1, 0)
                } else {
                    (1, 0)
                };
                let input: Option<KonamiInput> = if !fresh_press {
                    None
                } else if i == 0 {
                    Some(KonamiInput::Up)
                } else if i == 1 {
                    Some(KonamiInput::Down)
                } else if i == 2 {
                    Some(KonamiInput::Left)
                } else {
                    Some(KonamiInput::Right)
                };
                moves.push((delta, input));
                last_move[i] = now;
                repeating[i] = !fresh_press;
            }
        }
        proof {
            assert forall|j: int| 0 <= j < 4 && j != i implies last_move@[j] == lm@[j] && repeating@[j] == rp@[j] by {}
            assert forall|j: int|
                #![trigger direction_fires(prev, current, last0, rep0, now, j)]
                0 <= j < i implies last_move@[j] == lm@[j] && repeating@[j] == rp@[j] by {}
        }
        i = i + 1;
        proof {
            assert forall|j: int|
                #![trigger last0@[j]]
                i <= j < 4 implies last_move@[j] == last0@[j] && repeating@[j] == rep0@[j] by {
                assert(lm@[j] == last0@[j]);
                assert(rp@[j] == rep0@[j]);
            }
        }
    }
    moves
}

/// The actions of the buttons among the first `k` that went from released to
/// pressed, in button order.
pub open spec fn actions_upto(prev: [bool; 6], current: [bool; 6], k: int) -> Seq<(GamepadAction, KonamiInput)>
    decreases k,
{
    if k <= 0 {
        Seq::empty()
    } else {
        let before = actions_upto(prev, current, k - 1);
        if current@[k - 1] && !prev@[k - 1] {
            before.push((button_action(k - 1), button_input(k - 1)))
        } else {
            before
        }
    }
}

/// The actions of the buttons just pressed (released before, pressed now).
pub fn decide_button_actions(prev: [bool; 6], current: [bool; 6]) -> (actions: Vec<(GamepadAction, KonamiInput)>)
    ensures
        actions@ == actions_upto(prev, current, 6),
{
    let mut actions: Vec<(GamepadAction, KonamiInput)> = Vec::new();
    let mut i: usize = 0;
    while i < BUTTON_COUNT
        invariant
            i <= 6,
            actions@ == actions_upto(prev, current, i as int),
        decreases 6 - i,
    {
        if current[i] && !prev[i] {
            let action = if i <= 1 {
                GamepadAction::ActivateSelection
            } else if i == 2 {
                GamepadAction::Reject
            } else if i == 3 {
                GamepadAction::ShowInfoForSelection
            } else if i == 4 {
                GamepadAction::ToggleFullscreen
            } else {
                GamepadAction::OpenSettings
            };
            let input = if i == 0 {
                KonamiInput::A
            } else if i == 2 {
                KonamiInput::B
            } else {
                KonamiInput::Other
            };
            actions.push((action, input));
        }
        i = i + 1;
    }
    actions
}

/// What the gamepad can ask of the window or dialog on top: each call is
/// first offered to `intercept` (a dialog that consumes the Konami code, for
/// instance), and made only when it returns `false`.
pub trait GamepadTarget {
    /// Whether the target consumes this input itself.
    fn intercept(&self, input: Option<KonamiInput>) -> bool;

    fn move_selection(&self, dx: i32, dy: i32);

    fn activate_selection(&self);

    fn reject(&self);

    fn show_info_for_selection(&self);

    fn toggle_fullscreen(&self);

    fn open_settings(&self);
}

/// A call made on a target.
#[derive(Debug, Clone, Copy, PartialEq, Eq, Structural)]
pub enum TargetCall {
    MoveSelection(i32, i32),
    ActivateSelection,
    Reject,
    ShowInfoForSelection,
    ToggleFullscreen,
    OpenSettings,
}

/// The call a button action makes.
pub open spec fn action_call(a: GamepadAction) -> TargetCall {
    match a {
        GamepadAction::ActivateSelection => TargetCall::ActivateSelection,
        GamepadAction::Reject => TargetCall::Reject,
        GamepadAction::ShowInfoForSelection => TargetCall::ShowInfoForSelection,
        GamepadAction::ToggleFullscreen => TargetCall::ToggleFullscreen,
        GamepadAction::OpenSettings => TargetCall::OpenSettings,
    }
}

/// The call a move makes, unless the target intercepted its input.
pub fn move_call(m: Move, intercepted: bool) -> (r: Option<TargetCall>)
    ensures
        r == if intercepted {
            None
        } else {
            Some(TargetCall::MoveSelection(m.0.0, m.0.1))
        },
{
    if intercepted {
        None
    } else {
        Some(TargetCall::MoveSelection(m.0.0, m.0.1))
    }
}

/// The call a button action makes, unless the target intercepted its input.
pub fn button_call(action: GamepadAction, intercepted: bool) -> (r: Option<TargetCall>)
    ensures
        r == if intercepted {
            None
        } else {
            Some(action_call(action))
        },
{
    if intercepted {
        return None;
    }
    Some(
        match action {
            GamepadAction::ActivateSelection => TargetCall::ActivateSelection,
            GamepadAction::Reject => TargetCall::Reject,
            GamepadAction::ShowInfoForSelection => TargetCall::ShowInfoForSelection,
            GamepadAction::ToggleFullscreen => TargetCall::ToggleFullscreen,
            GamepadAction::OpenSettings => TargetCall::OpenSettings,
        },
    )
}

/// Makes `call` on `target`.
pub fn perform<T: GamepadTarget>(target: &T, call: TargetCall) {
    match call {
        TargetCall::MoveSelection(dx, dy) => target.move_selection(dx, dy),
        TargetCall::ActivateSelection => target.activate_selection(),
        TargetCall::Reject => target.reject(),
        TargetCall::ShowInfoForSelection => target.show_info_for_selection(),
        TargetCall::ToggleFullscreen => target.toggle_fullscreen(),
        TargetCall::OpenSettings => target.open_settings(),
    }
}

/// What one poll of the gamepad produced, for the target on top.
pub struct PollResult<T> {
    pub target: T,
    pub moves: Vec<Move>,
    pub actions: Vec<(GamepadAction, KonamiInput)>,
}

/// One input of a poll as `dispatch` handled it: the input offered to
/// `intercept`, its answer, and the call then made (none when intercepted).
#[derive(Debug, Clone, Copy, PartialEq, Eq, Structural)]
pub struct DispatchStep {
    pub offered: Option<KonamiInput>,
    pub intercepted: bool,
    pub call: Option<TargetCall>,
}

/// What `dispatch` does with the `i`-th move: offers its input, and moves the
/// selection unless intercepted.
pub open spec fn move_step(m: Move, intercepted: bool) -> DispatchStep {
    DispatchStep {
        offered: m.1,
        intercepted,
        call: if intercepted {
            None
        } else {
            Some(TargetCall::MoveSelection(m.0.0, m.0.1))
        },
    }
}

/// What `dispatch` does with a button action: offers its input, and makes
/// the action's call unless intercepted.
pub open spec fn action_step(a: (GamepadAction, KonamiInput), intercepted: bool) -> DispatchStep {
    DispatchStep {
        offered: Some(a.1),
        intercepted,
        call: if intercepted {
            None
        } else {
            Some(action_call(a.0))
        },
    }
}

/// Hands a poll's moves, then its button actions, to its target, in order:
/// each input is first offered to `intercept`, and its call is made only when
/// that returns `false`. Returns what was done, one step per move and then
/// one per action.
pub fn dispatch<T: GamepadTarget>(result: PollResult<T>) -> (steps: Vec<DispatchStep>)
    ensures
        steps@.len() == result.moves@.len() + result.actions@.len(),
        forall|i: int|
            0 <= i < result.moves@.len() ==> #[trigger] steps@[i] == move_step(
                result.moves@[i],
                steps@[i].intercepted,
            ),
        forall|j: int|
            0 <= j < result.actions@.len() ==> #[trigger] steps@[result.moves@.len() + j] == action_step(
                result.actions@[j],
                steps@[result.moves@.len() + j].intercepted,
            ),
{
    let mut steps: Vec<DispatchStep> = Vec::new();
    let mut i: usize = 0;
    while i < result.moves.len()
        invariant
            i <= result.moves@.len(),
            steps@.len() == i,
            forall|k: int| 0 <= k < i ==> #[trigger] steps@[k] == move_step(result.moves@[k], steps@[k].intercepted),
        decreases result.moves@.len() - i,
    {
        let m = result.moves[i];
        let intercepted = result.target.intercept(m.1);
        let call = move_call(m, intercepted);
        if let Some(c) = call {
            perform(&result.target, c);
        }
        steps.push(DispatchStep { offered: m.1, intercepted, call });
        i = i + 1;
    }
    let n = result.moves.len();
    let mut j: usize = 0;
    while j < result.actions.len()
        invariant
            n == result.moves@.len(),
            j <= result.actions@.len(),
            steps@.len() == n + j,
            forall|k: int| 0 <= k < n ==> #[trigger] steps@[k] == move_step(result.moves@[k], steps@[k].intercepted),
            forall|k: int|
                0 <= k < j ==> #[trigger] steps@[n + k] == action_step(result.actions@[k], steps@[n + k].intercepted),
        decreases result.actions@.len() - j,
    {
        let (action, input) = result.actions[j];
        let intercepted = result.target.intercept(Some(input));
        let call = button_call(action, intercepted);
        if let Some(c) = call {
            perform(&result.target, c);
        }
        steps.push(DispatchStep { offered: Some(input), intercepted, call });
        proof {
            assert(steps@[n + j] == action_step(result.actions@[j as int], intercepted));
        }
        j = j + 1;
    }
    steps
}

} // verus!
