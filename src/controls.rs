//! Held-key state and what it asks of the camera each frame.
use vstd::prelude::*;

verus! {

/// A named input action.
#[derive(Clone, Copy, Debug, PartialEq, Eq, Structural)]
pub enum Action {
    Forward,
    Backward,
    Left,
    Right,
    Up,
    Down,
    RollLeft,
    RollRight,
    YawLeft,
    YawRight,
    PitchUp,
    PitchDown,
    ToggleRotation,
}

/// Which actions are held, and whether the scene is kept still.
#[derive(Clone, Copy, Debug, PartialEq, Eq, Structural)]
pub struct Held {
    pub moving_forward: bool,
    pub moving_backward: bool,
    pub moving_left: bool,
    pub moving_right: bool,
    pub moving_up: bool,
    pub moving_down: bool,
    pub rotating_left: bool,
    pub rotating_right: bool,
    pub turning_left: bool,
    pub turning_right: bool,
    pub turning_up: bool,
    pub turning_down: bool,
    pub rot_static: bool,
}

/// The direction, -1, 0 or 1, of each camera operation for one frame.
#[derive(Clone, Copy, Debug, PartialEq, Eq, Structural)]
pub struct Intent {
    pub forward: i64,
    pub sideways: i64,
    pub elevation: i64,
    pub roll: i64,
    pub yaw: i64,
    pub pitch: i64,
}

/// `h` with the flag of the held action `a` set to `v`.
pub open spec fn with_flag(h: Held, a: Action, v: bool) -> Held {
    match a {
        Action::Forward => Held { moving_forward: v, ..h },
        Action::Backward => Held { moving_backward: v, ..h },
        Action::Left => Held { moving_left: v, ..h },
        Action::Right => Held { moving_right: v, ..h },
        Action::Up => Held { moving_up: v, ..h },
        Action::Down => Held { moving_down: v, ..h },
        Action::RollLeft => Held { rotating_left: v, ..h },
        Action::RollRight => Held { rotating_right: v, ..h },
        Action::YawLeft => Held { turning_left: v, ..h },
        Action::YawRight => Held { turning_right: v, ..h },
        Action::PitchUp => Held { turning_up: v, ..h },
        Action::PitchDown => Held { turning_down: v, ..h },
        Action::ToggleRotation => h,
    }
}

pub open spec fn sign_of(pos: bool, neg: bool) -> int {
    (if pos { 1int } else { 0int }) - (if neg { 1int } else { 0int })
}

impl Held {
    /// Nothing held; the scene kept still.
    pub fn new() -> (r: Held)
        ensures
            r == (Held {
                moving_forward: false,
                moving_backward: false,
                moving_left: false,
                moving_right: false,
                moving_up: false,
                moving_down: false,
                rotating_left: false,
                rotating_right: false,
                turning_left: false,
                turning_right: false,
                turning_up: false,
                turning_down: false,
                rot_static: true,
            }),
    {
        Held {
            moving_forward: false,
            moving_backward: false,
            moving_left: false,
            moving_right: false,
            moving_up: false,
            moving_down: false,
            rotating_left: false,
            rotating_right: false,
            turning_left: false,
            turning_right: false,
            turning_up: false,
            turning_down: false,
            rot_static: true,
        }
    }
}

fn set_flag(h: &mut Held, a: Action, v: bool)
    ensures
        *final(h) == with_flag(*old(h), a, v),
{
    let o = *h;
    *h = match a {
        Action::Forward => Held { moving_forward: v, ..o },
        Action::Backward => Held { moving_backward: v, ..o },
        Action::Left => Held { moving_left: v, ..o },
        Action::Right => Held { moving_right: v, ..o },
        Action::Up => Held { moving_up: v, ..o },
        Action::Down => Held { moving_down: v, ..o },
        Action::RollLeft => Held { rotating_left: v, ..o },
        Action::RollRight => Held { rotating_right: v, ..o },
        Action::YawLeft => Held { turning_left: v, ..o },
        Action::YawRight => Held { turning_right: v, ..o },
        Action::PitchUp => Held { turning_up: v, ..o },
        Action::PitchDown => Held { turning_down: v, ..o },
        Action::ToggleRotation => o,
    };
}

/// A press: the action is held from now on; a press of `ToggleRotation`
/// flips whether the scene is kept still.
pub fn press(h: &mut Held, a: Action)
    ensures
        a != Action::ToggleRotation ==> *final(h) == with_flag(*old(h), a, true),
        a == Action::ToggleRotation ==> *final(h) == (Held { rot_static: !old(h).rot_static, ..*old(h) }),
{
    if a == Action::ToggleRotation {
        h.rot_static = !h.rot_static;
    } else {
        set_flag(h, a, true);
    }
}

/// A release: the action is no longer held.
pub fn release(h: &mut Held, a: Action)
    ensures
        *final(h) == with_flag(*old(h), a, false),
{
    set_flag(h, a, false);
}

fn sign(pos: bool, neg: bool) -> (r: i64)
    ensures
        r == sign_of(pos, neg),
{
    (if pos { 1 } else { 0 }) - (if neg { 1 } else { 0 })
}

/// What the held actions ask of the camera in one frame: for each
/// operation, 1 where only its positive action is held, -1 where only its
/// negative one is, 0 otherwise.
pub fn intent(h: &Held) -> (r: Intent)
    ensures
        r.forward == sign_of(h.moving_forward, h.moving_backward),
        r.sideways == sign_of(h.moving_right, h.moving_left),
        r.elevation == sign_of(h.moving_up, h.moving_down),
        r.roll == sign_of(h.rotating_right, h.rotating_left),
        r.yaw == sign_of(h.turning_right, h.turning_left),
        r.pitch == sign_of(h.turning_up, h.turning_down),
{
    Intent {
        forward: sign(h.moving_forward, h.moving_backward),
        sideways: sign(h.moving_right, h.moving_left),
        elevation: sign(h.moving_up, h.moving_down),
        roll: sign(h.rotating_right, h.rotating_left),
        yaw: sign(h.turning_right, h.turning_left),
        pitch: sign(h.turning_up, h.turning_down),
    }
}

} // verus!
