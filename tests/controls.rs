use u61q::controls::{intent, press, release, Action, Held, Intent};

#[test]
fn nothing_held_asks_for_nothing() {
    let h = Held::new();
    assert!(h.rot_static);
    assert_eq!(
        intent(&h),
        Intent { forward: 0, sideways: 0, elevation: 0, roll: 0, yaw: 0, pitch: 0 }
    );
}

#[test]
fn held_actions_set_directions() {
    let mut h = Held::new();
    press(&mut h, Action::Forward);
    press(&mut h, Action::Left);
    press(&mut h, Action::PitchDown);
    press(&mut h, Action::RollRight);
    let i = intent(&h);
    assert_eq!(i, Intent { forward: 1, sideways: -1, elevation: 0, roll: 1, yaw: 0, pitch: -1 });
    release(&mut h, Action::Forward);
    assert_eq!(intent(&h).forward, 0);
}

#[test]
fn opposite_actions_cancel() {
    let mut h = Held::new();
    press(&mut h, Action::Up);
    press(&mut h, Action::Down);
    press(&mut h, Action::YawLeft);
    press(&mut h, Action::YawRight);
    let i = intent(&h);
    assert_eq!(i.elevation, 0);
    assert_eq!(i.yaw, 0);
    assert!(h.moving_up && h.moving_down);
}

#[test]
fn toggle_flips_on_press_only() {
    let mut h = Held::new();
    press(&mut h, Action::ToggleRotation);
    assert!(!h.rot_static);
    release(&mut h, Action::ToggleRotation);
    assert!(!h.rot_static);
    press(&mut h, Action::ToggleRotation);
    assert!(h.rot_static);
}
