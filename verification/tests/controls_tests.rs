use termcraft::controls::{Command, Key, KeyPress, MouseInput, MouseKind, PlayState};

fn press(key: Key) -> KeyPress {
    KeyPress { key, released: false, ctrl: false }
}

fn release(key: Key) -> KeyPress {
    KeyPress { key, released: true, ctrl: false }
}

fn fresh() -> PlayState {
    PlayState::new(20, 3)
}

#[test]
fn new_session_welcomes_the_player() {
    let s = fresh();
    assert_eq!(s.state().hp, 20);
    assert_eq!(s.state().time, 0);
    let (m, until) = s.msg().unwrap();
    assert_eq!(m, "Welcome to TermCraft 3D! Aim with arrows, mine with x.");
    assert_eq!(until, 80);
}

#[test]
fn resumed_session_caps_the_selection() {
    let s = PlayState::resumed(500, 7, 12, 20, 3);
    assert_eq!(s.state().selected, 8);
    assert_eq!(s.state().last_damage_tick, 500);
    assert_eq!(s.msg().unwrap(), ("World loaded. Welcome back!".to_string(), 580));
}

#[test]
fn movement_keys_set_intent() {
    let mut s = fresh();
    assert_eq!(s.on_key(press(Key::Char('w'))), Command::Nothing);
    assert!(s.state().held_w);
    assert_eq!((s.state().move_fwd, s.state().move_timer), (1, 4));
    s.on_key(press(Key::Char('A')));
    assert_eq!(s.state().move_strafe, -1);
    // outside hold mode the press moves for four ticks
    for _ in 0..4 {
        assert_eq!(s.begin_tick(), Some((1, -1)));
    }
    assert_eq!(s.begin_tick(), Some((0, 0)));
    assert_eq!(s.state().time, 5);
}

#[test]
fn hold_mode_follows_held_keys() {
    let mut s = fresh();
    s.set_hold_mode(true);
    s.on_key(press(Key::Char('w')));
    for _ in 0..20 {
        assert_eq!(s.begin_tick(), Some((1, 0)));
    }
    s.on_key(release(Key::Char('w')));
    assert_eq!(s.begin_tick(), Some((0, 0)));
    s.on_key(press(Key::Char('d')));
    s.on_key(press(Key::Char('s')));
    assert_eq!(s.begin_tick(), Some((-1, 1)));
}

#[test]
fn space_jumps_and_holds() {
    let mut s = fresh();
    assert_eq!(s.on_key(press(Key::Char(' '))), Command::JumpOrSwim);
    assert!(!s.holding_jump());
    s.set_hold_mode(true);
    assert!(s.holding_jump());
    assert_eq!(s.on_key(release(Key::Char(' '))), Command::Nothing);
    assert!(!s.holding_jump());
}

#[test]
fn actions_from_keys() {
    let mut s = fresh();
    assert_eq!(s.on_key(press(Key::Left)), Command::TurnLeft);
    assert_eq!(s.on_key(press(Key::Right)), Command::TurnRight);
    assert_eq!(s.on_key(press(Key::Up)), Command::LookUp);
    assert_eq!(s.on_key(press(Key::Down)), Command::LookDown);
    assert_eq!(s.on_key(press(Key::Char('x'))), Command::Mine);
    assert_eq!(s.on_key(press(Key::Enter)), Command::Mine);
    assert_eq!(s.on_key(press(Key::Char('p'))), Command::Place);
    assert_eq!(s.on_key(press(Key::F(5))), Command::Save);
    assert_eq!(s.on_key(KeyPress { key: Key::Char('s'), released: false, ctrl: true }), Command::Save);
    assert!(!s.state().held_s);
    assert_eq!(s.on_key(press(Key::F(4))), Command::Nothing);
}

#[test]
fn digits_select_hotbar_slots() {
    let mut s = fresh();
    s.on_key(press(Key::Char('1')));
    assert_eq!(s.state().selected, 0);
    s.on_key(press(Key::Char('9')));
    assert_eq!(s.state().selected, 8);
    s.on_key(press(Key::Char('0')));
    assert_eq!(s.state().selected, 8);
}

#[test]
fn crafting_menu_wraps_around() {
    let mut s = fresh();
    s.on_key(press(Key::Char('c')));
    assert!(s.state().crafting_open);
    assert_eq!(s.state().craft_sel, 0);
    s.on_key(press(Key::Up));
    assert_eq!(s.state().craft_sel, 2);
    s.on_key(press(Key::Char('s')));
    assert_eq!(s.state().craft_sel, 0);
    s.on_key(press(Key::Down));
    s.on_key(press(Key::Down));
    assert_eq!(s.state().craft_sel, 2);
    s.on_key(press(Key::Down));
    assert_eq!(s.state().craft_sel, 0);
    // movement keys do not move while the menu is open
    assert_eq!(s.on_key(press(Key::Char('w'))), Command::Nothing);
    assert!(!s.state().held_w);
    assert_eq!(s.on_key(press(Key::Char(' '))), Command::Craft);
    assert_eq!(s.on_mouse(MouseInput { kind: MouseKind::LeftDown, column: 1, row: 1 }), Command::Nothing);
    s.on_key(press(Key::Esc));
    assert!(!s.state().crafting_open);
    assert!(!s.state().should_quit);
    s.on_key(press(Key::Char('q')));
    assert!(s.state().should_quit);
}

#[test]
fn death_and_respawn() {
    let mut s = fresh();
    s.begin_tick();
    s.end_tick(25);
    assert_eq!(s.state().hp, -5);
    assert!(s.state().game_over);
    assert_eq!(s.state().last_damage_tick, 1);
    assert_eq!(s.msg().unwrap(), ("Ouch! Fall damage.".to_string(), 81));
    // the death screen freezes time and ignores play keys
    assert_eq!(s.begin_tick(), None);
    assert_eq!(s.state().time, 1);
    assert_eq!(s.on_key(press(Key::Char('x'))), Command::Nothing);
    assert_eq!(s.on_key(press(Key::Char('r'))), Command::Respawn);
    assert_eq!(s.state().hp, 20);
    assert!(!s.state().game_over);
    assert_eq!(s.msg().unwrap().0, "You respawned. Your items are intact.");
}

#[test]
fn health_regenerates_slowly() {
    let mut s = fresh();
    s.begin_tick();
    s.end_tick(5);
    assert_eq!(s.state().hp, 15);
    let mut regen_ticks = Vec::new();
    for _ in 0..200 {
        s.begin_tick();
        let before = s.state().hp;
        s.end_tick(0);
        if s.state().hp > before {
            regen_ticks.push(s.state().time);
        }
    }
    assert_eq!(regen_ticks, vec![120, 160, 200]);
    assert_eq!(s.state().hp, 18);
}

#[test]
fn messages_expire() {
    let mut s = fresh();
    for _ in 0..80 {
        s.begin_tick();
        s.end_tick(0);
    }
    assert!(s.msg().is_some());
    s.begin_tick();
    s.end_tick(0);
    assert!(s.msg().is_none());
}

#[test]
fn mouse_drag_turns_the_view() {
    let mut s = fresh();
    assert_eq!(s.on_mouse(MouseInput { kind: MouseKind::Drag, column: 10, row: 5 }), Command::Nothing);
    assert_eq!(s.on_mouse(MouseInput { kind: MouseKind::Drag, column: 7, row: 9 }), Command::Look(-3, 4));
    assert_eq!(s.on_mouse(MouseInput { kind: MouseKind::Up, column: 7, row: 9 }), Command::Nothing);
    assert_eq!(s.state().last_mouse, None);
    assert_eq!(s.on_mouse(MouseInput { kind: MouseKind::LeftDown, column: 2, row: 3 }), Command::Mine);
    assert_eq!(s.state().last_mouse, Some((2, 3)));
    assert_eq!(s.on_mouse(MouseInput { kind: MouseKind::RightDown, column: 2, row: 3 }), Command::Place);
    assert_eq!(s.on_mouse(MouseInput { kind: MouseKind::OtherDown, column: 2, row: 3 }), Command::Nothing);
}

#[test]
fn health_never_regenerates_past_the_maximum() {
    let mut s = fresh();
    s.begin_tick();
    s.end_tick(1);
    for _ in 0..2000 {
        s.begin_tick();
        s.end_tick(0);
        assert!(s.state().hp <= 20);
    }
    assert_eq!(s.state().hp, 20);
}

#[test]
fn the_death_screen_ends_no_tick() {
    let mut s = fresh();
    s.begin_tick();
    s.end_tick(25);
    assert!(s.state().game_over);
    let before = s.state();
    let msg = s.msg();
    s.end_tick(3);
    s.end_tick(0);
    assert_eq!(s.state(), before);
    assert_eq!(s.msg(), msg);
}

#[test]
fn saving_reports_its_outcome() {
    let mut s = fresh();
    s.report_save(&Ok(()));
    assert_eq!(s.msg().unwrap(), ("World saved.".to_string(), 80));
    s.report_save(&Err("disk full".to_string()));
    assert_eq!(s.msg().unwrap(), ("Save failed: disk full".to_string(), 80));
}
