use vstd::prelude::*;

verus! {

/// Ticks a status message stays on screen.
pub const MESSAGE_TICKS: u64 = 80;

/// Ticks a key press keeps moving the player when the terminal reports no
/// key releases.
pub const MOVE_PRESS_TICKS: u32 = 4;

/// A key as the game reads it.
#[derive(Clone, Copy, PartialEq, Eq, Structural, Debug)]
pub enum Key {
    Char(char),
    Enter,
    Esc,
    Up,
    Down,
    Left,
    Right,
    F(u8),
    Other,
}

/// A key event: the key, whether it was released (rather than pressed or
/// repeated), and whether Control was held.
#[derive(Clone, Copy, PartialEq, Eq, Structural, Debug)]
pub struct KeyPress {
    pub key: Key,
    pub released: bool,
    pub ctrl: bool,
}

/// A mouse event kind as the game reads it.
#[derive(Clone, Copy, PartialEq, Eq, Structural, Debug)]
pub enum MouseKind {
    LeftDown,
    RightDown,
    OtherDown,
    Drag,
    Up,
    Other,
}

/// A mouse event at a terminal cell.
#[derive(Clone, Copy, PartialEq, Eq, Structural, Debug)]
pub struct MouseInput {
    pub kind: MouseKind,
    pub column: u16,
    pub row: u16,
}

/// What the game has to do in the world after an input.
#[derive(Clone, Copy, PartialEq, Eq, Structural, Debug)]
pub enum Command {
    Nothing,
    /// Put the player back at the spawn point, at rest.
    Respawn,
    /// Craft the selected recipe.
    Craft,
    Save,
    JumpOrSwim,
    TurnLeft,
    TurnRight,
    LookUp,
    LookDown,
    Mine,
    Place,
    /// Turn the view by a mouse drag of this many columns and rows.
    Look(i32, i32),
}

/// The plain state of a play session apart from the world, the player's
/// position and the status message: health, the clock, the menus and the
/// movement keys.
#[derive(Clone, Copy, PartialEq, Eq, Debug)]
pub struct PlayFields {
    pub time: u64,
    pub hp: i32,
    pub max_hp: i32,
    pub should_quit: bool,
    pub crafting_open: bool,
    pub craft_sel: usize,
    pub recipe_count: usize,
    pub selected: usize,
    pub game_over: bool,
    /// Movement intent of the last key press: 1 forward (right), -1 back
    /// (left), 0 none.
    pub move_fwd: i8,
    pub move_strafe: i8,
    pub move_timer: u32,
    /// True when the terminal reports key release events, enabling
    /// continuous hold-to-move instead of per-keypress nudges.
    pub hold_mode: bool,
    pub held_w: bool,
    pub held_s: bool,
    pub held_a: bool,
    pub held_d: bool,
    pub held_jump: bool,
    pub last_damage_tick: u64,
    pub last_mouse: Option<(u16, u16)>,
}

impl PlayFields {
    /// A recipe list to select from and a selection inside it, and a
    /// hotbar slot selected.
    pub open spec fn wf(&self) -> bool {
        self.recipe_count > 0 && self.craft_sel < self.recipe_count && self.selected < 9
    }
}

/// The fields of a session starting at `time` with health `hp`, hotbar slot
/// `selected` and no damage since `last_damage`: no menu open, no keys
/// held.
pub open spec fn session_start(
    time: u64,
    hp: i32,
    selected: usize,
    max_hp: i32,
    recipe_count: usize,
    last_damage: u64,
) -> PlayFields {
    PlayFields {
        time,
        hp,
        max_hp,
        should_quit: false,
        crafting_open: false,
        craft_sel: 0,
        recipe_count,
        selected,
        game_over: false,
        move_fwd: 0,
        move_strafe: 0,
        move_timer: 0,
        hold_mode: false,
        held_w: false,
        held_s: false,
        held_a: false,
        held_d: false,
        held_jump: false,
        last_damage_tick: last_damage,
        last_mouse: None,
    }
}

/// The state after a key release: the released movement key is no longer
/// held.
pub open spec fn after_release(s: PlayFields, key: Key) -> PlayFields {
    match key {
        Key::Char('w') | Key::Char('W') => PlayFields { held_w: false, ..s },
        Key::Char('s') | Key::Char('S') => PlayFields { held_s: false, ..s },
        Key::Char('a') | Key::Char('A') => PlayFields { held_a: false, ..s },
        Key::Char('d') | Key::Char('D') => PlayFields { held_d: false, ..s },
        Key::Char(' ') => PlayFields { held_jump: false, ..s },
        _ => s,
    }
}

/// The state and command after a key press on the death screen: `r`
/// respawns with full health, `q` or Esc quits.
pub open spec fn game_over_step(s: PlayFields, key: Key) -> (PlayFields, Command) {
    match key {
        Key::Char('r') | Key::Char('R') => (
            PlayFields { hp: s.max_hp, game_over: false, ..s },
            Command::Respawn,
        ),
        Key::Char('q') | Key::Esc => (PlayFields { should_quit: true, ..s }, Command::Nothing),
        _ => (s, Command::Nothing),
    }
}

/// The state and command after a key press in the crafting menu: Esc, `c`
/// or `q` closes it, up/`w` and down/`s` move the selection round the
/// recipe list, Enter or space crafts.
pub open spec fn crafting_step(s: PlayFields, key: Key) -> (PlayFields, Command) {
    match key {
        Key::Esc | Key::Char('c') | Key::Char('q') => (
            PlayFields { crafting_open: false, ..s },
            Command::Nothing,
        ),
        Key::Up | Key::Char('w') => (
            PlayFields {
                craft_sel: if s.craft_sel == 0 {
                    (s.recipe_count - 1) as usize
                } else {
                    (s.craft_sel - 1) as usize
                },
                ..s
            },
            Command::Nothing,
        ),
        Key::Down | Key::Char('s') => (
            PlayFields { craft_sel: ((s.craft_sel + 1) % (s.recipe_count as int)) as usize, ..s },
            Command::Nothing,
        ),
        Key::Enter | Key::Char(' ') => (s, Command::Craft),
        _ => (s, Command::Nothing),
    }
}

/// The hotbar slot a digit key selects.
pub open spec fn digit_slot(c: char) -> Option<usize> {
    if c == '1' {
        Some(0usize)
    } else if c == '2' {
        Some(1usize)
    } else if c == '3' {
        Some(2usize)
    } else if c == '4' {
        Some(3usize)
    } else if c == '5' {
        Some(4usize)
    } else if c == '6' {
        Some(5usize)
    } else if c == '7' {
        Some(6usize)
    } else if c == '8' {
        Some(7usize)
    } else if c == '9' {
        Some(8usize)
    } else {
        None
    }
}

/// The state and command after a key press while playing.
pub open spec fn playing_step(s: PlayFields, key: Key) -> (PlayFields, Command) {
    match key {
        Key::Char('q') | Key::Esc => (PlayFields { should_quit: true, ..s }, Command::Nothing),
        Key::Char('w') | Key::Char('W') => (
            PlayFields { held_w: true, move_fwd: 1, move_timer: MOVE_PRESS_TICKS, ..s },
            Command::Nothing,
        ),
        Key::Char('s') | Key::Char('S') => (
            PlayFields { held_s: true, move_fwd: -1i8, move_timer: MOVE_PRESS_TICKS, ..s },
            Command::Nothing,
        ),
        Key::Char('a') | Key::Char('A') => (
            PlayFields { held_a: true, move_strafe: -1i8, move_timer: MOVE_PRESS_TICKS, ..s },
            Command::Nothing,
        ),
        Key::Char('d') | Key::Char('D') => (
            PlayFields { held_d: true, move_strafe: 1, move_timer: MOVE_PRESS_TICKS, ..s },
            Command::Nothing,
        ),
        Key::Char(' ') => (PlayFields { held_jump: true, ..s }, Command::JumpOrSwim),
        Key::Left => (s, Command::TurnLeft),
        Key::Right => (s, Command::TurnRight),
        Key::Up => (s, Command::LookUp),
        Key::Down => (s, Command::LookDown),
        Key::Char('x') | Key::Char('X') | Key::Enter => (s, Command::Mine),
        Key::Char('z') | Key::Char('Z') | Key::Char('p') => (s, Command::Place),
        Key::Char('c') | Key::Char('C') => (
            PlayFields { crafting_open: true, craft_sel: 0, ..s },
            Command::Nothing,
        ),
        Key::Char(c) => match digit_slot(c) {
            Some(i) => (PlayFields { selected: i, ..s }, Command::Nothing),
            None => (s, Command::Nothing),
        },
        Key::F(5) => (s, Command::Save),
        _ => (s, Command::Nothing),
    }
}

/// The state and command after any key event. The status message is left
/// out: only a respawn changes it (see [`PlayFields::on_key`]).
pub open spec fn key_step(s: PlayFields, k: KeyPress) -> (PlayFields, Command) {
    if k.released {
        (after_release(s, k.key), Command::Nothing)
    } else if s.game_over {
        game_over_step(s, k.key)
    } else if s.crafting_open {
        crafting_step(s, k.key)
    } else if k.key == Key::Char('s') && k.ctrl {
        (s, Command::Save)
    } else {
        playing_step(s, k.key)
    }
}

/// The state and command after a mouse event: left click mines (and marks
/// where a drag starts), right click places, a drag turns the view by how
/// far the mouse moved since the last drag position, releasing ends the
/// drag. On the death screen and in the crafting menu the mouse does
/// nothing.
pub open spec fn mouse_step(s: PlayFields, m: MouseInput) -> (PlayFields, Command) {
    if s.game_over || s.crafting_open {
        (s, Command::Nothing)
    } else {
        match m.kind {
            MouseKind::LeftDown => (
                PlayFields { last_mouse: Some((m.column, m.row)), ..s },
                Command::Mine,
            ),
            MouseKind::RightDown => (s, Command::Place),
            MouseKind::Drag => (
                PlayFields { last_mouse: Some((m.column, m.row)), ..s },
                match s.last_mouse {
                    Some((lx, ly)) => Command::Look(
                        (m.column - lx) as i32,
                        (m.row - ly) as i32,
                    ),
                    None => Command::Nothing,
                },
            ),
            MouseKind::Up => (PlayFields { last_mouse: None, ..s }, Command::Nothing),
            _ => (s, Command::Nothing),
        }
    }
}

/// The movement intent (forward, strafe) a tick takes: the held keys in
/// hold mode, else the last key press while its timer runs.
pub open spec fn movement_intent(s: PlayFields) -> (i8, i8) {
    if s.hold_mode {
        (
            ((if s.held_w { 1int } else { 0int }) - (if s.held_s { 1int } else { 0int })) as i8,
            ((if s.held_d { 1int } else { 0int }) - (if s.held_a { 1int } else { 0int })) as i8,
        )
    } else if s.move_timer > 0 {
        (s.move_fwd, s.move_strafe)
    } else {
        (0, 0)
    }
}

/// Whether health grows back by one this tick: hurt, not damaged for more
/// than 100 ticks, and on a tick divisible by 40.
pub open spec fn regenerates(hp: int, max_hp: int, time: int, last_damage: int) -> bool {
    hp < max_hp && (if time >= last_damage { time - last_damage } else { 0 }) > 100 && time % 40
        == 0
}

/// The fields after a tick starts (see [`PlayState::begin_tick`]).
pub open spec fn tick_started(s: PlayFields) -> PlayFields {
    if s.game_over {
        s
    } else if s.hold_mode {
        PlayFields { time: (s.time + 1) as u64, ..s }
    } else if s.move_timer > 0 {
        PlayFields { time: (s.time + 1) as u64, move_timer: (s.move_timer - 1) as u32, ..s }
    } else {
        PlayFields { time: (s.time + 1) as u64, move_fwd: 0, move_strafe: 0, ..s }
    }
}

/// Health after a fall costing `fall_damage` (nothing when it is not
/// positive).
pub open spec fn hp_after_fall(s: PlayFields, fall_damage: int) -> int {
    if fall_damage > 0 {
        s.hp - fall_damage
    } else {
        s.hp as int
    }
}

/// The tick of the last damage after a fall costing `fall_damage`.
pub open spec fn damage_tick_after_fall(s: PlayFields, fall_damage: int) -> u64 {
    if fall_damage > 0 {
        s.time
    } else {
        s.last_damage_tick
    }
}

/// Health at the end of a tick: after the fall, plus one point when it
/// grows back (see [`regenerates`]).
pub open spec fn hp_at_tick_end(s: PlayFields, fall_damage: int) -> int {
    let hp1 = hp_after_fall(s, fall_damage);
    if regenerates(hp1, s.max_hp as int, s.time as int, damage_tick_after_fall(s, fall_damage) as int) {
        hp1 + 1
    } else {
        hp1
    }
}

/// The fields after a tick ends (see [`PlayState::end_tick`]).
pub open spec fn tick_ended(s: PlayFields, fall_damage: int) -> PlayFields {
    if s.game_over {
        s
    } else {
        PlayFields {
            hp: hp_at_tick_end(s, fall_damage) as i32,
            last_damage_tick: damage_tick_after_fall(s, fall_damage),
            game_over: hp_at_tick_end(s, fall_damage) <= 0,
            ..s
        }
    }
}

/// A status message after the tick `time`: it is cleared once expired.
pub open spec fn message_after(m: Option<(Seq<char>, u64)>, time: u64) -> Option<(Seq<char>, u64)> {
    match m {
        Some((text, until)) => if time > until {
            None
        } else {
            Some((text, until))
        },
        None => None,
    }
}

fn release_key(f: PlayFields, key: Key) -> (r: PlayFields)
    ensures
        r == after_release(f, key),
{
    let mut f = f;
    match key {
        Key::Char('w') | Key::Char('W') => f.held_w = false,
        Key::Char('s') | Key::Char('S') => f.held_s = false,
        Key::Char('a') | Key::Char('A') => f.held_a = false,
        Key::Char('d') | Key::Char('D') => f.held_d = false,
        Key::Char(' ') => f.held_jump = false,
        _ => {},
    }
    f
}

fn game_over_key(f: PlayFields, key: Key) -> (r: (PlayFields, Command))
    ensures
        r == game_over_step(f, key),
{
    let mut f = f;
    match key {
        Key::Char('r') | Key::Char('R') => {
            f.hp = f.max_hp;
            f.game_over = false;
            (f, Command::Respawn)
        },
        Key::Char('q') | Key::Esc => {
            f.should_quit = true;
            (f, Command::Nothing)
        },
        _ => (f, Command::Nothing),
    }
}

fn crafting_key(f: PlayFields, key: Key) -> (r: (PlayFields, Command))
    requires
        f.wf(),
    ensures
        r == crafting_step(f, key),
{
    let mut f = f;
    match key {
        Key::Esc | Key::Char('c') | Key::Char('q') => {
            f.crafting_open = false;
            (f, Command::Nothing)
        },
        Key::Up | Key::Char('w') => {
            f.craft_sel = if f.craft_sel == 0 {
                f.recipe_count - 1
            } else {
                f.craft_sel - 1
            };
            (f, Command::Nothing)
        },
        Key::Down | Key::Char('s') => {
            f.craft_sel = (f.craft_sel + 1) % f.recipe_count;
            (f, Command::Nothing)
        },
        Key::Enter | Key::Char(' ') => (f, Command::Craft),
        _ => (f, Command::Nothing),
    }
}

fn digit_key(c: char) -> (r: Option<usize>)
    ensures
        r == digit_slot(c),
        '1' <= c <= '9' ==> r == Some(((c as int) - ('1' as int)) as usize),
        !('1' <= c <= '9') ==> r is None,
{
    if c == '1' {
        Some(0usize)
    } else if c == '2' {
        Some(1usize)
    } else if c == '3' {
        Some(2usize)
    } else if c == '4' {
        Some(3usize)
    } else if c == '5' {
        Some(4usize)
    } else if c == '6' {
        Some(5usize)
    } else if c == '7' {
        Some(6usize)
    } else if c == '8' {
        Some(7usize)
    } else if c == '9' {
        Some(8usize)
    } else {
        None
    }
}

fn playing_key(f: PlayFields, key: Key) -> (r: (PlayFields, Command))
    ensures
        r == playing_step(f, key),
{
    let mut f = f;
    match key {
        Key::Char('q') | Key::Esc => {
            f.should_quit = true;
            (f, Command::Nothing)
        },
        Key::Char('w') | Key::Char('W') => {
            f.held_w = true;
            f.move_fwd = 1;
            f.move_timer = MOVE_PRESS_TICKS;
            (f, Command::Nothing)
        },
        Key::Char('s') | Key::Char('S') => {
            f.held_s = true;
            f.move_fwd = -1;
            f.move_timer = MOVE_PRESS_TICKS;
            (f, Command::Nothing)
        },
        Key::Char('a') | Key::Char('A') => {
            f.held_a = true;
            f.move_strafe = -1;
            f.move_timer = MOVE_PRESS_TICKS;
            (f, Command::Nothing)
        },
        Key::Char('d') | Key::Char('D') => {
            f.held_d = true;
            f.move_strafe = 1;
            f.move_timer = MOVE_PRESS_TICKS;
            (f, Command::Nothing)
        },
        Key::Char(' ') => {
            f.held_jump = true;
            (f, Command::JumpOrSwim)
        },
        Key::Left => (f, Command::TurnLeft),
        Key::Right => (f, Command::TurnRight),
        Key::Up => (f, Command::LookUp),
        Key::Down => (f, Command::LookDown),
        Key::Char('x') | Key::Char('X') | Key::Enter => (f, Command::Mine),
        Key::Char('z') | Key::Char('Z') | Key::Char('p') => (f, Command::Place),
        Key::Char('c') | Key::Char('C') => {
            f.crafting_open = true;
            f.craft_sel = 0;
            (f, Command::Nothing)
        },
        Key::Char(c) => {
            if let Some(i) = digit_key(c) {
                f.selected = i;
            }
            (f, Command::Nothing)
        },
        Key::F(5) => (f, Command::Save),
        _ => (f, Command::Nothing),
    }
}

/// A play session: its plain state (see [`PlayFields`]) and the status
/// message with the tick it is shown until.
pub struct PlayState {
    fields: PlayFields,
    msg: Option<(String, u64)>,
}

impl View for PlayState {
    type V = PlayFields;

    closed spec fn view(&self) -> PlayFields {
        self.fields
    }
}

impl PlayState {
    #[verifier::type_invariant]
    spec fn consistent(self) -> bool {
        self.fields.wf()
    }

    /// The status message: its text and the tick it is shown until.
    pub closed spec fn message(&self) -> Option<(Seq<char>, u64)> {
        match self.msg {
            Some((m, t)) => Some((m@, t)),
            None => None,
        }
    }

    /// Whether the message is `text`, shown until `until`.
    pub open spec fn shows(&self, text: Seq<char>, until: int) -> bool {
        self.message() matches Some((m, t)) && m == text && t == until
    }

    /// Reports how saving the world went: "World saved." when it succeeded,
    /// else "Save failed: " and the error's text.
    pub fn report_save(&mut self, outcome: &Result<(), String>)
        requires
            old(self)@.time <= u64::MAX - MESSAGE_TICKS,
        ensures
            final(self)@ == old(self)@,
            match outcome {
                Ok(_) => final(self).shows("World saved."@, old(self)@.time + MESSAGE_TICKS),
                Err(e) => final(self).shows(
                    "Save failed: "@ + e@,
                    old(self)@.time + MESSAGE_TICKS,
                ),
            },
    {
        match outcome {
            Ok(_) => self.say("World saved."),
            Err(e) => {
                let mut m = String::from_str("Save failed: ");
                m.append(e.as_str());
                self.say(m.as_str());
            },
        }
    }

    /// A fresh session at time 0 with full health and a welcome message.
    pub fn new(max_hp: i32, recipe_count: usize) -> (s: PlayState)
        requires
            recipe_count > 0,
        ensures
            s@ == session_start(0, max_hp, 0, max_hp, recipe_count, 0),
            s@.wf(),
            s.shows("Welcome to TermCraft 3D! Aim with arrows, mine with x."@, MESSAGE_TICKS as int),
    {
        let fields = PlayFields {
            time: 0,
            hp: max_hp,
            max_hp,
            should_quit: false,
            crafting_open: false,
            craft_sel: 0,
            recipe_count,
            selected: 0,
            game_over: false,
            move_fwd: 0,
            move_strafe: 0,
            move_timer: 0,
            hold_mode: false,
            held_w: false,
            held_s: false,
            held_a: false,
            held_d: false,
            held_jump: false,
            last_damage_tick: 0,
            last_mouse: None,
        };
        let mut s = PlayState { fields, msg: None };
        s.say("Welcome to TermCraft 3D! Aim with arrows, mine with x.");
        s
    }

    /// A session resumed from a save: the saved clock, health and hotbar
    /// selection (capped at the last slot), no damage pending, and a
    /// welcome-back message.
    pub fn resumed(time: u64, hp: i32, selected: usize, max_hp: i32, recipe_count: usize) -> (s:
        PlayState)
        requires
            recipe_count > 0,
            time <= u64::MAX - MESSAGE_TICKS,
        ensures
            s@ == session_start(
                time,
                hp,
                if selected < 8 {
                    selected
                } else {
                    8
                },
                max_hp,
                recipe_count,
                time,
            ),
            s@.wf(),
            s.shows("World loaded. Welcome back!"@, time + MESSAGE_TICKS),
    {
        let fields = PlayFields {
            time,
            hp,
            max_hp,
            should_quit: false,
            crafting_open: false,
            craft_sel: 0,
            recipe_count,
            selected: if selected < 8 {
                selected
            } else {
                8
            },
            game_over: false,
            move_fwd: 0,
            move_strafe: 0,
            move_timer: 0,
            hold_mode: false,
            held_w: false,
            held_s: false,
            held_a: false,
            held_d: false,
            held_jump: false,
            last_damage_tick: time,
            last_mouse: None,
        };
        let mut s = PlayState { fields, msg: None };
        s.say("World loaded. Welcome back!");
        s
    }

    /// The plain state of the session.
    pub fn state(&self) -> (r: PlayFields)
        ensures
            r == self@,
            r.wf(),
    {
        proof {
            use_type_invariant(self);
        }
        self.fields
    }

    /// The status message and the tick it is shown until, if any.
    pub fn msg(&self) -> (r: Option<(String, u64)>)
        ensures
            r is None <==> self.message() is None,
            r matches Some((m, t)) ==> self.message() == Some((m@, t)),
    {
        match &self.msg {
            Some((m, t)) => Some((m.clone(), *t)),
            None => None,
        }
    }

    /// Shows `text` for the next `MESSAGE_TICKS` ticks.
    pub fn say(&mut self, text: &str)
        requires
            old(self)@.time <= u64::MAX - MESSAGE_TICKS,
        ensures
            final(self)@ == old(self)@,
            final(self).shows(text@, old(self)@.time + MESSAGE_TICKS),
    {
        proof {
            use_type_invariant(&*self);
        }
        self.msg = Some((text.to_owned(), self.fields.time + MESSAGE_TICKS));
    }

    pub fn set_hold_mode(&mut self, on: bool)
        ensures
            final(self)@ == (PlayFields { hold_mode: on, ..old(self)@ }),
            final(self).message() == old(self).message(),
    {
        proof {
            use_type_invariant(&*self);
        }
        let mut f = self.fields;
        f.hold_mode = on;
        self.fields = f;
    }

    /// Whether space is being held down in hold mode, which keeps jumping or
    /// swimming up every tick.
    pub fn holding_jump(&self) -> (r: bool)
        ensures
            r == (self@.hold_mode && self@.held_jump),
    {
        self.fields.hold_mode && self.fields.held_jump
    }

    /// Handles a key event (see [`key_step`]); a respawn also shows a
    /// message.
    pub fn on_key(&mut self, k: KeyPress) -> (cmd: Command)
        requires
            key_step(old(self)@, k).1 == Command::Respawn ==> old(self)@.time <= u64::MAX
                - MESSAGE_TICKS,
        ensures
            (final(self)@, cmd) == key_step(old(self)@, k),
            final(self)@.wf(),
            !k.released && !old(self)@.game_over && !old(self)@.crafting_open && (k.key matches Key::Char(
                c,
            ) && '1' <= c <= '9') ==> final(self)@.selected == (k.key->Char_0 as int) - ('1' as int)
                && cmd == Command::Nothing,
            cmd != Command::Respawn ==> final(self).message() == old(self).message(),
            cmd == Command::Respawn ==> final(self).shows(
                "You respawned. Your items are intact."@,
                old(self)@.time + MESSAGE_TICKS,
            ),
    {
        proof {
            use_type_invariant(&*self);
        }
        let f = self.fields;
        let (f2, cmd) = if k.released {
            (release_key(f, k.key), Command::Nothing)
        } else if f.game_over {
            game_over_key(f, k.key)
        } else if f.crafting_open {
            crafting_key(f, k.key)
        } else if k.key == Key::Char('s') && k.ctrl {
            (f, Command::Save)
        } else {
            playing_key(f, k.key)
        };
        self.fields = f2;
        if cmd == Command::Respawn {
            self.say("You respawned. Your items are intact.");
        }
        cmd
    }

    /// Handles a mouse event (see [`mouse_step`]).
    pub fn on_mouse(&mut self, m: MouseInput) -> (cmd: Command)
        ensures
            (final(self)@, cmd) == mouse_step(old(self)@, m),
            final(self).message() == old(self).message(),
    {
        proof {
            use_type_invariant(&*self);
        }
        let mut f = self.fields;
        if f.game_over || f.crafting_open {
            return Command::Nothing;
        }
        let cmd = match m.kind {
            MouseKind::LeftDown => {
                f.last_mouse = Some((m.column, m.row));
                Command::Mine
            },
            MouseKind::RightDown => Command::Place,
            MouseKind::Drag => {
                let cmd = match f.last_mouse {
                    Some((lx, ly)) => Command::Look(
                        m.column as i32 - lx as i32,
                        m.row as i32 - ly as i32,
                    ),
                    None => Command::Nothing,
                };
                f.last_mouse = Some((m.column, m.row));
                cmd
            },
            MouseKind::Up => {
                f.last_mouse = None;
                Command::Nothing
            },
            _ => Command::Nothing,
        };
        self.fields = f;
        cmd
    }

    /// Starts a tick: on the death screen nothing happens and `None` comes
    /// back; otherwise the clock advances and the movement intent of this
    /// tick comes back (see [`movement_intent`]). Outside hold mode a key
    /// press moves for a few ticks, then the intent is cleared (see
    /// [`tick_started`]).
    pub fn begin_tick(&mut self) -> (intent: Option<(i8, i8)>)
        requires
            !old(self)@.game_over ==> old(self)@.time < u64::MAX,
        ensures
            final(self)@ == tick_started(old(self)@),
            final(self).message() == old(self).message(),
            old(self)@.game_over ==> intent is None,
            !old(self)@.game_over ==> intent == Some(movement_intent(old(self)@)),
    {
        proof {
            use_type_invariant(&*self);
        }
        let mut f = self.fields;
        if f.game_over {
            return None;
        }
        f.time = f.time + 1;
        let intent = if f.hold_mode {
            let fw: i8 = (if f.held_w {
                1
            } else {
                0
            }) - (if f.held_s {
                1
            } else {
                0
            });
            let st: i8 = (if f.held_d {
                1
            } else {
                0
            }) - (if f.held_a {
                1
            } else {
                0
            });
            Some((fw, st))
        } else if f.move_timer > 0 {
            f.move_timer = f.move_timer - 1;
            Some((f.move_fwd, f.move_strafe))
        } else {
            f.move_fwd = 0;
            f.move_strafe = 0;
            Some((0, 0))
        };
        self.fields = f;
        intent
    }

    /// Ends a tick after the player moved: a positive `fall_damage` costs
    /// that much health, marks the tick and shows a message; health grows
    /// back (see [`regenerates`]); the game is over at zero health; an
    /// expired message is cleared (see [`tick_ended`]). On the death screen
    /// the game is paused and nothing changes.
    pub fn end_tick(&mut self, fall_damage: i32)
        requires
            !old(self)@.game_over && fall_damage > 0 ==> old(self)@.time <= u64::MAX
                - MESSAGE_TICKS && old(self)@.hp >= i32::MIN + fall_damage,
        ensures
            final(self)@ == tick_ended(old(self)@, fall_damage as int),
            old(self)@.hp <= old(self)@.max_hp ==> final(self)@.hp <= old(self)@.max_hp,
            old(self)@.game_over ==> final(self).message() == old(self).message(),
            !old(self)@.game_over && fall_damage > 0 ==> final(self).shows(
                "Ouch! Fall damage."@,
                old(self)@.time + MESSAGE_TICKS,
            ),
            !old(self)@.game_over && fall_damage <= 0 ==> final(self).message() == message_after(
                old(self).message(),
                old(self)@.time,
            ),
    {
        proof {
            use_type_invariant(&*self);
        }
        if self.fields.game_over {
            return;
        }
        if fall_damage > 0 {
            let mut f = self.fields;
            f.hp = f.hp - fall_damage;
            f.last_damage_tick = f.time;
            self.fields = f;
            self.say("Ouch! Fall damage.");
        }
        let mut f = self.fields;
        let since = if f.time >= f.last_damage_tick {
            f.time - f.last_damage_tick
        } else {
            0
        };
        if f.hp < f.max_hp && since > 100 && f.time % 40 == 0 {
            f.hp = f.hp + 1;
        }
        if f.hp <= 0 {
            f.game_over = true;
        }
        self.fields = f;
        let expired = match &self.msg {
            Some((_, expiry)) => f.time > *expiry,
            None => false,
        };
        if expired {
            self.msg = None;
        }
    }
}

/// Releasing a key never makes the game act; it only lets go of a movement
/// key.
pub proof fn lemma_release_is_quiet(s: PlayFields, k: KeyPress)
    requires
        k.released,
    ensures
        key_step(s, k).1 == Command::Nothing,
        key_step(s, k).0.time == s.time && key_step(s, k).0.hp == s.hp,
{
}

/// In the crafting menu, moving the selection down and then up (or up and
/// then down) comes back to the same recipe.
pub proof fn lemma_menu_moves_undo(s: PlayFields)
    requires
        s.wf(),
    ensures
        crafting_step(crafting_step(s, Key::Down).0, Key::Up).0.craft_sel == s.craft_sel,
        crafting_step(crafting_step(s, Key::Up).0, Key::Down).0.craft_sel == s.craft_sel,
        crafting_step(s, Key::Down).0.wf(),
        crafting_step(s, Key::Up).0.wf(),
{
    let n = s.recipe_count as int;
    let c = s.craft_sel as int;
    if c + 1 < n {
        vstd::arithmetic::div_mod::lemma_small_mod((c + 1) as nat, n as nat);
    } else {
        vstd::arithmetic::div_mod::lemma_mod_self_0(n);
    }
    if c == 0 {
        vstd::arithmetic::div_mod::lemma_mod_self_0(n);
    } else {
        vstd::arithmetic::div_mod::lemma_small_mod(c as nat, n as nat);
    }
}

/// In hold mode, pressing `w` makes the player walk forward (unless `s` is
/// held too) and releasing it stops the forward walk again.
pub proof fn lemma_hold_forward(s: PlayFields)
    requires
        s.hold_mode,
        !s.game_over,
        !s.crafting_open,
        !s.held_s,
    ensures
        movement_intent(key_step(s, KeyPress { key: Key::Char('w'), released: false, ctrl: false }).0).0
            == 1,
        movement_intent(
            key_step(
                key_step(s, KeyPress { key: Key::Char('w'), released: false, ctrl: false }).0,
                KeyPress { key: Key::Char('w'), released: true, ctrl: false },
            ).0,
        ).0 == 0,
{
}

/// On the death screen only respawning and quitting do anything, and a
/// respawn restores full health.
pub proof fn lemma_death_screen(s: PlayFields, k: KeyPress)
    requires
        s.game_over,
        !k.released,
    ensures
        key_step(s, k).1 == Command::Respawn || key_step(s, k).1 == Command::Nothing,
        key_step(s, k).1 == Command::Respawn ==> key_step(s, k).0.hp == s.max_hp
            && !key_step(s, k).0.game_over,
        key_step(s, k).1 == Command::Nothing ==> key_step(s, k).0.game_over,
{
}

/// On the death screen a tick changes nothing: the game is paused.
pub proof fn lemma_death_screen_pauses(s: PlayFields, fall_damage: int)
    requires
        s.game_over,
    ensures
        tick_started(s) == s,
        tick_ended(s, fall_damage) == s,
{
}

/// A session resumed from saved fields keeps the saved clock, health and
/// hotbar selection.
pub proof fn lemma_resume_keeps_saved(s: PlayFields)
    requires
        s.selected <= 8,
    ensures
        ({
            let r = session_start(s.time, s.hp, s.selected, s.max_hp, s.recipe_count, s.time);
            r.time == s.time && r.hp == s.hp && r.selected == s.selected && r.max_hp == s.max_hp
        }),
{
}

/// While playing, digit key `c` in `1`..=`9` selects hotbar slot
/// `c - '1'` (key `1` the first slot, key `9` the ninth) and nothing else;
/// other characters select nothing.
pub proof fn lemma_digit_selects_slot(c: char)
    ensures
        '1' <= c <= '9' ==> digit_slot(c) == Some(((c as int) - ('1' as int)) as usize),
        !('1' <= c <= '9') ==> digit_slot(c) is None,
{
}

} // verus!
