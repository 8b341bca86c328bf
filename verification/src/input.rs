//! Keyboard shortcuts, keyboard configuration and keyboard lights.
use vstd::prelude::*;

use crate::keys;

verus! {

/// The modifier keys that shortcuts depend on; each is `true` while it is held.
#[derive(Clone, Copy, Debug, PartialEq, Eq, Structural, Hash)]
pub struct ModifiersState {
    pub ctrl: bool,
    pub alt: bool,
    pub shift: bool,
    pub logo: bool,
}

/// The symbol that a key produces, in X11's numbering.
#[derive(Clone, Copy, Debug, PartialEq, Eq, Structural, Hash)]
pub struct Keysym {
    pub raw: u32,
}

/// What a key event does.
#[derive(Clone, Copy, Debug, PartialEq, Eq, Structural, Hash)]
pub enum KeyAction {
    /// Nothing in the compositor: the event goes to the focused client.
    Forward,
    /// Stop the compositor.
    Exit,
    LaunchTerminal,
    CloseFocused,
    /// Move the focused window in this direction.
    MoveTile { dx: i32, dy: i32 },
    /// Switch to this virtual terminal.
    SwitchTty { vt: i32 },
}

/// The keymap that the compositor asks for.
#[derive(Debug, PartialEq, Eq)]
pub struct XkbConfig {
    pub rules: &'static str,
    pub model: &'static str,
    pub layout: &'static str,
    pub variant: &'static str,
    pub options: Option<String>,
}

/// The state of a keyboard's lights, as far as the keymap knows it.
#[derive(Clone, Copy, Debug, PartialEq, Eq, Structural, Hash)]
pub struct LedState {
    pub num: Option<bool>,
    pub caps: Option<bool>,
    pub scroll: Option<bool>,
}

/// The lights that are to be on; all others are to be off.
#[derive(Clone, Copy, Debug, PartialEq, Eq, Structural, Hash)]
pub struct Led {
    pub num_lock: bool,
    pub caps_lock: bool,
    pub scroll_lock: bool,
}

/// The keymap configuration: the US layout on a standard keyboard.
pub fn xkb_config() -> (config: XkbConfig)
    ensures
        config.rules@ == "evdev"@,
        config.model@ == "pc105"@,
        config.layout@ == "us"@,
        config.variant@ == ""@,
        config.options is None,
{
    XkbConfig { rules: "evdev", model: "pc105", layout: "us", variant: "", options: None }
}

/// Ctrl+Alt+Backspace.
pub open spec fn exits(mods: ModifiersState, sym: Keysym) -> bool {
    mods.ctrl && mods.alt && sym.raw == 0xff08
}

/// Super with Return or the keypad's Enter.
pub open spec fn launches_terminal(mods: ModifiersState, sym: Keysym) -> bool {
    mods.logo && (sym.raw == 0xff0d || sym.raw == 0xff8d)
}

/// Super with Q or W, in either case.
pub open spec fn closes(mods: ModifiersState, sym: Keysym) -> bool {
    mods.logo && (sym.raw == 0x71 || sym.raw == 0x51 || sym.raw == 0x77 || sym.raw == 0x57)
}

/// The direction of an arrow key that is pressed with Super+Shift, with `y` growing downwards.
pub open spec fn move_direction(mods: ModifiersState, sym: Keysym) -> Option<(i32, i32)> {
    if !(mods.logo && mods.shift) {
        None
    } else if sym.raw == 0xff51 {
        Some(((-1) as i32, 0))
    } else if sym.raw == 0xff53 {
        Some((1, 0))
    } else if sym.raw == 0xff52 {
        Some((0, (-1) as i32))
    } else if sym.raw == 0xff54 {
        Some((0, 1))
    } else {
        None
    }
}

/// The number of a function key from F1 to F12 that is pressed with Ctrl+Alt.
pub open spec fn function_key_vt(mods: ModifiersState, sym: Keysym) -> Option<i32> {
    if mods.ctrl && mods.alt && 0xffbe <= sym.raw <= 0xffc9 {
        Some((sym.raw - 0xffbe + 1) as i32)
    } else {
        None
    }
}

/// The digit from 1 to 9 that is pressed with Ctrl+Super.
pub open spec fn digit_vt(mods: ModifiersState, sym: Keysym) -> Option<i32> {
    if mods.ctrl && mods.logo && 0x31 <= sym.raw <= 0x39 {
        Some((sym.raw - 0x30) as i32)
    } else {
        None
    }
}

/// What pressing a key does. The first of these that fits is taken.
pub open spec fn shortcut(mods: ModifiersState, sym: Keysym) -> KeyAction {
    if exits(mods, sym) {
        KeyAction::Exit
    } else if launches_terminal(mods, sym) {
        KeyAction::LaunchTerminal
    } else if closes(mods, sym) {
        KeyAction::CloseFocused
    } else if let Some((dx, dy)) = move_direction(mods, sym) {
        KeyAction::MoveTile { dx, dy }
    } else if let Some(vt) = function_key_vt(mods, sym) {
        KeyAction::SwitchTty { vt }
    } else if let Some(vt) = digit_vt(mods, sym) {
        KeyAction::SwitchTty { vt }
    } else {
        KeyAction::Forward
    }
}

/// Whether the key stops the compositor: Ctrl+Alt+Backspace.
pub fn is_killswitch(mods: &ModifiersState, sym: Keysym) -> (pressed: bool)
    ensures
        pressed == exits(*mods, sym),
        pressed <==> mods.ctrl && mods.alt && sym.raw == 0xff08,
{
    mods.ctrl && mods.alt && sym.raw == keys::backspace()
}

/// Whether the key launches a terminal: Super+Return.
pub fn is_terminal_shortcut(mods: &ModifiersState, sym: Keysym) -> (pressed: bool)
    ensures
        pressed == launches_terminal(*mods, sym),
        pressed <==> mods.logo && (sym.raw == 0xff0d || sym.raw == 0xff8d),
{
    mods.logo && (sym.raw == keys::enter() || sym.raw == keys::keypad_enter())
}

/// Whether the key closes the focused window: Super+Q or Super+W.
pub fn is_close_shortcut(mods: &ModifiersState, sym: Keysym) -> (pressed: bool)
    ensures
        pressed == closes(*mods, sym),
        pressed <==> mods.logo && (sym.raw == 0x71 || sym.raw == 0x51 || sym.raw == 0x77 || sym.raw
            == 0x57),
{
    mods.logo && (sym.raw == keys::lower_q() || sym.raw == keys::upper_q() || sym.raw
        == keys::lower_w() || sym.raw == keys::upper_w())
}

/// The direction in which the key moves the focused tile, which is exchanged with the tile
/// there: Super+Shift with an arrow.
pub fn tile_move_direction(mods: &ModifiersState, sym: Keysym) -> (direction: Option<(i32, i32)>)
    ensures
        direction == move_direction(*mods, sym),
        direction is Some <==> mods.logo && mods.shift && 0xff51 <= sym.raw && sym.raw <= 0xff54,
        direction matches Some(step) ==> {
            &&& sym.raw == 0xff51 <==> step.0 == -1 && step.1 == 0
            &&& sym.raw == 0xff52 <==> step.0 == 0 && step.1 == -1
            &&& sym.raw == 0xff53 <==> step.0 == 1 && step.1 == 0
            &&& sym.raw == 0xff54 <==> step.0 == 0 && step.1 == 1
        },
{
    if !(mods.logo && mods.shift) {
        return None;
    }
    if sym.raw == keys::left() {
        Some((-1, 0))
    } else if sym.raw == keys::right() {
        Some((1, 0))
    } else if sym.raw == keys::up() {
        Some((0, -1))
    } else if sym.raw == keys::down() {
        Some((0, 1))
    } else {
        None
    }
}

/// The position of `raw` in `symbols`.
fn position(symbols: &Vec<u32>, raw: u32) -> (found: Option<usize>)
    ensures
        (match found {
            Some(i) => i < symbols@.len() && symbols@[i as int] == raw && forall|j: int|
                0 <= j < i ==> symbols@[j] != raw,
            None => forall|j: int| 0 <= j < symbols@.len() ==> symbols@[j] != raw,
        }),
{
    let mut index: usize = 0;
    while index < symbols.len()
        invariant
            index <= symbols@.len(),
            forall|j: int| 0 <= j < index ==> symbols@[j] != raw,
        decreases symbols@.len() - index,
    {
        if symbols[index] == raw {
            return Some(index);
        }
        index = index + 1;
    }
    None
}

/// The virtual terminal that the key switches to: Ctrl+Alt+F1 to Ctrl+Alt+F12.
pub fn tty_switch_destination(mods: &ModifiersState, sym: Keysym) -> (vt: Option<i32>)
    ensures
        vt == function_key_vt(*mods, sym),
        vt is Some <==> mods.ctrl && mods.alt && 0xffbe <= sym.raw && sym.raw <= 0xffc9,
        vt matches Some(number) ==> number == sym.raw - 0xffbd,
{
    if !(mods.ctrl && mods.alt) {
        return None;
    }
    let symbols: Vec<u32> = vec![
        keys::f1(),
        keys::f2(),
        keys::f3(),
        keys::f4(),
        keys::f5(),
        keys::f6(),
        keys::f7(),
        keys::f8(),
        keys::f9(),
        keys::f10(),
        keys::f11(),
        keys::f12(),
    ];
    assert(forall|i: int| 0 <= i < 12 ==> #[trigger] symbols@[i] == 0xffbe + i);
    match position(&symbols, sym.raw) {
        Some(index) => Some(index as i32 + 1),
        None => {
            assert(0xffbe <= sym.raw <= 0xffc9 ==> symbols@[sym.raw - 0xffbe] == sym.raw);
            None
        },
    }
}

/// The virtual terminal that the key switches to on keyboards or firmware that reserve
/// Ctrl+Alt+Fn: Ctrl+Super+1 to Ctrl+Super+9.
pub fn tty_switch_fallback_destination(mods: &ModifiersState, sym: Keysym) -> (vt: Option<i32>)
    ensures
        vt == digit_vt(*mods, sym),
        vt is Some <==> mods.ctrl && mods.logo && 0x31 <= sym.raw && sym.raw <= 0x39,
        vt matches Some(number) ==> number == sym.raw - 0x30,
{
    if !(mods.ctrl && mods.logo) {
        return None;
    }
    let symbols: Vec<u32> = vec![
        keys::digit_1(),
        keys::digit_2(),
        keys::digit_3(),
        keys::digit_4(),
        keys::digit_5(),
        keys::digit_6(),
        keys::digit_7(),
        keys::digit_8(),
        keys::digit_9(),
    ];
    assert(forall|i: int| 0 <= i < 9 ==> #[trigger] symbols@[i] == 0x31 + i);
    match position(&symbols, sym.raw) {
        Some(index) => Some(index as i32 + 1),
        None => {
            assert(0x31 <= sym.raw <= 0x39 ==> symbols@[sym.raw - 0x31] == sym.raw);
            None
        },
    }
}

/// What a key event does. A shortcut is taken when its key is pressed and kept from the client;
/// every other event, and every release, is forwarded.
pub fn key_action(pressed: bool, mods: &ModifiersState, sym: Keysym) -> (action: KeyAction)
    ensures
        action == (if pressed {
            shortcut(*mods, sym)
        } else {
            KeyAction::Forward
        }),
        !pressed ==> action == KeyAction::Forward,
        action == KeyAction::Exit <==> pressed && mods.ctrl && mods.alt && sym.raw == 0xff08,
        action == KeyAction::LaunchTerminal <==> pressed && mods.logo && (sym.raw == 0xff0d
            || sym.raw == 0xff8d),
        action == KeyAction::CloseFocused <==> pressed && mods.logo && (sym.raw == 0x71 || sym.raw
            == 0x51 || sym.raw == 0x77 || sym.raw == 0x57),
        action is MoveTile <==> pressed && mods.logo && mods.shift && 0xff51 <= sym.raw && sym.raw
            <= 0xff54,
        action is SwitchTty <==> pressed && mods.ctrl && (mods.alt && 0xffbe <= sym.raw && sym.raw
            <= 0xffc9 || mods.logo && 0x31 <= sym.raw && sym.raw <= 0x39),
{
    if !pressed {
        return KeyAction::Forward;
    }
    if is_killswitch(mods, sym) {
        return KeyAction::Exit;
    }
    if is_terminal_shortcut(mods, sym) {
        return KeyAction::LaunchTerminal;
    }
    if is_close_shortcut(mods, sym) {
        return KeyAction::CloseFocused;
    }
    if let Some((dx, dy)) = tile_move_direction(mods, sym) {
        return KeyAction::MoveTile { dx, dy };
    }
    if let Some(vt) = tty_switch_destination(mods, sym) {
        return KeyAction::SwitchTty { vt };
    }
    if let Some(vt) = tty_switch_fallback_destination(mods, sym) {
        return KeyAction::SwitchTty { vt };
    }
    KeyAction::Forward
}

/// The lights that are to be on in `state`: those that are known to be on.
pub fn leds_for_state(state: LedState) -> (leds: Led)
    ensures
        leds.num_lock == (state.num == Some(true)),
        leds.caps_lock == (state.caps == Some(true)),
        leds.scroll_lock == (state.scroll == Some(true)),
{
    Led {
        num_lock: known_on(state.num),
        caps_lock: known_on(state.caps),
        scroll_lock: known_on(state.scroll),
    }
}

/// Whether a light is known to be on.
fn known_on(light: Option<bool>) -> (on: bool)
    ensures
        on == (light == Some(true)),
{
    match light {
        Some(on) => on,
        None => false,
    }
}

/// A key press that is no shortcut reaches the client: an event is kept back only where one of
/// the shortcuts fits.
pub proof fn law_only_shortcuts_are_kept_back(mods: ModifiersState, sym: Keysym)
    ensures
        shortcut(mods, sym) == KeyAction::Forward <==> !exits(mods, sym) && !launches_terminal(
            mods,
            sym,
        ) && !closes(mods, sym) && move_direction(mods, sym) is None && function_key_vt(
            mods,
            sym,
        ) is None && digit_vt(mods, sym) is None,
{
}

/// Each shortcut has its own keys and comes of no others: Ctrl+Alt+Backspace exits, Super with
/// either Enter launches a terminal, Super with Q or W closes, Super+Shift with an arrow moves the
/// way that the arrow points, and a terminal is switched to by the function key of its number with
/// Ctrl+Alt or the digit of its number with Ctrl+Super.
pub proof fn law_shortcuts_by_their_keys(
    mods: ModifiersState,
    sym: Keysym,
    dx: i32,
    dy: i32,
    vt: i32,
)
    ensures
        shortcut(mods, sym) == KeyAction::Exit <==> mods.ctrl && mods.alt && sym.raw == 0xff08,
        shortcut(mods, sym) == KeyAction::LaunchTerminal <==> mods.logo && (sym.raw == 0xff0d
            || sym.raw == 0xff8d),
        shortcut(mods, sym) == KeyAction::CloseFocused <==> mods.logo && (sym.raw == 0x71
            || sym.raw == 0x51 || sym.raw == 0x77 || sym.raw == 0x57),
        shortcut(mods, sym) == (KeyAction::MoveTile { dx, dy }) <==> mods.logo && mods.shift && (
        dx == -1 && dy == 0 && sym.raw == 0xff51 || dx == 0 && dy == -1 && sym.raw == 0xff52 || dx
            == 1 && dy == 0 && sym.raw == 0xff53 || dx == 0 && dy == 1 && sym.raw == 0xff54),
        shortcut(mods, sym) == (KeyAction::SwitchTty { vt }) <==> mods.ctrl && (mods.alt && 1 <= vt
            && vt <= 12 && sym.raw == 0xffbd + vt || mods.logo && 1 <= vt && vt <= 9 && sym.raw
            == 0x30 + vt),
        shortcut(mods, sym) != KeyAction::Forward ==> mods.logo || mods.ctrl && mods.alt,
{
}

/// No two shortcuts are bound to the same keys: whichever fits is what the key does.
pub proof fn law_shortcuts_do_not_clash(mods: ModifiersState, sym: Keysym)
    ensures
        exits(mods, sym) ==> shortcut(mods, sym) == KeyAction::Exit,
        launches_terminal(mods, sym) ==> shortcut(mods, sym) == KeyAction::LaunchTerminal,
        closes(mods, sym) ==> shortcut(mods, sym) == KeyAction::CloseFocused,
        move_direction(mods, sym) matches Some(step) ==> shortcut(mods, sym)
            == (KeyAction::MoveTile { dx: step.0, dy: step.1 }),
        function_key_vt(mods, sym) matches Some(vt) ==> shortcut(mods, sym)
            == (KeyAction::SwitchTty { vt }),
        digit_vt(mods, sym) matches Some(vt) ==> shortcut(mods, sym) == (KeyAction::SwitchTty {
            vt,
        }),
{
}

/// A shortcut works whatever other modifiers are held with it.
pub proof fn law_other_modifiers_do_not_matter(
    mods: ModifiersState,
    more: ModifiersState,
    sym: Keysym,
)
    requires
        mods.ctrl ==> more.ctrl,
        mods.alt ==> more.alt,
        mods.shift ==> more.shift,
        mods.logo ==> more.logo,
        shortcut(mods, sym) != KeyAction::Forward,
    ensures
        shortcut(more, sym) == shortcut(mods, sym),
{
}

/// A tile moves by one step along one axis, and the terminals that can be switched to are those
/// from 1 to 12.
pub proof fn law_actions_in_range(mods: ModifiersState, sym: Keysym)
    ensures
        shortcut(mods, sym) matches KeyAction::MoveTile { dx, dy } ==> (dx == 0 && (dy == 1 || dy
            == -1)) || (dy == 0 && (dx == 1 || dx == -1)),
        shortcut(mods, sym) matches KeyAction::SwitchTty { vt } ==> 1 <= vt <= 12,
{
}

} // verus!
