use beanwm::input::{
    is_close_shortcut, is_killswitch, is_terminal_shortcut, key_action, leds_for_state,
    tile_move_direction, tty_switch_destination, tty_switch_fallback_destination, xkb_config,
    KeyAction, Keysym, Led, LedState, ModifiersState,
};
use xkeysym::key;

const NONE: ModifiersState =
    ModifiersState { ctrl: false, alt: false, shift: false, logo: false };
const CTRL_ALT: ModifiersState =
    ModifiersState { ctrl: true, alt: true, shift: false, logo: false };
const LOGO: ModifiersState =
    ModifiersState { ctrl: false, alt: false, shift: false, logo: true };
const LOGO_SHIFT: ModifiersState =
    ModifiersState { ctrl: false, alt: false, shift: true, logo: true };
const CTRL_LOGO: ModifiersState =
    ModifiersState { ctrl: true, alt: false, shift: false, logo: true };
const ALL: ModifiersState = ModifiersState { ctrl: true, alt: true, shift: true, logo: true };

fn sym(raw: u32) -> Keysym {
    Keysym { raw }
}

#[test]
fn ctrl_alt_backspace_is_the_killswitch() {
    assert!(is_killswitch(&CTRL_ALT, sym(key::BackSpace)));
    assert!(is_killswitch(&CTRL_ALT, sym(0xff08)));
    assert!(is_killswitch(&ALL, sym(key::BackSpace)));
    assert!(!is_killswitch(&CTRL_LOGO, sym(key::BackSpace)));
    assert!(!is_killswitch(&CTRL_ALT, sym(key::Delete)));
}

#[test]
fn super_return_launches_a_terminal() {
    for raw in [key::Return, key::KP_Enter, 0xff0d, 0xff8d] {
        assert!(is_terminal_shortcut(&LOGO, sym(raw)));
        assert!(!is_terminal_shortcut(&CTRL_ALT, sym(raw)));
    }
    assert!(!is_terminal_shortcut(&LOGO, sym(key::space)));
}

#[test]
fn super_q_and_w_close_in_either_case() {
    for raw in [key::q, key::Q, key::w, key::W, 0x71, 0x51, 0x77, 0x57] {
        assert!(is_close_shortcut(&LOGO, sym(raw)));
        assert!(!is_close_shortcut(&NONE, sym(raw)));
    }
    assert!(!is_close_shortcut(&LOGO, sym(key::e)));
}

#[test]
fn super_shift_arrows_move_tiles() {
    assert_eq!(tile_move_direction(&LOGO_SHIFT, sym(key::Left)), Some((-1, 0)));
    assert_eq!(tile_move_direction(&LOGO_SHIFT, sym(key::Right)), Some((1, 0)));
    assert_eq!(tile_move_direction(&LOGO_SHIFT, sym(key::Up)), Some((0, -1)));
    assert_eq!(tile_move_direction(&LOGO_SHIFT, sym(key::Down)), Some((0, 1)));
    assert_eq!(tile_move_direction(&LOGO_SHIFT, sym(0xff51)), Some((-1, 0)));
    assert_eq!(tile_move_direction(&LOGO, sym(key::Left)), None);
    assert_eq!(tile_move_direction(&LOGO_SHIFT, sym(key::Home)), None);
}

#[test]
fn ctrl_alt_function_keys_switch_terminals() {
    let keys = [
        key::F1, key::F2, key::F3, key::F4, key::F5, key::F6, key::F7, key::F8, key::F9, key::F10,
        key::F11, key::F12,
    ];
    for (index, raw) in keys.iter().enumerate() {
        assert_eq!(tty_switch_destination(&CTRL_ALT, sym(*raw)), Some(index as i32 + 1));
        assert_eq!(tty_switch_destination(&CTRL_LOGO, sym(*raw)), None);
    }
    assert_eq!(tty_switch_destination(&CTRL_ALT, sym(0xffbe)), Some(1));
    assert_eq!(tty_switch_destination(&CTRL_ALT, sym(0xffc9)), Some(12));
    assert_eq!(tty_switch_destination(&CTRL_ALT, sym(key::F13)), None);
    assert_eq!(tty_switch_destination(&CTRL_ALT, sym(0xffbd)), None);
}

#[test]
fn ctrl_super_digits_switch_terminals() {
    let keys = [
        key::_1, key::_2, key::_3, key::_4, key::_5, key::_6, key::_7, key::_8, key::_9,
    ];
    for (index, raw) in keys.iter().enumerate() {
        assert_eq!(tty_switch_fallback_destination(&CTRL_LOGO, sym(*raw)), Some(index as i32 + 1));
        assert_eq!(tty_switch_fallback_destination(&CTRL_ALT, sym(*raw)), None);
    }
    assert_eq!(tty_switch_fallback_destination(&CTRL_LOGO, sym(0x39)), Some(9));
    assert_eq!(tty_switch_fallback_destination(&CTRL_LOGO, sym(key::_0)), None);
    assert_eq!(tty_switch_fallback_destination(&CTRL_LOGO, sym(key::F1)), None);
}

#[test]
fn a_pressed_shortcut_is_kept_back() {
    assert_eq!(key_action(true, &CTRL_ALT, sym(key::BackSpace)), KeyAction::Exit);
    assert_eq!(key_action(true, &LOGO, sym(key::Return)), KeyAction::LaunchTerminal);
    assert_eq!(key_action(true, &LOGO, sym(key::q)), KeyAction::CloseFocused);
    assert_eq!(
        key_action(true, &LOGO_SHIFT, sym(key::Up)),
        KeyAction::MoveTile { dx: 0, dy: -1 }
    );
    assert_eq!(key_action(true, &CTRL_ALT, sym(key::F7)), KeyAction::SwitchTty { vt: 7 });
    assert_eq!(key_action(true, &CTRL_LOGO, sym(key::_4)), KeyAction::SwitchTty { vt: 4 });
}

#[test]
fn other_keys_and_releases_reach_the_client() {
    assert_eq!(key_action(true, &NONE, sym(key::q)), KeyAction::Forward);
    assert_eq!(key_action(true, &LOGO, sym(key::x)), KeyAction::Forward);
    assert_eq!(key_action(true, &CTRL_ALT, sym(key::_4)), KeyAction::Forward);
    assert_eq!(key_action(false, &CTRL_ALT, sym(key::BackSpace)), KeyAction::Forward);
    assert_eq!(key_action(false, &LOGO, sym(key::Return)), KeyAction::Forward);
}

#[test]
fn more_modifiers_do_not_disable_a_shortcut() {
    for raw in [key::BackSpace, key::Return, key::W, key::Down, key::F2, key::_9] {
        let mods = match raw {
            key::BackSpace | key::F2 => CTRL_ALT,
            key::Down => LOGO_SHIFT,
            key::_9 => CTRL_LOGO,
            _ => LOGO,
        };
        let action = key_action(true, &mods, sym(raw));
        assert_ne!(action, KeyAction::Forward);
        assert_eq!(key_action(true, &ALL, sym(raw)), action);
    }
}

#[test]
fn the_keymap_is_us() {
    let config = xkb_config();
    assert_eq!(config.rules, "evdev");
    assert_eq!(config.model, "pc105");
    assert_eq!(config.layout, "us");
    assert_eq!(config.variant, "");
    assert_eq!(config.options, None);
}

#[test]
fn lights_are_on_only_where_they_are_known_to_be() {
    assert_eq!(
        leds_for_state(LedState { num: Some(true), caps: Some(false), scroll: None }),
        Led { num_lock: true, caps_lock: false, scroll_lock: false }
    );
    assert_eq!(
        leds_for_state(LedState { num: None, caps: Some(true), scroll: Some(true) }),
        Led { num_lock: false, caps_lock: true, scroll_lock: true }
    );
}

#[test]
fn no_symbol_leads_out_of_range() {
    let mut actions = 0;
    for raw in 0..0x1_0000 {
        match key_action(true, &ALL, sym(raw)) {
            KeyAction::Forward => continue,
            KeyAction::MoveTile { dx, dy } => assert_eq!(dx.abs() + dy.abs(), 1),
            KeyAction::SwitchTty { vt } => assert!(1 <= vt && vt <= 12),
            _ => {}
        }
        actions += 1;
    }
    assert_eq!(actions, 32);
}
