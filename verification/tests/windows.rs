use beanwm::app::{Activation, App, FocusChange, Window};
use beanwm::geometry::{Pixel, Point, Rectangle, Size};
use beanwm::input::KeyAction;
use beanwm::state::{Configure, FrameElement, KeyCommand, Placement, State};

const A: Window = Window { id: 1, surface: Some(10) };
const B: Window = Window { id: 2, surface: Some(20) };
const C: Window = Window { id: 3, surface: Some(30) };
const BARE: Window = Window { id: 4, surface: None };

fn told(surface: u64, active: bool) -> Activation {
    Activation { surface, active }
}

fn rect(x: i32, y: i32, w: i32, h: i32) -> Rectangle {
    Rectangle { loc: Point { x, y }, size: Size { w, h } }
}

fn state_with(windows: &[Window]) -> State {
    let mut state = State::new();
    for window in windows {
        state.app.new_toplevel(*window, true, &vec![]);
    }
    state
}

#[test]
fn a_compositor_starts_empty_and_running() {
    let state = State::new();
    assert!(state.app.running);
    assert!(state.session_active);
    assert!(!state.app.layout_dirty);
    assert_eq!(state.app.focused_surface, None);
    assert_eq!(state.app.tile_order, vec![]);
}

#[test]
fn a_new_toplevel_is_tiled_last_and_gets_the_focus() {
    let mut app = App::new();
    assert_eq!(
        app.new_toplevel(A, true, &vec![A]),
        Some(FocusChange { target: Some(10), activations: vec![told(10, true)] })
    );
    assert_eq!(
        app.new_toplevel(B, true, &vec![A, BARE, B]),
        Some(FocusChange {
            target: Some(20),
            activations: vec![told(10, false), told(20, true)]
        })
    );
    assert_eq!(app.tile_order, vec![A, B]);
    assert_eq!(app.focused_surface, Some(20));
    assert!(app.layout_dirty);
}

#[test]
fn without_a_keyboard_a_new_toplevel_gets_no_focus() {
    let mut app = App::new();
    assert_eq!(app.new_toplevel(A, false, &vec![A]), None);
    assert_eq!(app.focused_surface, None);
    assert_eq!(app.tile_order, vec![A]);
    assert!(app.layout_dirty);
}

#[test]
fn focus_moves_once_and_never_rearranges_tiles() {
    let mut state = state_with(&[A, B, C]);
    state.app.layout_dirty = false;
    let elements = vec![C, A, B];
    assert_eq!(
        state.app.focus_window(Some(A), &elements),
        Some(FocusChange {
            target: Some(10),
            activations: vec![told(30, false), told(10, true), told(20, false)]
        })
    );
    assert_eq!(state.app.focus_window(Some(A), &elements), None);
    assert_eq!(state.app.tile_order, vec![A, B, C]);
    assert!(!state.app.layout_dirty);
}

#[test]
fn focus_can_leave_all_windows() {
    let mut state = state_with(&[A]);
    assert_eq!(
        state.app.focus_window(None, &vec![A]),
        Some(FocusChange { target: None, activations: vec![told(10, false)] })
    );
    assert_eq!(state.app.focused_surface, None);
    assert_eq!(state.app.focus_window(Some(BARE), &vec![A]), None);
}

#[test]
fn closing_a_window_undoes_opening_it() {
    let mut state = state_with(&[A, B]);
    state.app.new_toplevel(C, true, &vec![]);
    state.app.layout_dirty = false;
    assert_eq!(state.app.toplevel_destroyed(30), Some(C));
    assert_eq!(state.app.tile_order, vec![A, B]);
    assert_eq!(state.app.focused_surface, None);
    assert!(state.app.layout_dirty);
}

#[test]
fn closing_another_window_keeps_the_focus() {
    let mut state = state_with(&[A, B, C]);
    assert_eq!(state.app.toplevel_destroyed(10), Some(A));
    assert_eq!(state.app.tile_order, vec![B, C]);
    assert_eq!(state.app.focused_surface, Some(30));
}

#[test]
fn closing_an_unknown_surface_only_renews_the_layout() {
    let mut state = state_with(&[A, BARE]);
    state.app.layout_dirty = false;
    assert_eq!(state.app.toplevel_destroyed(99), None);
    assert_eq!(state.app.tile_order, vec![A, BARE]);
    assert!(state.app.layout_dirty);
}

#[test]
fn every_window_of_a_closed_surface_goes() {
    let twin = Window { id: 9, surface: Some(10) };
    let mut state = state_with(&[A, B, twin]);
    assert_eq!(state.app.toplevel_destroyed(10), Some(A));
    assert_eq!(state.app.tile_order, vec![B]);
    assert_eq!(state.app.toplevel_destroyed(10), None);
    assert_eq!(state.app.tile_order, vec![B]);
}

#[test]
fn the_whole_tile_selects_its_window() {
    let state = state_with(&[A, B, C]);
    assert_eq!(state.tiled_window_under(None, Pixel { x: 0, y: 0 }), Some(A));
    assert_eq!(state.tiled_window_under(None, Pixel { x: 959, y: 1079 }), Some(A));
    assert_eq!(state.tiled_window_under(None, Pixel { x: 960, y: 539 }), Some(B));
    assert_eq!(state.tiled_window_under(None, Pixel { x: 1919, y: 540 }), Some(C));
    assert_eq!(state.tiled_window_under(None, Pixel { x: 1920, y: 540 }), None);
    assert_eq!(state.tiled_window_under(None, Pixel { x: -1, y: 0 }), None);
    let small = Some(Size { w: 100, h: 50 });
    assert_eq!(state.tiled_window_under(small, Pixel { x: 50, y: 25 }), Some(C));
    assert_eq!(State::new().tiled_window_under(None, Pixel { x: 5, y: 5 }), None);
}

#[test]
fn the_focus_follows_the_pointer() {
    let mut state = state_with(&[A, B]);
    let elements = vec![A, B];
    assert_eq!(
        state.focus_under_pointer(None, Some(Pixel { x: 3, y: 3 }), &elements),
        Some(FocusChange {
            target: Some(10),
            activations: vec![told(10, true), told(20, false)]
        })
    );
    assert_eq!(state.focus_under_pointer(None, Some(Pixel { x: 4, y: 4 }), &elements), None);
    let left = state.focus_under_pointer(None, Some(Pixel { x: 1920, y: 4 }), &elements);
    assert_eq!(left.map(|change| change.target), Some(None));
    assert_eq!(state.app.focused_surface, None);
    state.focus_under_pointer(None, Some(Pixel { x: 1919, y: 4 }), &elements);
    assert_eq!(state.app.focused_surface, Some(20));
    state.focus_under_pointer(None, None, &elements);
    assert_eq!(state.app.focused_surface, None);
}

#[test]
fn tiling_places_every_living_window() {
    let mut state = state_with(&[A, B, BARE]);
    let mode = Some(Size { w: 801, h: 600 });
    let bounds = Size { w: 801, h: 600 };
    assert_eq!(
        state.apply_tiling(&vec![true, false, true], mode),
        vec![
            Placement {
                window: A,
                tile: rect(0, 0, 400, 600),
                configure: Some(Configure { surface: 10, size: Size { w: 400, h: 600 }, bounds }),
            },
            Placement { window: BARE, tile: rect(400, 0, 401, 600), configure: None },
        ]
    );
    assert_eq!(state.app.tile_order, vec![A, BARE]);
    assert!(!state.app.layout_dirty);
    let again = state.apply_tiling(&vec![true, true], mode);
    assert_eq!(again.len(), 2);
    assert_eq!(state.app.tile_order, vec![A, BARE]);
}

#[test]
fn tiling_nothing_leaves_nothing_to_do() {
    let mut state = state_with(&[A]);
    assert_eq!(state.apply_tiling(&vec![false], None), vec![]);
    assert_eq!(state.app.tile_order, vec![]);
    assert!(!state.app.layout_dirty);
    assert_eq!(state.app.focused_surface, Some(10));
}

#[test]
fn pointer_and_layout_agree() {
    let mut state = state_with(&[A, B, C]);
    let placements = state.apply_tiling(&vec![true, true, true], None);
    for placement in placements {
        let corner = Pixel { x: placement.tile.loc.x as i64, y: placement.tile.loc.y as i64 };
        assert_eq!(state.tiled_window_under(None, corner), Some(placement.window));
    }
}

#[test]
fn moving_a_tile_exchanges_it_with_the_next_one() {
    let mut state = state_with(&[A, B, C]);
    state.app.layout_dirty = false;
    state.app.focus_window(Some(A), &vec![]);
    // B and C are equally far to the right of A, and B comes first.
    state.move_focused_tile(None, 1, 0);
    assert_eq!(state.app.tile_order, vec![B, A, C]);
    assert_eq!(state.app.focused_surface, Some(10));
    assert!(state.app.layout_dirty);
    state.move_focused_tile(None, -1, 0);
    assert_eq!(state.app.tile_order, vec![A, B, C]);
}

#[test]
fn moving_into_the_void_changes_nothing() {
    let mut state = state_with(&[A, B]);
    state.app.layout_dirty = false;
    state.move_focused_tile(None, 1, 0);
    state.move_focused_tile(None, 0, 1);
    state.app.focus_window(None, &vec![]);
    state.move_focused_tile(None, -1, 0);
    state.app.focused_surface = Some(99);
    state.move_focused_tile(None, -1, 0);
    assert_eq!(state.app.tile_order, vec![A, B]);
    assert!(!state.app.layout_dirty);
}

#[test]
fn key_actions_are_carried_out() {
    let mut state = state_with(&[A, B]);
    assert_eq!(state.run_key_action(KeyAction::Forward, None), KeyCommand::Nothing);
    assert_eq!(
        state.run_key_action(KeyAction::LaunchTerminal, None),
        KeyCommand::SpawnTerminal
    );
    assert_eq!(state.run_key_action(KeyAction::CloseFocused, None), KeyCommand::Close(20));
    assert_eq!(
        state.run_key_action(KeyAction::SwitchTty { vt: 3 }, None),
        KeyCommand::SwitchVt(3)
    );
    assert_eq!(state.app.tile_order, vec![A, B]);
    assert_eq!(
        state.run_key_action(KeyAction::MoveTile { dx: -1, dy: 0 }, None),
        KeyCommand::Nothing
    );
    assert_eq!(state.app.tile_order, vec![B, A]);
    assert!(state.app.running);
    assert_eq!(state.run_key_action(KeyAction::Exit, None), KeyCommand::Nothing);
    assert!(!state.app.running);
}

#[test]
fn closing_needs_a_focused_tiled_window() {
    let mut state = state_with(&[A]);
    state.app.focused_surface = None;
    assert_eq!(state.run_key_action(KeyAction::CloseFocused, None), KeyCommand::Nothing);
    state.app.focused_surface = Some(99);
    assert_eq!(state.run_key_action(KeyAction::CloseFocused, None), KeyCommand::Nothing);
}

#[test]
fn a_paused_session_draws_nothing() {
    let mut state = state_with(&[A]);
    state.pause_session();
    assert!(!state.session_active);
    assert_eq!(state.begin_frame(&vec![true], None), None);
    assert!(state.app.layout_dirty);
    assert!(!state.activate_session(false));
    assert!(!state.session_active);
    state.app.layout_dirty = false;
    assert!(state.activate_session(true));
    assert!(state.session_active);
    assert!(state.app.layout_dirty);
    let placements = state.begin_frame(&vec![true], None).unwrap();
    assert_eq!(placements.len(), 1);
    assert_eq!(placements[0].tile, rect(0, 0, 1920, 1080));
}

#[test]
fn a_layout_is_renewed_only_when_it_has_to_be() {
    let mut state = state_with(&[A, B]);
    assert_eq!(state.begin_frame(&vec![true, true], None).unwrap().len(), 2);
    assert_eq!(state.begin_frame(&vec![false, true], None), Some(vec![]));
    assert_eq!(state.app.tile_order, vec![A, B]);
}

#[test]
fn the_cursor_is_drawn_in_front_of_all_windows() {
    let state = state_with(&[A, BARE, B]);
    let locations = vec![Some(Point { x: 7, y: 8 }), Some(Point { x: 1, y: 1 }), None];
    assert_eq!(
        state.frame_elements(Point { x: 100, y: 200 }, &locations),
        vec![
            FrameElement::Cursor(rect(100, 200, 28, 28)),
            FrameElement::Surface { surface: 10, loc: Point { x: 7, y: 8 } },
            FrameElement::Surface { surface: 20, loc: Point { x: 0, y: 0 } },
        ]
    );
    assert_eq!(
        State::new().frame_elements(Point { x: 0, y: 0 }, &vec![]),
        vec![FrameElement::Cursor(rect(0, 0, 28, 28))]
    );
}

fn assert_sound(state: &State) {
    let surfaces: Vec<u64> = state.app.tile_order.iter().filter_map(|w| w.surface).collect();
    for (index, surface) in surfaces.iter().enumerate() {
        assert!(!surfaces[..index].contains(surface));
    }
    if let Some(focused) = state.app.focused_surface {
        assert!(surfaces.contains(&focused));
    }
}

#[test]
fn surfaces_stay_distinct_and_the_focus_stays_tiled() {
    let mut state = State::new();
    for window in [A, BARE, B, C] {
        state.app.new_toplevel(window, window.id != 2, &vec![]);
        assert_sound(&state);
    }
    for (dx, dy) in [(-1, 0), (0, -1), (1, 0), (0, 1), (1, 0), (-1, 0)] {
        state.move_focused_tile(None, dx, dy);
        assert_sound(&state);
    }
    state.focus_under_pointer(None, Some(Pixel { x: 1, y: 1 }), &vec![]);
    assert_sound(&state);
    state.app.focus_window(Some(B), &vec![]);
    let alive: Vec<bool> = state.app.tile_order.iter().map(|w| *w != A).collect();
    state.apply_tiling(&alive, None);
    assert_eq!(state.app.tile_order.len(), 3);
    assert_eq!(state.app.focused_surface, Some(20));
    assert_sound(&state);
    state.app.toplevel_destroyed(20);
    assert_eq!(state.app.focused_surface, None);
    assert_sound(&state);
}

#[test]
fn moving_loses_no_window() {
    let windows: Vec<Window> =
        (1..8).map(|id| Window { id, surface: Some(id * 10) }).collect();
    for focused in &windows {
        for (dx, dy) in [(-1, 0), (1, 0), (0, -1), (0, 1)] {
            let mut state = state_with(&windows);
            state.app.focus_window(Some(*focused), &vec![]);
            state.move_focused_tile(None, dx, dy);
            let moved = state.app.tile_order.clone();
            let changed = (0..windows.len()).filter(|i| moved[*i] != windows[*i]).count();
            assert!(changed == 0 || changed == 2);
            for window in &windows {
                assert!(moved.contains(window));
            }
        }
    }
}

#[test]
fn moving_up_and_down_exchanges_the_tiles_above_and_below() {
    let mut state = state_with(&[A, B, C]);
    state.app.layout_dirty = false;
    state.app.focus_window(Some(B), &vec![]);
    state.move_focused_tile(Some(Size { w: 1920, h: 1080 }), 0, 1);
    assert_eq!(state.app.tile_order, vec![A, C, B]);
    assert!(state.app.layout_dirty);
    state.move_focused_tile(Some(Size { w: 1920, h: 1080 }), 0, -1);
    assert_eq!(state.app.tile_order, vec![A, B, C]);
    state.app.focus_window(Some(C), &vec![]);
    state.move_focused_tile(Some(Size { w: 1920, h: 1080 }), 0, -1);
    assert_eq!(state.app.tile_order, vec![A, C, B]);
}
