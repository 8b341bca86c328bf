//! The compositor as a whole: its windows and its session, and how events change them.
use vstd::prelude::*;

use crate::app::{
    change_view, distinct_surfaces, first_with_surface, focus_change, in_same_order,
    law_focused_window_is_the_first, lemma_kept_in_order, lemma_kept_item,
    lemma_kept_stay_distinct, lemma_surface_index, position_of_surface, shows, surface_of, App,
    AppModel, FocusChange, Window,
};
use crate::direction::{
    destination, is_candidate, is_destination, law_opposite_direction_leads_back,
    law_some_candidate_is_chosen, lemma_destination_unique, tile_in_direction, way_back_is_clear,
};
use crate::geometry::{
    output_bounds, output_size, screen_rect, screen_size, Pixel, Point, Rect, Rectangle, Size,
};
use crate::input::KeyAction;
use crate::layout::{
    dwindle, dwindle_rectangles, law_tiles_cover_bounds, law_tiles_disjoint, rects,
    tile,
};

verus! {

/// What a toplevel is told about its place: the size of its tile and that of the screen.
#[derive(Clone, Copy, Debug, PartialEq, Eq, Structural, Hash)]
pub struct Configure {
    pub surface: u64,
    pub size: Size,
    pub bounds: Size,
}

/// A window's place on screen, and what its toplevel, if it has one, is told about it.
#[derive(Clone, Copy, Debug, PartialEq, Eq, Structural, Hash)]
pub struct Placement {
    pub window: Window,
    pub tile: Rectangle,
    pub configure: Option<Configure>,
}

/// Something that is drawn in a frame.
#[derive(Clone, Copy, Debug, PartialEq, Eq, Structural, Hash)]
pub enum FrameElement {
    /// The pointer's cursor.
    Cursor(Rectangle),
    /// A toplevel's surface, with its top-left corner at `loc`.
    Surface { surface: u64, loc: Point },
}

/// What the compositor has to do outside itself after a key has been pressed.
#[derive(Clone, Copy, Debug, PartialEq, Eq, Structural, Hash)]
pub enum KeyCommand {
    Nothing,
    SpawnTerminal,
    /// Ask the toplevel of this surface to close.
    Close(u64),
    /// Switch to this virtual terminal.
    SwitchVt(i32),
}

/// The compositor.
pub struct State {
    pub app: App,
    /// Whether the session owns the screen.
    pub session_active: bool,
}

/// The mathematical view of a [`State`].
pub struct StateModel {
    pub app: AppModel,
    pub session_active: bool,
}

impl View for State {
    type V = StateModel;

    open spec fn view(&self) -> StateModel {
        StateModel { app: self.app@, session_active: self.session_active }
    }
}

/// Keeps the windows that are alive.
pub open spec fn keeps_alive() -> spec_fn((Window, bool)) -> Option<Window> {
    |entry: (Window, bool)|
        if entry.1 {
            Some(entry.0)
        } else {
            None
        }
}

/// The windows of `order` that are alive, where `alive` says so of each.
pub open spec fn survivors(order: Seq<Window>, alive: Seq<bool>) -> Seq<Window> {
    order.zip_with(alive).filter_map(keeps_alive())
}

/// `placement` puts window `i` of `order` on its tile of the screen, and tells its toplevel the
/// sizes of the tile and of the screen.
pub open spec fn is_placed(
    placement: Placement,
    order: Seq<Window>,
    mode: Option<Size>,
    i: int,
) -> bool {
    &&& placement.window == order[i]
    &&& placement.tile@ == tile(order.len(), screen_rect(mode), i)
    &&& placement.configure == (match order[i].surface {
        Some(surface) => Some(
            Configure { surface, size: placement.tile.size, bounds: screen_size(mode) },
        ),
        None => None,
    })
}

/// `placements` puts each window of `order` on its tile, in window order.
pub open spec fn all_placed(
    placements: Seq<Placement>,
    order: Seq<Window>,
    mode: Option<Size>,
) -> bool {
    &&& placements.len() == order.len()
    &&& forall|i: int|
        0 <= i < order.len() ==> #[trigger] is_placed(placements[i], order, mode, i)
}

/// Window `i` of `order` is the one whose tile the pixel belongs to.
pub open spec fn is_under(order: Seq<Window>, mode: Option<Size>, pixel: Pixel, i: int) -> bool {
    &&& 0 <= i < order.len()
    &&& tile(order.len(), screen_rect(mode), i).covers(pixel.x as int, pixel.y as int)
}

/// The window whose tile the pixel belongs to.
pub open spec fn window_under(order: Seq<Window>, mode: Option<Size>, pixel: Pixel) -> Option<
    Window,
> {
    if exists|i: int| is_under(order, mode, pixel, i) {
        Some(order[choose|i: int| is_under(order, mode, pixel, i)])
    } else {
        None
    }
}

/// The window that a pointer selects: none where the pointer is nowhere.
pub open spec fn pointed_at(order: Seq<Window>, mode: Option<Size>, pointer: Option<Pixel>) -> Option<
    Window,
> {
    match pointer {
        Some(pixel) => window_under(order, mode, pixel),
        None => None,
    }
}

/// `order` with the windows at `i` and `j` exchanged.
pub open spec fn exchanged(order: Seq<Window>, i: int, j: int) -> Seq<Window> {
    order.update(i, order[j]).update(j, order[i])
}

/// `after` is `before` but that the windows at two places, `i` and `j`, have changed places.
pub open spec fn differ_by_exchange(
    before: Seq<Window>,
    after: Seq<Window>,
    i: int,
    j: int,
) -> bool {
    &&& after.len() == before.len()
    &&& 0 <= i < before.len()
    &&& 0 <= j < before.len()
    &&& i != j
    &&& after[i] == before[j]
    &&& after[j] == before[i]
    &&& forall|k: int|
        0 <= k < before.len() && k != i && k != j ==> #[trigger] after[k] == before[k]
}

/// What draws a window: its toplevel's surface at its location, or at the origin where it has
/// none.
pub open spec fn drawn() -> spec_fn((Window, Option<Point>)) -> Option<FrameElement> {
    |entry: (Window, Option<Point>)|
        match entry.0.surface {
            Some(surface) => Some(
                FrameElement::Surface {
                    surface,
                    loc: match entry.1 {
                        Some(loc) => loc,
                        None => Point { x: 0, y: 0 },
                    },
                },
            ),
            None => None,
        }
}

/// The side of the square cursor, in pixels.
pub const CURSOR_SIZE: i32 = 28;

impl AppModel {
    /// The windows have been laid out: those that are no longer alive are gone, and the layout
    /// is up to date.
    pub open spec fn tiled(self, alive: Seq<bool>) -> AppModel {
        AppModel {
            tile_order: survivors(self.tile_order, alive),
            layout_dirty: false,
            ..self
        }
    }

    /// The position of the window that changes places with the focused one when that moves in
    /// the direction `(dx, dy)`.
    pub open spec fn move_destination(self, mode: Option<Size>, dx: int, dy: int) -> Option<int> {
        match self.focused_index() {
            Some(index) => destination(
                dwindle(self.tile_order.len(), screen_rect(mode)),
                index,
                dx,
                dy,
            ),
            None => None,
        }
    }

    /// The focused window has moved in the direction `(dx, dy)`: it has changed places with the
    /// next window there, if there is one, and then the layout has to be renewed.
    pub open spec fn moved(self, mode: Option<Size>, dx: int, dy: int) -> AppModel {
        match self.move_destination(mode, dx, dy) {
            Some(d) => AppModel {
                tile_order: exchanged(self.tile_order, self.focused_index()->0, d),
                layout_dirty: true,
                ..self
            },
            None => self,
        }
    }
}

impl StateModel {
    /// What a key press changes in the compositor itself.
    pub open spec fn after_key(self, action: KeyAction, mode: Option<Size>) -> StateModel {
        match action {
            KeyAction::Exit => StateModel {
                app: AppModel { running: false, ..self.app },
                ..self
            },
            KeyAction::MoveTile { dx, dy } => StateModel {
                app: self.app.moved(mode, dx as int, dy as int),
                ..self
            },
            _ => self,
        }
    }

    /// What a key press makes the compositor do.
    pub open spec fn key_command(self, action: KeyAction) -> KeyCommand {
        match action {
            KeyAction::LaunchTerminal => KeyCommand::SpawnTerminal,
            KeyAction::CloseFocused => match self.app.focused_surface {
                Some(surface) => if shows(self.app.tile_order, surface) {
                    KeyCommand::Close(surface)
                } else {
                    KeyCommand::Nothing
                },
                None => KeyCommand::Nothing,
            },
            KeyAction::SwitchTty { vt } => KeyCommand::SwitchVt(vt),
            _ => KeyCommand::Nothing,
        }
    }
}

/// The tiles of `count` windows on the screen, in window order.
fn screen_tiles(count: usize, mode: Option<Size>) -> (tiles: Vec<Rectangle>)
    requires
        screen_size(mode).wf(),
    ensures
        tiles@.len() == count,
        rects(tiles@) == dwindle(count as nat, screen_rect(mode)),
        forall|i: int|
            0 <= i < count ==> (#[trigger] tiles@[i])@ == tile(count as nat, screen_rect(mode), i),
{
    let bounds: Rectangle = output_bounds(mode);
    let tiles: Vec<Rectangle> = dwindle_rectangles(count, bounds);
    assert forall|i: int| 0 <= i < count implies (#[trigger] tiles@[i])@ == tile(
        count as nat,
        screen_rect(mode),
        i,
    ) by {
        assert(rects(tiles@)[i] == tiles@[i]@);
    }
    tiles
}

/// The windows of `order` that are alive, in their order.
fn retain_alive(order: &Vec<Window>, alive: &Vec<bool>) -> (kept: Vec<Window>)
    requires
        alive@.len() == order@.len(),
    ensures
        kept@ == survivors(order@, alive@),
{
    let ghost entries = order@.zip_with(alive@);
    let mut kept: Vec<Window> = Vec::new();
    let mut index: usize = 0;
    assert(entries.take(0).filter_map(keeps_alive()) =~= Seq::empty());
    while index < order.len()
        invariant
            index <= order@.len(),
            alive@.len() == order@.len(),
            entries == order@.zip_with(alive@),
            entries.len() == order@.len(),
            kept@ == entries.take(index as int).filter_map(keeps_alive()),
        decreases order@.len() - index,
    {
        proof {
            entries.lemma_filter_map_take_succ(keeps_alive(), index as int);
        }
        if alive[index] {
            kept.push(order[index]);
        }
        index = index + 1;
    }
    assert(entries.take(entries.len() as int) =~= entries);
    kept
}

impl State {
    /// A compositor that has just started, in an active session.
    pub fn new() -> (state: State)
        ensures
            state@.session_active,
            state@.app == (AppModel {
                running: true,
                tile_order: Seq::empty(),
                focused_surface: None,
                layout_dirty: false,
            }),
    {
        State { app: App::new(), session_active: true }
    }

    /// The window whose tile `pixel` belongs to. The whole tile selects its window, also where
    /// the window has not drawn.
    pub fn tiled_window_under(&self, mode: Option<Size>, pixel: Pixel) -> (found: Option<Window>)
        requires
            screen_size(mode).wf(),
        ensures
            found == window_under(self@.app.tile_order, mode, pixel),
            forall|i: int|
                0 <= i < self.app.tile_order@.len() && (#[trigger] tile(
                    self.app.tile_order@.len(),
                    screen_rect(mode),
                    i,
                )).covers(pixel.x as int, pixel.y as int) ==> found == Some(
                    self.app.tile_order@[i],
                ),
            found is Some <==> self.app.tile_order@.len() > 0 && 0 <= pixel.x && pixel.x
                < screen_size(mode).w && 0 <= pixel.y && pixel.y < screen_size(mode).h,
    {
        proof {
            lemma_window_under(self.app.tile_order@, mode, pixel);
        }
        let count: usize = self.app.tile_order.len();
        let tiles: Vec<Rectangle> = screen_tiles(count, mode);
        let ghost order = self.app.tile_order@;
        let mut index: usize = 0;
        while index < count
            invariant
                index <= count,
                order == self.app.tile_order@,
                count == order.len(),
                tiles@.len() == count,
                screen_size(mode).wf(),
                forall|i: int|
                    0 <= i < count ==> (#[trigger] tiles@[i])@ == tile(
                        count as nat,
                        screen_rect(mode),
                        i,
                    ),
                forall|i: int| i < index ==> !is_under(order, mode, pixel, i),
            decreases count - index,
        {
            if tiles[index].contains(pixel) {
                proof {
                    lemma_under_unique(order, mode, pixel, index as int);
                    lemma_window_under(order, mode, pixel);
                }
                return Some(self.app.tile_order[index]);
            }
            index = index + 1;
        }
        None
    }

    /// Moves the focus to the window that the pointer selects, or away from all windows where it
    /// selects none.
    pub fn focus_under_pointer(
        &mut self,
        mode: Option<Size>,
        pointer: Option<Pixel>,
        elements: &Vec<Window>,
    ) -> (change: Option<FocusChange>)
        requires
            pointer is Some ==> screen_size(mode).wf(),
        ensures
            final(self)@ == (StateModel {
                app: old(self)@.app.focus(
                    surface_of(pointed_at(old(self)@.app.tile_order, mode, pointer)),
                ),
                ..old(self)@
            }),
            change_view(change) == focus_change(
                old(self)@.app.focused_surface,
                surface_of(pointed_at(old(self)@.app.tile_order, mode, pointer)),
                elements@,
            ),
            final(self).session_active == old(self).session_active,
            final(self).app.tile_order@ == old(self).app.tile_order@,
            final(self).app.layout_dirty == old(self).app.layout_dirty,
            final(self).app.running == old(self).app.running,
            pointer is None ==> final(self).app.focused_surface is None,
            pointer matches Some(pixel) ==> forall|i: int|
                0 <= i < old(self).app.tile_order@.len() && (#[trigger] tile(
                    old(self).app.tile_order@.len(),
                    screen_rect(mode),
                    i,
                )).covers(pixel.x as int, pixel.y as int) ==> final(self).app.focused_surface
                    == old(self).app.tile_order@[i].surface,
            pointer matches Some(pixel) ==> (!(old(self).app.tile_order@.len() > 0 && 0 <= pixel.x
                && pixel.x < screen_size(mode).w && 0 <= pixel.y && pixel.y < screen_size(mode).h)
                ==> final(self).app.focused_surface is None),
            change is None <==> final(self).app.focused_surface == old(self).app.focused_surface,
            change matches Some(done) ==> done.target == final(self).app.focused_surface,
    {
        let target: Option<Window> = match pointer {
            Some(pixel) => self.tiled_window_under(mode, pixel),
            None => None,
        };
        self.app.focus_window(target, elements)
    }

    /// Lays the windows out again. `alive` says of each window in tiling order whether it is
    /// alive; those that are not lose their places. The result gives the others theirs.
    pub fn apply_tiling(&mut self, alive: &Vec<bool>, mode: Option<Size>) -> (placements: Vec<
        Placement,
    >)
        requires
            alive@.len() == old(self)@.app.tile_order.len(),
            survivors(old(self)@.app.tile_order, alive@).len() > 0 ==> screen_size(mode).wf(),
        ensures
            final(self)@ == (StateModel { app: old(self)@.app.tiled(alive@), ..old(self)@ }),
            all_placed(placements@, final(self)@.app.tile_order, mode),
            !final(self).app.layout_dirty,
            final(self).session_active == old(self).session_active,
            final(self).app.focused_surface == old(self).app.focused_surface,
            final(self).app.running == old(self).app.running,
            placements@.len() == final(self).app.tile_order@.len(),
            forall|i: int|
                0 <= i < placements@.len() ==> (#[trigger] placements@[i]).window
                    == final(self).app.tile_order@[i] && placements@[i].tile@ == tile(
                    placements@.len(),
                    screen_rect(mode),
                    i,
                ),
            forall|i: int|
                0 <= i < placements@.len() ==> ((#[trigger] placements@[i]).configure is Some <==>
                    placements@[i].window.surface is Some),
            forall|i: int|
                0 <= i < placements@.len() ==> ((#[trigger] placements@[i]).configure matches Some(
                    configure,
                ) ==> Some(configure.surface) == placements@[i].window.surface && configure.size
                    == placements@[i].tile.size && configure.bounds == screen_size(mode)),
    {
        let kept: Vec<Window> = retain_alive(&self.app.tile_order, alive);
        self.app.tile_order = kept;
        let count: usize = self.app.tile_order.len();
        let ghost order = self.app.tile_order@;
        let mut placements: Vec<Placement> = Vec::new();
        if count == 0 {
            self.app.layout_dirty = false;
            return placements;
        }
        let tiles: Vec<Rectangle> = screen_tiles(count, mode);
        let bounds: Size = output_size(mode);
        let mut index: usize = 0;
        while index < count
            invariant
                index <= count,
                count == order.len(),
                order == self.app.tile_order@,
                self.app.tile_order@ == survivors(old(self)@.app.tile_order, alive@),
                self.app.running == old(self)@.app.running,
                self.app.focused_surface == old(self)@.app.focused_surface,
                self.session_active == old(self)@.session_active,
                tiles@.len() == count,
                bounds == screen_size(mode),
                forall|i: int|
                    0 <= i < count ==> (#[trigger] tiles@[i])@ == tile(
                        count as nat,
                        screen_rect(mode),
                        i,
                    ),
                placements@.len() == index,
                forall|i: int|
                    0 <= i < index ==> #[trigger] is_placed(placements@[i], order, mode, i),
            decreases count - index,
        {
            let window: Window = self.app.tile_order[index];
            let rectangle: Rectangle = tiles[index];
            let configure: Option<Configure> = match window.surface {
                Some(surface) => Some(Configure { surface, size: rectangle.size, bounds }),
                None => None,
            };
            placements.push(Placement { window, tile: rectangle, configure });
            index = index + 1;
        }
        self.app.layout_dirty = false;
        proof {
            lemma_placed(placements@, order, mode);
        }
        placements
    }

    /// Moves the focused window in the direction `(dx, dy)`, by exchanging it with the next
    /// window there.
    pub fn move_focused_tile(&mut self, mode: Option<Size>, dx: i32, dy: i32)
        requires
            old(self)@.app.focused_index() is Some ==> screen_size(mode).wf(),
        ensures
            final(self)@ == (StateModel {
                app: old(self)@.app.moved(mode, dx as int, dy as int),
                ..old(self)@
            }),
            final(self).session_active == old(self).session_active,
            final(self).app.focused_surface == old(self).app.focused_surface,
            final(self).app.running == old(self).app.running,
            old(self)@.app.focused_index() is None ==> final(self).app@ == old(self).app@,
            old(self)@.app.focused_index() matches Some(i) ==> forall|d: int| #[trigger]
                is_destination(
                    dwindle(old(self).app.tile_order@.len(), screen_rect(mode)),
                    i,
                    dx as int,
                    dy as int,
                    d,
                ) ==> final(self).app.layout_dirty && final(self).app.tile_order@ == old(
                    self,
                ).app.tile_order@.update(i, old(self).app.tile_order@[d]).update(
                    d,
                    old(self).app.tile_order@[i],
                ),
            old(self)@.app.focused_index() matches Some(i) ==> ((forall|j: int|
                !is_candidate(
                    dwindle(old(self).app.tile_order@.len(), screen_rect(mode)),
                    i,
                    dx as int,
                    dy as int,
                    j,
                )) ==> final(self).app@ == old(self).app@),
    {
        proof {
            lemma_moved(self.app@, mode, dx as int, dy as int);
        }
        let focused: u64 = match self.app.focused_surface {
            Some(surface) => surface,
            None => {
                return ;
            },
        };
        let index: usize = match position_of_surface(&self.app.tile_order, focused) {
            Some(index) => index,
            None => {
                return ;
            },
        };
        let tiles: Vec<Rectangle> = screen_tiles(self.app.tile_order.len(), mode);
        if let Some(other) = tile_in_direction(&tiles, index, dx, dy) {
            let here: Window = self.app.tile_order[index];
            let there: Window = self.app.tile_order[other];
            self.app.tile_order.set(index, there);
            self.app.tile_order.set(other, here);
            self.app.layout_dirty = true;
        }
    }

    /// Carries out what a key press asks for. What has to be done outside the compositor is in
    /// the result.
    pub fn run_key_action(&mut self, action: KeyAction, mode: Option<Size>) -> (command: KeyCommand)
        requires
            action is MoveTile && old(self)@.app.focused_index() is Some ==> screen_size(mode).wf(),
        ensures
            final(self)@ == old(self)@.after_key(action, mode),
            command == old(self)@.key_command(action),
            final(self).session_active == old(self).session_active,
            final(self).app.focused_surface == old(self).app.focused_surface,
            final(self).app.running == (old(self).app.running && action !is Exit),
            action !is MoveTile ==> final(self).app.tile_order@ == old(self).app.tile_order@
                && final(self).app.layout_dirty == old(self).app.layout_dirty,
            action matches KeyAction::MoveTile { dx, dy } ==> final(self).app@ == old(
                self,
            ).app@.moved(mode, dx as int, dy as int),
            command is SpawnTerminal <==> action is LaunchTerminal,
            forall|vt: i32|
                command == KeyCommand::SwitchVt(vt) <==> action == (KeyAction::SwitchTty { vt }),
            forall|surface: u64|
                command == KeyCommand::Close(surface) <==> action is CloseFocused && old(
                    self,
                ).app.focused_surface == Some(surface) && exists|i: int|
                    0 <= i < old(self).app.tile_order@.len() && (
                    #[trigger] old(self).app.tile_order@[i]).surface == Some(surface),
    {
        match action {
            KeyAction::Forward => KeyCommand::Nothing,
            KeyAction::Exit => {
                self.app.running = false;
                KeyCommand::Nothing
            },
            KeyAction::LaunchTerminal => KeyCommand::SpawnTerminal,
            KeyAction::CloseFocused => {
                match self.app.focused_surface {
                    Some(surface) => {
                        match position_of_surface(&self.app.tile_order, surface) {
                            Some(_) => KeyCommand::Close(surface),
                            None => KeyCommand::Nothing,
                        }
                    },
                    None => KeyCommand::Nothing,
                }
            },
            KeyAction::MoveTile { dx, dy } => {
                self.move_focused_tile(mode, dx, dy);
                KeyCommand::Nothing
            },
            KeyAction::SwitchTty { vt } => KeyCommand::SwitchVt(vt),
        }
    }

    /// Records that the session has lost the screen.
    pub fn pause_session(&mut self)
        ensures
            final(self)@ == (StateModel { session_active: false, ..old(self)@ }),
            !final(self).session_active,
            final(self).app@ == old(self).app@,
    {
        self.session_active = false;
    }

    /// Records that the session has been given the screen back; `activated` says whether the
    /// device could be taken over. If so the layout has to be renewed, and the result says that
    /// the buffers have to be reset; if not, nothing changes.
    pub fn activate_session(&mut self, activated: bool) -> (reset_buffers: bool)
        ensures
            reset_buffers == activated,
            final(self)@ == (if activated {
                StateModel {
                    app: AppModel { layout_dirty: true, ..old(self)@.app },
                    session_active: true,
                }
            } else {
                old(self)@
            }),
            final(self).session_active == (activated || old(self).session_active),
            final(self).app.layout_dirty == (activated || old(self).app.layout_dirty),
            final(self).app.tile_order@ == old(self).app.tile_order@,
            final(self).app.focused_surface == old(self).app.focused_surface,
            final(self).app.running == old(self).app.running,
    {
        if activated {
            self.app.layout_dirty = true;
            self.session_active = true;
        }
        activated
    }

    /// Starts a frame. The result is `None` where the session does not own the screen and no
    /// frame is drawn; else it gives the places of the windows where the layout had to be
    /// renewed, and is empty where it had not.
    pub fn begin_frame(&mut self, alive: &Vec<bool>, mode: Option<Size>) -> (placements: Option<
        Vec<Placement>,
    >)
        requires
            alive@.len() == old(self)@.app.tile_order.len(),
            old(self)@.session_active && old(self)@.app.layout_dirty && survivors(
                old(self)@.app.tile_order,
                alive@,
            ).len() > 0 ==> screen_size(mode).wf(),
        ensures
            placements is Some <==> old(self)@.session_active,
            final(self)@ == (if old(self)@.session_active && old(self)@.app.layout_dirty {
                StateModel { app: old(self)@.app.tiled(alive@), ..old(self)@ }
            } else {
                old(self)@
            }),
            placements matches Some(placed) ==> if old(self)@.app.layout_dirty {
                all_placed(placed@, final(self)@.app.tile_order, mode)
            } else {
                placed@.len() == 0
            },
            final(self).session_active == old(self).session_active,
            final(self).app.focused_surface == old(self).app.focused_surface,
            final(self).app.running == old(self).app.running,
            final(self).app.layout_dirty == (old(self).app.layout_dirty && !old(
                self,
            ).session_active),
            !(old(self).session_active && old(self).app.layout_dirty)
                ==> final(self).app.tile_order@ == old(self).app.tile_order@,
            placements matches Some(placed) ==> (old(self).app.layout_dirty ==> placed@.len()
                == final(self).app.tile_order@.len()),
            placements matches Some(placed) ==> forall|i: int|
                0 <= i < placed@.len() ==> (#[trigger] placed@[i]).window
                    == final(self).app.tile_order@[i] && placed@[i].tile@ == tile(
                    placed@.len(),
                    screen_rect(mode),
                    i,
                ) && (placed@[i].configure is Some <==> placed@[i].window.surface is Some) && (
                placed@[i].configure matches Some(configure) ==> Some(configure.surface)
                    == placed@[i].window.surface && configure.size == placed@[i].tile.size
                    && configure.bounds == screen_size(mode)),
    {
        if !self.session_active {
            return None;
        }
        if self.app.layout_dirty {
            Some(self.apply_tiling(alive, mode))
        } else {
            Some(Vec::new())
        }
    }

    /// What a frame shows, from front to back: the cursor, whose corner is at `pointer`, then the
    /// toplevels in tiling order. `locations` gives the place of each window in tiling order.
    ///
    /// The cursor comes first so that no window can hide it.
    pub fn frame_elements(&self, pointer: Point, locations: &Vec<Option<Point>>) -> (elements: Vec<
        FrameElement,
    >)
        requires
            locations@.len() == self@.app.tile_order.len(),
        ensures
            elements@ == seq![
                FrameElement::Cursor(
                    Rectangle { loc: pointer, size: Size { w: CURSOR_SIZE, h: CURSOR_SIZE } },
                ),
            ] + self@.app.tile_order.zip_with(locations@).filter_map(drawn()),
            elements@[0] == FrameElement::Cursor(
                Rectangle { loc: pointer, size: Size { w: 28, h: 28 } },
            ),
            elements@.len() == 1 + self.app.tile_order@.filter(
                |window: Window| window.surface is Some,
            ).len(),
            forall|i: int|
                0 <= i < self.app.tile_order@.len() ==> ((
                #[trigger] self.app.tile_order@[i]).surface matches Some(surface) ==> elements@[1int
                    + self.app.tile_order@.take(i).filter(
                    |window: Window| window.surface is Some,
                ).len()] == (FrameElement::Surface {
                    surface,
                    loc: match locations@[i] {
                        Some(loc) => loc,
                        None => Point { x: 0, y: 0 },
                    },
                })),
    {
        let cursor: FrameElement = FrameElement::Cursor(
            Rectangle { loc: pointer, size: Size { w: CURSOR_SIZE, h: CURSOR_SIZE } },
        );
        let ghost entries = self.app.tile_order@.zip_with(locations@);
        let mut elements: Vec<FrameElement> = Vec::new();
        elements.push(cursor);
        let mut index: usize = 0;
        assert(elements@ =~= seq![cursor] + entries.take(0).filter_map(drawn()));
        while index < self.app.tile_order.len()
            invariant
                index <= self.app.tile_order@.len(),
                locations@.len() == self.app.tile_order@.len(),
                entries == self.app.tile_order@.zip_with(locations@),
                entries.len() == self.app.tile_order@.len(),
                elements@ == seq![cursor] + entries.take(index as int).filter_map(drawn()),
            decreases self.app.tile_order@.len() - index,
        {
            proof {
                entries.lemma_filter_map_take_succ(drawn(), index as int);
            }
            if let Some(surface) = self.app.tile_order[index].surface {
                let loc: Point = match locations[index] {
                    Some(loc) => loc,
                    None => Point { x: 0, y: 0 },
                };
                elements.push(FrameElement::Surface { surface, loc });
            }
            assert(elements@ =~= seq![cursor] + entries.take(index + 1).filter_map(drawn()));
            index = index + 1;
        }
        assert(entries.take(entries.len() as int) =~= entries);
        proof {
            law_frame_shows_every_toplevel(self.app.tile_order@, locations@, 0);
            assert forall|i: int| 0 <= i < self.app.tile_order@.len() implies ((
            #[trigger] self.app.tile_order@[i]).surface matches Some(surface) ==> elements@[1int
                + self.app.tile_order@.take(i).filter(
                |window: Window| window.surface is Some,
            ).len()] == (FrameElement::Surface {
                surface,
                loc: match locations@[i] {
                    Some(loc) => loc,
                    None => Point { x: 0, y: 0 },
                },
            })) by {
                law_frame_shows_every_toplevel(self.app.tile_order@, locations@, i);
            }
        }
        elements
    }
}

/// The view of a compositor holds what it holds.
pub proof fn law_view_holds_the_state(state: State)
    ensures
        state@.app == state.app@,
        state@.session_active == state.session_active,
{
}

/// A pixel belongs to one tile at most, so [`window_under`] is the window of that tile.
proof fn lemma_under_unique(order: Seq<Window>, mode: Option<Size>, pixel: Pixel, i: int)
    requires
        screen_size(mode).wf(),
        is_under(order, mode, pixel, i),
    ensures
        window_under(order, mode, pixel) == Some(order[i]),
{
    let other = choose|other: int| is_under(order, mode, pixel, other);
    if other != i {
        law_tiles_disjoint(
            order.len(),
            screen_rect(mode),
            i,
            other,
            pixel.x as int,
            pixel.y as int,
        );
    }
}

/// A pixel of a window's tile selects that window, and a pixel of no tile selects none. On a
/// screen that shows windows every pixel selects one.
pub proof fn law_whole_tile_selects_its_window(
    order: Seq<Window>,
    mode: Option<Size>,
    pixel: Pixel,
    i: int,
)
    requires
        screen_size(mode).wf(),
    ensures
        is_under(order, mode, pixel, i) ==> window_under(order, mode, pixel) == Some(order[i]),
        window_under(order, mode, pixel) is Some <==> order.len() > 0 && screen_rect(mode).covers(
            pixel.x as int,
            pixel.y as int,
        ),
{
    if is_under(order, mode, pixel, i) {
        lemma_under_unique(order, mode, pixel, i);
    }
    if order.len() > 0 {
        law_tiles_cover_bounds(order.len(), screen_rect(mode), pixel.x as int, pixel.y as int);
        if screen_rect(mode).covers(pixel.x as int, pixel.y as int) {
            let covering = choose|k: int|
                0 <= k < order.len() && (#[trigger] tile(
                    order.len(),
                    screen_rect(mode),
                    k,
                )).covers(pixel.x as int, pixel.y as int);
            assert(is_under(order, mode, pixel, covering));
        }
        if exists|k: int| is_under(order, mode, pixel, k) {
            let covering = choose|k: int| is_under(order, mode, pixel, k);
            assert(tile(order.len(), screen_rect(mode), covering).covers(
                pixel.x as int,
                pixel.y as int,
            ));
        }
    }
}

/// The same of every window at once, and in the numbers that make up the screen.
proof fn lemma_window_under(order: Seq<Window>, mode: Option<Size>, pixel: Pixel)
    requires
        screen_size(mode).wf(),
    ensures
        forall|i: int|
            0 <= i < order.len() && (#[trigger] tile(order.len(), screen_rect(mode), i)).covers(
                pixel.x as int,
                pixel.y as int,
            ) ==> window_under(order, mode, pixel) == Some(order[i]),
        window_under(order, mode, pixel) is Some <==> order.len() > 0 && 0 <= pixel.x && pixel.x
            < screen_size(mode).w && 0 <= pixel.y && pixel.y < screen_size(mode).h,
{
    law_whole_tile_selects_its_window(order, mode, pixel, 0);
    assert forall|i: int|
        0 <= i < order.len() && (#[trigger] tile(order.len(), screen_rect(mode), i)).covers(
            pixel.x as int,
            pixel.y as int,
        ) implies window_under(order, mode, pixel) == Some(order[i]) by {
        law_whole_tile_selects_its_window(order, mode, pixel, i);
    }
}

/// A pointer selects by the mode that the screen has: in the tile of a window on a screen of that
/// size it selects this window, and beyond the screen, on an empty screen, or while it is nowhere,
/// it selects none.
pub proof fn law_pointer_selects_on_the_same_screen(
    order: Seq<Window>,
    size: Size,
    pixel: Pixel,
    i: int,
)
    requires
        size.w >= 0,
        size.h >= 0,
    ensures
        0 <= i < order.len() && tile(
            order.len(),
            Rect { x: 0, y: 0, w: size.w as int, h: size.h as int },
            i,
        ).covers(pixel.x as int, pixel.y as int) ==> pointed_at(order, Some(size), Some(pixel))
            == Some(order[i]),
        pixel.x < 0 || pixel.x >= size.w || pixel.y < 0 || pixel.y >= size.h ==> pointed_at(
            order,
            Some(size),
            Some(pixel),
        ) is None,
        pointed_at(order, Some(size), Some(pixel)) is None ==> order.len() == 0 || pixel.x < 0
            || pixel.x >= size.w || pixel.y < 0 || pixel.y >= size.h,
        pointed_at(Seq::empty(), Some(size), Some(pixel)) is None,
        pointed_at(order, Some(size), None) is None,
        pointed_at(order, None, None) is None,
        pointed_at(order, None, Some(pixel)) == pointed_at(
            order,
            Some(Size { w: 1920, h: 1080 }),
            Some(pixel),
        ),
{
    let mode = Some(size);
    let unset = Some(Size { w: 1920, h: 1080 });
    lemma_window_under(order, mode, pixel);
    lemma_window_under(Seq::empty(), mode, pixel);
    lemma_window_under(order, None, pixel);
    lemma_window_under(order, unset, pixel);
    assert(tile(order.len(), screen_rect(mode), i) == tile(
        order.len(),
        Rect { x: 0, y: 0, w: size.w as int, h: size.h as int },
        i,
    ));
    if window_under(order, None, pixel) is Some {
        let k = choose|k: int| is_under(order, None, pixel, k);
        assert(tile(order.len(), screen_rect(unset), k).covers(pixel.x as int, pixel.y as int));
        lemma_under_unique(order, None, pixel, k);
    }
}

/// Once the windows have been laid out, a pointer on the place of a window selects that window.
pub proof fn law_pointer_agrees_with_layout(
    placements: Seq<Placement>,
    order: Seq<Window>,
    mode: Option<Size>,
    pixel: Pixel,
    i: int,
)
    requires
        screen_size(mode).wf(),
        all_placed(placements, order, mode),
        0 <= i < placements.len(),
        placements[i].tile@.covers(pixel.x as int, pixel.y as int),
    ensures
        window_under(order, mode, pixel) == Some(placements[i].window),
{
    assert(is_placed(placements[i], order, mode, i));
    lemma_under_unique(order, mode, pixel, i);
}

/// What a layout says of each place.
proof fn lemma_placed(placements: Seq<Placement>, order: Seq<Window>, mode: Option<Size>)
    requires
        all_placed(placements, order, mode),
    ensures
        forall|i: int|
            0 <= i < order.len() ==> (#[trigger] placements[i]).window == order[i]
                && placements[i].tile@ == tile(order.len(), screen_rect(mode), i) && (
            placements[i].configure is Some <==> placements[i].window.surface is Some) && (
            placements[i].configure matches Some(configure) ==> Some(configure.surface)
                == placements[i].window.surface && configure.size == placements[i].tile.size
                && configure.bounds == screen_size(mode)),
{
    assert forall|i: int| 0 <= i < order.len() implies (#[trigger] placements[i]).window == order[i]
        && placements[i].tile@ == tile(order.len(), screen_rect(mode), i) && (
    placements[i].configure is Some <==> placements[i].window.surface is Some) && (
    placements[i].configure matches Some(configure) ==> Some(configure.surface)
        == placements[i].window.surface && configure.size == placements[i].tile.size
        && configure.bounds == screen_size(mode)) by {
        assert(is_placed(placements[i], order, mode, i));
    }
}

/// Each window is placed on its tile of the screen that the output shows. Its toplevel, and only a
/// toplevel, is told: the sizes of that tile and of that screen, under its own surface. Whatever
/// does so for every window is a layout of them.
pub proof fn law_every_toplevel_is_configured(
    placements: Seq<Placement>,
    order: Seq<Window>,
    size: Size,
)
    requires
        placements.len() == order.len(),
    ensures
        all_placed(placements, order, Some(size)) <==> forall|i: int|
            0 <= i < order.len() ==> (#[trigger] placements[i]).window == order[i]
                && placements[i].tile@ == tile(
                order.len(),
                Rect { x: 0, y: 0, w: size.w as int, h: size.h as int },
                i,
            ) && (placements[i].configure is Some <==> placements[i].window.surface is Some) && (
            placements[i].configure matches Some(configure) ==> Some(configure.surface)
                == placements[i].window.surface && configure.size == placements[i].tile.size
                && configure.bounds == size),
        all_placed(placements, order, None) <==> all_placed(
            placements,
            order,
            Some(Size { w: 1920, h: 1080 }),
        ),
{
    if all_placed(placements, order, Some(size)) {
        lemma_placed(placements, order, Some(size));
    }
    let unset = Some(Size { w: 1920, h: 1080 });
    if all_placed(placements, order, None) {
        assert forall|i: int| 0 <= i < order.len() implies #[trigger] is_placed(
            placements[i],
            order,
            unset,
            i,
        ) by {
            assert(is_placed(placements[i], order, None, i));
        }
    }
    if all_placed(placements, order, unset) {
        assert forall|i: int| 0 <= i < order.len() implies #[trigger] is_placed(
            placements[i],
            order,
            None,
            i,
        ) by {
            assert(is_placed(placements[i], order, unset, i));
        }
    }
}

/// A frame shows the toplevels of all windows and nothing else behind its cursor. With each window
/// that joins the tiling order one more surface is drawn, behind all others, if the window has a
/// toplevel: its own, at its location, wherever that is, and at the origin if it has none.
pub proof fn law_each_toplevel_adds_one_element(
    order: Seq<Window>,
    locations: Seq<Option<Point>>,
    window: Window,
    location: Option<Point>,
)
    requires
        locations.len() == order.len(),
    ensures
        ({
            let before = order.zip_with(locations).filter_map(drawn());
            let after = order.push(window).zip_with(locations.push(location)).filter_map(drawn());
            &&& order.len() == 0 ==> before.len() == 0
            &&& window.surface is None ==> after == before
            &&& window.surface matches Some(surface) ==> after.len() == before.len() + 1
                && after.drop_last() == before && (after.last() matches FrameElement::Surface {
                surface: shown,
                loc,
            } && shown == surface && (location is Some ==> Some(loc) == location) && (
            location is None ==> loc.x == 0 && loc.y == 0))
        }),
{
    let entries = order.push(window).zip_with(locations.push(location));
    assert(entries.drop_last() =~= order.zip_with(locations));
    assert(entries.last() == (window, location));
    let before = order.zip_with(locations).filter_map(drawn());
    let after = entries.filter_map(drawn());
    if window.surface is Some {
        assert(after.drop_last() =~= before);
    }
}

/// A frame draws as many surfaces as there are windows with a toplevel, in tiling order: the
/// toplevel of a window comes behind those of the windows before it, at its own location.
pub proof fn law_frame_shows_every_toplevel(
    order: Seq<Window>,
    locations: Seq<Option<Point>>,
    i: int,
)
    requires
        locations.len() == order.len(),
    ensures
        order.zip_with(locations).filter_map(drawn()).len() == order.filter(
            |window: Window| window.surface is Some,
        ).len(),
        0 <= i < order.len() ==> (order[i].surface matches Some(surface) ==> order.take(i).filter(
            |window: Window| window.surface is Some,
        ).len() < order.filter(|window: Window| window.surface is Some).len()
            && order.zip_with(locations).filter_map(drawn())[order.take(i).filter(
            |window: Window| window.surface is Some,
        ).len() as int] == (FrameElement::Surface {
            surface,
            loc: match locations[i] {
                Some(loc) => loc,
                None => Point { x: 0, y: 0 },
            },
        })),
    decreases order.len(),
{
    reveal(Seq::filter);
    let entries = order.zip_with(locations);
    if order.len() > 0 {
        let rest = order.drop_last();
        let places = locations.drop_last();
        assert(rest.zip_with(places) =~= entries.drop_last());
        assert(entries.last() == (order.last(), locations.last()));
        law_frame_shows_every_toplevel(rest, places, i);
        if 0 <= i < rest.len() {
            assert(rest.take(i) =~= order.take(i));
        } else {
            assert(order.take(order.len() - 1) =~= rest);
        }
    }
}

/// Laying the windows out treats each window on its own: one more window at the end of the order
/// stays at the end exactly when it is alive, and makes no difference to the others. The layout is
/// up to date then, and neither the focus nor the run ends.
pub proof fn law_tiling_treats_each_window_alone(
    app: AppModel,
    alive: Seq<bool>,
    window: Window,
    lives: bool,
)
    requires
        alive.len() == app.tile_order.len(),
    ensures
        (AppModel { tile_order: app.tile_order.push(window), ..app }).tiled(
            alive.push(lives),
        ).tile_order == (if lives {
            app.tiled(alive).tile_order.push(window)
        } else {
            app.tiled(alive).tile_order
        }),
        app.tile_order.len() == 0 ==> app.tiled(alive).tile_order.len() == 0,
        !app.tiled(alive).layout_dirty,
        app.tiled(alive).focused_surface == app.focused_surface,
        app.tiled(alive).running == app.running,
{
    let entries = app.tile_order.push(window).zip_with(alive.push(lives));
    assert(entries.drop_last() =~= app.tile_order.zip_with(alive));
    assert(entries.last() == (window, lives));
    assert(entries.filter_map(keeps_alive()) =~= if lives {
        app.tiled(alive).tile_order.push(window)
    } else {
        app.tiled(alive).tile_order
    });
}

/// Laying the windows out keeps those that are alive, all of them and in their order. Where all
/// are alive none loses its place.
pub proof fn law_tiling_keeps_the_living(app: AppModel, alive: Seq<bool>)
    requires
        alive.len() == app.tile_order.len(),
    ensures
        in_same_order(app.tiled(alive).tile_order, app.tile_order),
        forall|i: int|
            0 <= i < app.tile_order.len() && #[trigger] alive[i] ==> app.tiled(
                alive,
            ).tile_order.contains(app.tile_order[i]),
        distinct_surfaces(app.tile_order) ==> distinct_surfaces(app.tiled(alive).tile_order),
        (forall|i: int| 0 <= i < alive.len() ==> #[trigger] alive[i]) ==> app.tiled(
            alive,
        ).tile_order == app.tile_order,
        app.tiled(alive).focused_surface == app.focused_surface,
{
    let order = app.tile_order;
    let entries = order.zip_with(alive);
    assert(entries.len() == order.len());
    lemma_kept_in_order(entries, keeps_alive(), order);
    assert forall|i: int| 0 <= i < order.len() && #[trigger] alive[i] implies survivors(
        order,
        alive,
    ).contains(order[i]) by {
        assert(entries[i] == (order[i], alive[i]));
        lemma_kept_item(entries, keeps_alive(), i);
    }
    if distinct_surfaces(order) {
        lemma_kept_stay_distinct(survivors(order, alive), order);
    }
    if forall|i: int| 0 <= i < alive.len() ==> #[trigger] alive[i] {
        lemma_all_survive(order, alive);
    }
}

proof fn lemma_all_survive(order: Seq<Window>, alive: Seq<bool>)
    requires
        alive.len() == order.len(),
        forall|i: int| 0 <= i < alive.len() ==> #[trigger] alive[i],
    ensures
        survivors(order, alive) == order,
    decreases order.len(),
{
    let entries = order.zip_with(alive);
    if order.len() > 0 {
        let rest = order.drop_last();
        assert(entries.drop_last() =~= rest.zip_with(alive.drop_last()));
        assert forall|i: int| 0 <= i < rest.len() implies #[trigger] alive.drop_last()[i] by {
            assert(alive[i]);
        }
        lemma_all_survive(rest, alive.drop_last());
        assert(alive[order.len() - 1]);
        assert(entries.last() == (order.last(), true));
    }
    assert(survivors(order, alive) =~= order);
}

/// The focus stays on a tiled window when the windows are laid out, provided that the window
/// which has it is alive.
pub proof fn law_tiling_keeps_living_focus(app: AppModel, alive: Seq<bool>, i: int)
    requires
        alive.len() == app.tile_order.len(),
        0 <= i < alive.len(),
        alive[i],
        app.focused_surface is Some,
        app.tile_order[i].surface == app.focused_surface,
    ensures
        app.tiled(alive).focus_is_tiled(),
{
    law_tiling_keeps_the_living(app, alive);
    let kept = app.tiled(alive).tile_order;
    assert(kept.contains(app.tile_order[i]));
}

/// What a move does to the application, in terms of the candidates for it.
proof fn lemma_moved(app: AppModel, mode: Option<Size>, dx: int, dy: int)
    ensures
        app.focused_index() is None ==> app.moved(mode, dx, dy) == app,
        app.focused_index() matches Some(i) ==> forall|d: int| #[trigger]
            is_destination(dwindle(app.tile_order.len(), screen_rect(mode)), i, dx, dy, d)
                ==> app.moved(mode, dx, dy).layout_dirty && app.moved(mode, dx, dy).tile_order
                == app.tile_order.update(i, app.tile_order[d]).update(d, app.tile_order[i]),
        app.focused_index() matches Some(i) ==> ((forall|j: int|
            !is_candidate(dwindle(app.tile_order.len(), screen_rect(mode)), i, dx, dy, j))
            ==> app.moved(mode, dx, dy) == app),
{
    let tiles = dwindle(app.tile_order.len(), screen_rect(mode));
    if let Some(i) = app.focused_index() {
        law_some_candidate_is_chosen(tiles, i, dx, dy);
        assert forall|d: int| #[trigger] is_destination(tiles, i, dx, dy, d) implies app.moved(
            mode,
            dx,
            dy,
        ).layout_dirty && app.moved(mode, dx, dy).tile_order == app.tile_order.update(
            i,
            app.tile_order[d],
        ).update(d, app.tile_order[i]) by {
            lemma_destination_unique(tiles, i, dx, dy, d);
        }
    }
}

/// A move takes the focused window, the first that shows the focused surface, wherever it stands
/// in the order. If a tile lies in the direction, the window changes places with the one whose
/// tile goes before all others there, however far apart the two stand in the order, and the layout
/// has to be renewed. If no tile lies there, nothing changes.
pub proof fn law_move_reaches_the_next_tile(
    app: AppModel,
    mode: Option<Size>,
    dx: int,
    dy: int,
    surface: u64,
    i: int,
    j: int,
)
    requires
        app.focused_surface == Some(surface),
        0 <= i < app.tile_order.len(),
        app.tile_order[i].surface == Some(surface),
        forall|k: int| 0 <= k < i ==> (#[trigger] app.tile_order[k]).surface != Some(surface),
    ensures
        ({
            let tiles = dwindle(app.tile_order.len(), screen_rect(mode));
            let moved = app.moved(mode, dx, dy);
            &&& (forall|k: int| !is_candidate(tiles, i, dx, dy, k)) ==> moved == app
            &&& is_candidate(tiles, i, dx, dy, j) ==> moved.layout_dirty && exists|d: int|
                #![trigger moved.tile_order[d]]
                d != i && is_destination(tiles, i, dx, dy, d) && moved.tile_order[d]
                    == app.tile_order[i] && moved.tile_order[i] == app.tile_order[d]
            &&& is_destination(tiles, i, dx, dy, j) ==> moved.tile_order == app.tile_order.update(
                i,
                app.tile_order[j],
            ).update(j, app.tile_order[i])
            &&& distinct_surfaces(app.tile_order) ==> (moved.tile_order != app.tile_order
                <==> exists|k: int| is_candidate(tiles, i, dx, dy, k))
            &&& moved.tile_order.len() == app.tile_order.len()
            &&& moved.focused_surface == app.focused_surface
            &&& moved.running == app.running
        }),
{
    let tiles = dwindle(app.tile_order.len(), screen_rect(mode));
    let moved = app.moved(mode, dx, dy);
    law_focused_window_is_the_first(app, surface, i);
    lemma_moved(app, mode, dx, dy);
    law_some_candidate_is_chosen(tiles, i, dx, dy);
    if exists|k: int| is_candidate(tiles, i, dx, dy, k) {
        let d = destination(tiles, i, dx, dy)->0;
        assert(is_destination(tiles, i, dx, dy, d));
        assert(is_candidate(tiles, i, dx, dy, d));
        assert(moved.tile_order[d] == app.tile_order[i]);
        assert(moved.tile_order[i] == app.tile_order[d]);
        if distinct_surfaces(app.tile_order) {
            assert(app.tile_order[d].surface != app.tile_order[i].surface);
        }
    }
}

/// A move without a window to move changes nothing: neither where nothing has the focus, nor where
/// no window of the tiling order shows the surface that has it.
pub proof fn law_move_needs_a_focused_window(app: AppModel, mode: Option<Size>, dx: int, dy: int)
    requires
        app.focused_surface matches Some(surface) ==> forall|k: int|
            0 <= k < app.tile_order.len() ==> (#[trigger] app.tile_order[k]).surface != Some(
                surface,
            ),
    ensures
        app.moved(mode, dx, dy) == app,
{
    if let Some(surface) = app.focused_surface {
        law_focused_window_is_the_first(app, surface, 0);
    }
    lemma_moved(app, mode, dx, dy);
}

/// What a key press makes the compositor do depends on what it asks for alone, but that only a
/// toplevel which has the focus and is tiled can be asked to close: that one, and no other. Only
/// the exit ends the run, and only a move touches the layout.
pub proof fn law_key_press_does_what_it_asks_for(
    state: StateModel,
    action: KeyAction,
    mode: Option<Size>,
    surface: u64,
    vt: i32,
)
    ensures
        state.key_command(action) == KeyCommand::Close(surface) <==> action
            == KeyAction::CloseFocused && state.app.focused_surface == Some(surface) && exists|
            i: int,
        |
            0 <= i < state.app.tile_order.len() && (#[trigger] state.app.tile_order[i]).surface
                == Some(surface),
        state.key_command(action) == KeyCommand::SpawnTerminal <==> action
            == KeyAction::LaunchTerminal,
        state.key_command(action) == KeyCommand::SwitchVt(vt) <==> action == (
        KeyAction::SwitchTty { vt }),
        state.after_key(action, mode).session_active == state.session_active,
        state.after_key(action, mode).app.focused_surface == state.app.focused_surface,
        state.after_key(action, mode).app.running <==> state.app.running && action
            != KeyAction::Exit,
        action matches KeyAction::MoveTile { dx, dy } ==> state.after_key(action, mode).app
            == state.app.moved(mode, dx as int, dy as int),
        action !is MoveTile ==> state.after_key(action, mode).app.tile_order
            == state.app.tile_order && state.after_key(action, mode).app.layout_dirty
            == state.app.layout_dirty,
{
    if let KeyAction::MoveTile { dx, dy } = action {
        law_move_exchanges_two(state.app, mode, dx as int, dy as int);
    }
}

/// Moving a window changes the places of two windows and nothing else: every other window stays
/// where it is, none is lost or doubled, and the focus stays on its surface.
pub proof fn law_move_exchanges_two(app: AppModel, mode: Option<Size>, dx: int, dy: int)
    ensures
        app.moved(mode, dx, dy).focused_surface == app.focused_surface,
        app.moved(mode, dx, dy).running == app.running,
        app.moved(mode, dx, dy).tile_order.to_multiset() == app.tile_order.to_multiset(),
        app.move_destination(mode, dx, dy) is None ==> app.moved(mode, dx, dy) == app,
        app.move_destination(mode, dx, dy) matches Some(d) ==> app.focused_index() is Some
            && differ_by_exchange(
            app.tile_order,
            app.moved(mode, dx, dy).tile_order,
            app.focused_index()->0,
            d,
        ) && app.moved(mode, dx, dy).layout_dirty,
{
    if let Some(d) = app.move_destination(mode, dx, dy) {
        lemma_move_positions(app, mode, dx, dy);
        let order = app.tile_order;
        let index = app.focused_index()->0;
        lemma_exchange_multiset(order, index, d);
    }
}

/// Where a window moves to, it is exchanged with another one.
proof fn lemma_move_positions(app: AppModel, mode: Option<Size>, dx: int, dy: int)
    requires
        app.move_destination(mode, dx, dy) is Some,
    ensures
        app.focused_index() matches Some(index) && first_with_surface(
            app.tile_order,
            app.focused_surface->0,
            index,
        ) && index != app.move_destination(mode, dx, dy)->0,
        0 <= app.move_destination(mode, dx, dy)->0 < app.tile_order.len(),
{
    let index = app.focused_index()->0;
    law_some_candidate_is_chosen(
        dwindle(app.tile_order.len(), screen_rect(mode)),
        index,
        dx,
        dy,
    );
}

proof fn lemma_exchange_multiset(order: Seq<Window>, i: int, j: int)
    requires
        0 <= i < order.len(),
        0 <= j < order.len(),
    ensures
        exchanged(order, i, j).to_multiset() == order.to_multiset(),
{
    broadcast use vstd::seq_lib::group_to_multiset_ensures;

    let once = order.update(i, order[j]);
    vstd::seq_lib::to_multiset_update(order, i, order[j]);
    vstd::seq_lib::to_multiset_update(once, j, order[i]);
    assert(order.contains(order[i]));
    assert(exchanged(order, i, j).to_multiset() =~= order.to_multiset());
}

/// Moving keeps every surface shown by one window at most, and the focus on a tiled window.
pub proof fn law_move_keeps_invariants(app: AppModel, mode: Option<Size>, dx: int, dy: int)
    ensures
        distinct_surfaces(app.tile_order) ==> distinct_surfaces(
            app.moved(mode, dx, dy).tile_order,
        ),
        app.focus_is_tiled() ==> app.moved(mode, dx, dy).focus_is_tiled(),
{
    if let Some(d) = app.move_destination(mode, dx, dy) {
        lemma_move_positions(app, mode, dx, dy);
        assert(app.moved(mode, dx, dy).tile_order[d] == app.tile_order[app.focused_index()->0]);
    }
}

/// Moving a window and moving it back in the opposite direction restores the tiling order,
/// unless another tile comes in between on the way back.
pub proof fn law_move_back_undoes_move(app: AppModel, mode: Option<Size>, dx: int, dy: int)
    requires
        distinct_surfaces(app.tile_order),
        app.move_destination(mode, dx, dy) matches Some(d) && way_back_is_clear(
            dwindle(app.tile_order.len(), screen_rect(mode)),
            app.focused_index()->0,
            dx,
            dy,
            d,
        ),
    ensures
        app.moved(mode, dx, dy).moved(mode, -dx, -dy).tile_order == app.tile_order,
{
    let order = app.tile_order;
    let tiles = dwindle(order.len(), screen_rect(mode));
    let d = app.move_destination(mode, dx, dy)->0;
    lemma_move_positions(app, mode, dx, dy);
    let index = app.focused_index()->0;
    let surface = app.focused_surface->0;
    law_opposite_direction_leads_back(tiles, index, dx, dy, d);
    let moved = app.moved(mode, dx, dy);
    assert forall|j: int| 0 <= j < d implies (#[trigger] moved.tile_order[j]).surface != Some(
        surface,
    ) by {
        if j == index {
            assert(moved.tile_order[j] == order[d]);
            assert(order[index].surface is Some && order[d].surface != order[index].surface);
        } else {
            assert(moved.tile_order[j] == order[j]);
            assert(order[j].surface != order[index].surface);
        }
    }
    assert(first_with_surface(moved.tile_order, surface, d));
    lemma_surface_index(moved.tile_order, surface, d);
    assert(moved.move_destination(mode, -dx, -dy) == Some(index));
    assert(exchanged(exchanged(order, index, d), d, index) =~= order);
}

} // verus!
