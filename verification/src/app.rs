//! The windows that are open, the order in which they are tiled, and the keyboard focus.
use vstd::prelude::*;

verus! {

/// An open window.
///
/// `id` tells the window apart from every other; `surface` is the surface of its toplevel, for
/// a window that has a toplevel.
#[derive(Clone, Copy, Debug, PartialEq, Eq, Structural, Hash)]
pub struct Window {
    pub id: u64,
    pub surface: Option<u64>,
}

/// What the toplevel of a surface is told about its state.
#[derive(Clone, Copy, Debug, PartialEq, Eq, Structural, Hash)]
pub struct Activation {
    pub surface: u64,
    pub active: bool,
}

/// A change of the keyboard focus: the keyboard goes to `target`, and each toplevel on screen is
/// told whether it is the active one.
#[derive(Debug, PartialEq, Eq)]
pub struct FocusChange {
    pub target: Option<u64>,
    pub activations: Vec<Activation>,
}

/// The compositor's own record of its windows.
pub struct App {
    /// Whether the compositor goes on running.
    pub running: bool,
    /// The windows in tiling order. Focus and stacking do not change it.
    pub tile_order: Vec<Window>,
    /// The surface that has the keyboard focus.
    pub focused_surface: Option<u64>,
    /// Whether the windows have to be laid out again before the next frame.
    pub layout_dirty: bool,
}

/// The mathematical view of a [`FocusChange`].
pub struct FocusChangeModel {
    pub target: Option<u64>,
    pub activations: Seq<Activation>,
}

/// The mathematical view of an [`App`].
pub struct AppModel {
    pub running: bool,
    pub tile_order: Seq<Window>,
    pub focused_surface: Option<u64>,
    pub layout_dirty: bool,
}

impl View for FocusChange {
    type V = FocusChangeModel;

    open spec fn view(&self) -> FocusChangeModel {
        FocusChangeModel { target: self.target, activations: self.activations@ }
    }
}

impl View for App {
    type V = AppModel;

    open spec fn view(&self) -> AppModel {
        AppModel {
            running: self.running,
            tile_order: self.tile_order@,
            focused_surface: self.focused_surface,
            layout_dirty: self.layout_dirty,
        }
    }
}

/// The views inside an optional focus change.
pub open spec fn change_view(change: Option<FocusChange>) -> Option<FocusChangeModel> {
    match change {
        Some(inner) => Some(inner@),
        None => None,
    }
}

/// The surface that gets the focus with `window`.
pub open spec fn surface_of(window: Option<Window>) -> Option<u64> {
    match window {
        Some(inner) => inner.surface,
        None => None,
    }
}

/// Window `i` is the first of `order` that shows `surface`.
pub open spec fn first_with_surface(order: Seq<Window>, surface: u64, i: int) -> bool {
    &&& 0 <= i < order.len()
    &&& order[i].surface == Some(surface)
    &&& forall|j: int| 0 <= j < i ==> (#[trigger] order[j]).surface != Some(surface)
}

/// The position in `order` of the first window that shows `surface`.
pub open spec fn surface_index(order: Seq<Window>, surface: u64) -> Option<int> {
    if exists|i: int| first_with_surface(order, surface, i) {
        Some(choose|i: int| first_with_surface(order, surface, i))
    } else {
        None
    }
}

/// Some window of `order` shows `surface`.
pub open spec fn shows(order: Seq<Window>, surface: u64) -> bool {
    exists|i: int| 0 <= i < order.len() && (#[trigger] order[i]).surface == Some(surface)
}

/// No surface is shown by two windows of `order`.
pub open spec fn distinct_surfaces(order: Seq<Window>) -> bool {
    forall|i: int, j: int|
        0 <= i < j < order.len() && (#[trigger] order[i]).surface is Some ==> order[i].surface != (
        #[trigger] order[j]).surface
}

/// `part` holds the windows at `positions` of `whole`, from front to back.
pub open spec fn picks(part: Seq<Window>, whole: Seq<Window>, positions: Seq<int>) -> bool {
    &&& positions.len() == part.len()
    &&& forall|i: int|
        0 <= i < part.len() ==> 0 <= #[trigger] positions[i] < whole.len() && part[i]
            == whole[positions[i]]
    &&& forall|i: int, j: int|
        0 <= i < j < part.len() ==> #[trigger] positions[i] < #[trigger] positions[j]
}

/// `part` holds some of the windows of `whole`, in the same order.
pub open spec fn in_same_order(part: Seq<Window>, whole: Seq<Window>) -> bool {
    exists|positions: Seq<int>| picks(part, whole, positions)
}

/// Keeps the windows that do not show `surface`.
pub open spec fn keeps_others(surface: u64) -> spec_fn(Window) -> Option<Window> {
    |window: Window|
        if window.surface != Some(surface) {
            Some(window)
        } else {
            None
        }
}

/// What a window's toplevel, if it has one, is told when the focus goes to `target`.
pub open spec fn told(target: Option<u64>) -> spec_fn(Window) -> Option<Activation> {
    |window: Window|
        match window.surface {
            Some(surface) => Some(
                Activation { surface, active: Some(surface) == target },
            ),
            None => None,
        }
}

/// Those that are told to be active are those that show `target`.
pub open spec fn only_active(activations: Seq<Activation>, target: Option<u64>) -> bool {
    forall|k: int|
        0 <= k < activations.len() ==> ((#[trigger] activations[k]).active <==> Some(
            activations[k].surface,
        ) == target)
}

/// Every toplevel of `elements` is told whether it shows `target`.
pub open spec fn all_told(
    activations: Seq<Activation>,
    elements: Seq<Window>,
    target: Option<u64>,
) -> bool {
    forall|i: int|
        0 <= i < elements.len() ==> ((#[trigger] elements[i]).surface matches Some(surface)
            ==> activations.contains(Activation { surface, active: Some(surface) == target }))
}

/// What moving the focus from `focused` to `target` takes while `elements` are on screen:
/// nothing where it is there already.
pub open spec fn focus_change(
    focused: Option<u64>,
    target: Option<u64>,
    elements: Seq<Window>,
) -> Option<FocusChangeModel> {
    if focused == target {
        None
    } else {
        Some(FocusChangeModel { target, activations: elements.filter_map(told(target)) })
    }
}

impl AppModel {
    /// The focus is on `target`.
    pub open spec fn focus(self, target: Option<u64>) -> AppModel {
        AppModel { focused_surface: target, ..self }
    }

    /// `window` has opened: it is tiled last, has the focus where there is a keyboard, and the
    /// layout has to be renewed.
    pub open spec fn opened(self, window: Window, has_keyboard: bool) -> AppModel {
        AppModel {
            tile_order: self.tile_order.push(window),
            focused_surface: if has_keyboard {
                window.surface
            } else {
                self.focused_surface
            },
            layout_dirty: true,
            ..self
        }
    }

    /// The toplevel of `surface` is gone: no window shows it, it has not the focus, and the
    /// layout has to be renewed.
    pub open spec fn closed(self, surface: u64) -> AppModel {
        AppModel {
            tile_order: self.tile_order.filter_map(keeps_others(surface)),
            focused_surface: if self.focused_surface == Some(surface) {
                None
            } else {
                self.focused_surface
            },
            layout_dirty: true,
            ..self
        }
    }

    /// The position of the window that has the focus.
    pub open spec fn focused_index(self) -> Option<int> {
        match self.focused_surface {
            Some(surface) => surface_index(self.tile_order, surface),
            None => None,
        }
    }

    /// The focus, where there is one, is on a window of the tiling order.
    pub open spec fn focus_is_tiled(self) -> bool {
        self.focused_surface matches Some(surface) ==> shows(self.tile_order, surface)
    }
}

/// There is at most one first window with a surface, so [`surface_index`] is its position.
pub proof fn lemma_surface_index(order: Seq<Window>, surface: u64, i: int)
    requires
        first_with_surface(order, surface, i),
    ensures
        surface_index(order, surface) == Some(i),
{
    let other = choose|other: int| first_with_surface(order, surface, other);
    assert(!(other < i) && !(i < other));
}

/// Finds the position in `order` of the first window that shows `surface`.
pub(crate) fn position_of_surface(order: &Vec<Window>, surface: u64) -> (position: Option<usize>)
    ensures
        (match position {
            Some(i) => surface_index(order@, surface) == Some(i as int) && first_with_surface(
                order@,
                surface,
                i as int,
            ),
            None => surface_index(order@, surface) is None && forall|i: int|
                0 <= i < order@.len() ==> (#[trigger] order@[i]).surface != Some(surface),
        }),
{
    let mut index: usize = 0;
    while index < order.len()
        invariant
            index <= order@.len(),
            forall|j: int| 0 <= j < index ==> (#[trigger] order@[j]).surface != Some(surface),
        decreases order@.len() - index,
    {
        if let Some(shown) = order[index].surface {
            if shown == surface {
                proof {
                    lemma_surface_index(order@, surface, index as int);
                }
                return Some(index);
            }
        }
        index = index + 1;
    }
    None
}

impl App {
    /// The record of a compositor that has just started.
    pub fn new() -> (app: App)
        ensures
            app@ == (AppModel {
                running: true,
                tile_order: Seq::empty(),
                focused_surface: None,
                layout_dirty: false,
            }),
    {
        App { running: true, tile_order: Vec::new(), focused_surface: None, layout_dirty: false }
    }

    /// Moves the keyboard focus to `window`, or away from all windows.
    ///
    /// `elements` are the windows on screen, in the order in which they are told about the
    /// change. The result says what has to be done; it is `None` where the focus does not move.
    pub fn focus_window(&mut self, window: Option<Window>, elements: &Vec<Window>) -> (change:
        Option<FocusChange>)
        ensures
            final(self)@ == old(self)@.focus(surface_of(window)),
            change_view(change) == focus_change(
                old(self)@.focused_surface,
                surface_of(window),
                elements@,
            ),
            window matches Some(inner) ==> final(self).focused_surface == inner.surface,
            window is None ==> final(self).focused_surface is None,
            final(self).tile_order@ == old(self).tile_order@,
            final(self).layout_dirty == old(self).layout_dirty,
            final(self).running == old(self).running,
            change is None <==> final(self).focused_surface == old(self).focused_surface,
            change matches Some(done) ==> done.target == final(self).focused_surface,
            change matches Some(done) ==> forall|k: int|
                0 <= k < done.activations@.len() ==> ((
                #[trigger] done.activations@[k]).active <==> final(self).focused_surface == Some(
                    done.activations@[k].surface,
                )),
            change matches Some(done) ==> forall|i: int|
                0 <= i < elements@.len() ==> ((#[trigger] elements@[i]).surface matches Some(
                    surface,
                ) ==> exists|k: int|
                    0 <= k < done.activations@.len() && (
                    #[trigger] done.activations@[k]).surface == surface),
    {
        let target: Option<u64> = match window {
            Some(inner) => inner.surface,
            None => None,
        };
        if self.focused_surface == target {
            return None;
        }
        self.focused_surface = target;
        let mut activations: Vec<Activation> = Vec::new();
        let mut index: usize = 0;
        assert(elements@.take(0).filter_map(told(target)) =~= Seq::empty());
        while index < elements.len()
            invariant
                index <= elements@.len(),
                activations@ == elements@.take(index as int).filter_map(told(target)),
            decreases elements@.len() - index,
        {
            proof {
                elements@.lemma_filter_map_take_succ(told(target), index as int);
            }
            if let Some(surface) = elements[index].surface {
                let active: bool = match target {
                    Some(focused) => surface == focused,
                    None => false,
                };
                activations.push(Activation { surface, active });
            }
            index = index + 1;
        }
        assert(elements@.take(elements@.len() as int) =~= elements@);
        proof {
            law_only_target_is_active(old(self)@.focused_surface, target, elements@);
            assert forall|i: int| 0 <= i < elements@.len() implies ((
            #[trigger] elements@[i]).surface matches Some(surface) ==> exists|k: int|
                0 <= k < activations@.len() && (#[trigger] activations@[k]).surface == surface) by {
                if let Some(surface) = elements@[i].surface {
                    assert(activations@.contains(
                        Activation { surface, active: Some(surface) == target },
                    ));
                }
            }
        }
        Some(FocusChange { target, activations })
    }

    /// Records that a toplevel has opened in `window`.
    ///
    /// `elements` are the windows on screen, `window` among them. Where there is a keyboard the
    /// window gets the focus, and the result says what that takes.
    pub fn new_toplevel(
        &mut self,
        window: Window,
        has_keyboard: bool,
        elements: &Vec<Window>,
    ) -> (change: Option<FocusChange>)
        ensures
            final(self)@ == old(self)@.opened(window, has_keyboard),
            change_view(change) == (if has_keyboard {
                focus_change(old(self)@.focused_surface, window.surface, elements@)
            } else {
                None
            }),
            final(self).tile_order@ == old(self).tile_order@.push(window),
            final(self).layout_dirty,
            final(self).running == old(self).running,
            has_keyboard ==> final(self).focused_surface == window.surface,
            !has_keyboard ==> final(self).focused_surface == old(self).focused_surface,
            change is None <==> final(self).focused_surface == old(self).focused_surface,
            change matches Some(done) ==> done.target == window.surface,
            change matches Some(done) ==> forall|k: int|
                0 <= k < done.activations@.len() ==> ((
                #[trigger] done.activations@[k]).active <==> window.surface == Some(
                    done.activations@[k].surface,
                )),
            change matches Some(done) ==> forall|i: int|
                0 <= i < elements@.len() ==> ((#[trigger] elements@[i]).surface matches Some(
                    surface,
                ) ==> exists|k: int|
                    0 <= k < done.activations@.len() && (
                    #[trigger] done.activations@[k]).surface == surface),
    {
        self.tile_order.push(window);
        let change: Option<FocusChange> = if has_keyboard {
            self.focus_window(Some(window), elements)
        } else {
            None
        };
        self.layout_dirty = true;
        change
    }

    /// Records that the toplevel of `surface` is gone. The result is the window that showed it
    /// and has to leave the screen.
    pub fn toplevel_destroyed(&mut self, surface: u64) -> (gone: Option<Window>)
        ensures
            final(self)@ == old(self)@.closed(surface),
            gone == (match surface_index(old(self)@.tile_order, surface) {
                Some(i) => Some(old(self)@.tile_order[i]),
                None => None,
            }),
            final(self).layout_dirty,
            final(self).running == old(self).running,
            old(self).focused_surface == Some(surface) ==> final(self).focused_surface is None,
            old(self).focused_surface != Some(surface) ==> final(self).focused_surface == old(
                self,
            ).focused_surface,
            gone matches Some(window) ==> exists|i: int|
                0 <= i < old(self).tile_order@.len() && (#[trigger] old(self).tile_order@[i])
                    == window && window.surface == Some(surface) && forall|j: int|
                    0 <= j < i ==> (#[trigger] old(self).tile_order@[j]).surface != Some(surface),
            gone is None ==> final(self).tile_order@ == old(self).tile_order@,
            gone is None ==> forall|i: int|
                0 <= i < old(self).tile_order@.len() ==> (
                #[trigger] old(self).tile_order@[i]).surface != Some(surface),
    {
        let gone: Option<Window> = match position_of_surface(&self.tile_order, surface) {
            Some(index) => Some(self.tile_order[index]),
            None => None,
        };
        let kept: Vec<Window> = without_surface(&self.tile_order, surface);
        proof {
            if gone is None {
                lemma_nothing_to_drop(self.tile_order@, surface);
            }
        }
        self.tile_order = kept;
        if let Some(focused) = self.focused_surface {
            if focused == surface {
                self.focused_surface = None;
            }
        }
        self.layout_dirty = true;
        gone
    }
}

/// The windows of `order` that do not show `surface`, in their order.
fn without_surface(order: &Vec<Window>, surface: u64) -> (kept: Vec<Window>)
    ensures
        kept@ == order@.filter_map(keeps_others(surface)),
{
    let mut kept: Vec<Window> = Vec::new();
    let mut index: usize = 0;
    assert(order@.take(0).filter_map(keeps_others(surface)) =~= Seq::empty());
    while index < order.len()
        invariant
            index <= order@.len(),
            kept@ == order@.take(index as int).filter_map(keeps_others(surface)),
        decreases order@.len() - index,
    {
        proof {
            order@.lemma_filter_map_take_succ(keeps_others(surface), index as int);
        }
        let window: Window = order[index];
        if window.surface != Some(surface) {
            kept.push(window);
        }
        index = index + 1;
    }
    assert(order@.take(order@.len() as int) =~= order@);
    kept
}

/// Dropping some items, and reading each that is left as the window at its place in `whole`,
/// leaves windows of `whole` in their order.
pub(crate) proof fn lemma_kept_in_order<A>(
    items: Seq<A>,
    keep: spec_fn(A) -> Option<Window>,
    whole: Seq<Window>,
)
    requires
        items.len() == whole.len(),
        forall|i: int|
            0 <= i < items.len() ==> (keep(#[trigger] items[i]) matches Some(window) ==> window
                == whole[i]),
    ensures
        in_same_order(items.filter_map(keep), whole),
    decreases items.len(),
{
    if items.len() == 0 {
        assert(picks(items.filter_map(keep), whole, Seq::empty()));
    } else {
        let rest = items.drop_last();
        assert forall|i: int| 0 <= i < rest.len() implies (keep(#[trigger] rest[i]) matches Some(
            window,
        ) ==> window == whole.drop_last()[i]) by {
            assert(rest[i] == items[i]);
        }
        lemma_kept_in_order(rest, keep, whole.drop_last());
        let positions = choose|positions: Seq<int>|
            picks(rest.filter_map(keep), whole.drop_last(), positions);
        let kept = rest.filter_map(keep);
        assert forall|i: int| 0 <= i < kept.len() implies 0 <= #[trigger] positions[i]
            < whole.len() && kept[i] == whole[positions[i]] by {}
        let last = items[items.len() - 1];
        if keep(last) is Some {
            assert(picks(items.filter_map(keep), whole, positions.push(whole.len() - 1)));
        } else {
            assert(picks(items.filter_map(keep), whole, positions));
        }
    }
}

/// Windows that stay in their order do not come to share a surface.
pub(crate) proof fn lemma_kept_stay_distinct(part: Seq<Window>, whole: Seq<Window>)
    requires
        in_same_order(part, whole),
        distinct_surfaces(whole),
    ensures
        distinct_surfaces(part),
{
    let positions = choose|positions: Seq<int>| picks(part, whole, positions);
    assert forall|i: int, j: int|
        0 <= i < j < part.len() && (#[trigger] part[i]).surface is Some implies part[i].surface != (
    #[trigger] part[j]).surface by {
        assert(positions[i] < positions[j]);
    }
}

/// An item that is kept is in the result.
pub(crate) proof fn lemma_kept_item<A, B>(items: Seq<A>, keep: spec_fn(A) -> Option<B>, i: int)
    requires
        0 <= i < items.len(),
        keep(items[i]) is Some,
    ensures
        items.filter_map(keep).contains(keep(items[i])->0),
    decreases items.len(),
{
    let kept = items.filter_map(keep);
    let rest = items.drop_last();
    if i == items.len() - 1 {
        assert(kept[kept.len() - 1] == keep(items[i])->0);
    } else {
        assert(rest[i] == items[i]);
        lemma_kept_item(rest, keep, i);
        let k = choose|k: int|
            0 <= k < rest.filter_map(keep).len() && rest.filter_map(keep)[k] == keep(items[i])->0;
        assert(kept[k] == keep(items[i])->0);
    }
}

/// The views hold what the records hold, field by field.
pub proof fn law_views_hold_the_records(app: App, change: FocusChange)
    ensures
        app@.running == app.running,
        app@.tile_order == app.tile_order@,
        app@.focused_surface == app.focused_surface,
        app@.layout_dirty == app.layout_dirty,
        change_view(Some(change)) matches Some(view) && view.target == change.target
            && view.activations == change.activations@,
        change_view(None) is None,
{
}

/// Nothing has to be done exactly where the focus is on its target already. Else the keyboard goes
/// to the target, and with each window that comes on screen one more toplevel is told, the last of
/// all: its own, and that it is active exactly when it is the target. A window without a toplevel
/// adds nothing, and an empty screen has nobody to tell.
pub proof fn law_each_window_adds_what_it_is_told(
    focused: Option<u64>,
    target: Option<u64>,
    elements: Seq<Window>,
    window: Window,
)
    ensures
        focus_change(focused, target, elements) is None <==> focused == target,
        focused != target ==> {
            let before = focus_change(focused, target, elements)->0;
            let after = focus_change(focused, target, elements.push(window))->0;
            let nobody = focus_change(focused, target, Seq::empty())->0;
            &&& before.target == target
            &&& nobody.activations.len() == 0
            &&& window.surface is None ==> after.activations == before.activations
            &&& window.surface matches Some(surface) ==> after.activations.len()
                == before.activations.len() + 1 && after.activations.drop_last()
                == before.activations && after.activations.last().surface == surface && (
            after.activations.last().active <==> target == window.surface)
        },
{
    let all = elements.push(window);
    assert(all.drop_last() =~= elements);
    assert(all.last() == window);
    let before = elements.filter_map(told(target));
    let after = all.filter_map(told(target));
    if window.surface is Some {
        assert(after.drop_last() =~= before);
    }
}

/// A window that opens is added behind all others, which keep their places. It takes the focus
/// where there is a keyboard, and leaves it where it was where there is none.
pub proof fn law_open_adds_behind(app: AppModel, window: Window, has_keyboard: bool, i: int)
    ensures
        app.opened(window, has_keyboard).tile_order.len() == app.tile_order.len() + 1,
        app.opened(window, has_keyboard).tile_order[app.tile_order.len() as int] == window,
        0 <= i < app.tile_order.len() ==> app.opened(window, has_keyboard).tile_order[i]
            == app.tile_order[i],
        has_keyboard ==> app.opened(window, has_keyboard).focused_surface == window.surface,
        !has_keyboard ==> app.opened(window, has_keyboard).focused_surface == app.focused_surface,
        app.opened(window, has_keyboard).layout_dirty,
        app.opened(window, has_keyboard).running == app.running,
{
}

/// Closing a surface treats each window on its own: one more window at the end of the order stays
/// at the end exactly when it does not show the surface, and makes no difference to the others.
/// The focus is lost only by the surface that closes.
pub proof fn law_close_treats_each_window_alone(app: AppModel, surface: u64, window: Window)
    ensures
        (AppModel { tile_order: app.tile_order.push(window), ..app }).closed(surface).tile_order
            == (if window.surface == Some(surface) {
            app.closed(surface).tile_order
        } else {
            app.closed(surface).tile_order.push(window)
        }),
        (AppModel { tile_order: Seq::empty(), ..app }).closed(surface).tile_order.len() == 0,
        app.focused_surface == Some(surface) ==> app.closed(surface).focused_surface is None,
        app.focused_surface != Some(surface) ==> app.closed(surface).focused_surface
            == app.focused_surface,
        app.closed(surface).layout_dirty,
        app.closed(surface).running == app.running,
{
    let all = app.tile_order.push(window);
    assert(all.drop_last() =~= app.tile_order);
    assert(all.last() == window);
    assert(all.filter_map(keeps_others(surface)) =~= if window.surface == Some(surface) {
        app.closed(surface).tile_order
    } else {
        app.closed(surface).tile_order.push(window)
    });
}

/// The window that has the focus is the first of the order that shows the focused surface; there is
/// one exactly when some window does.
pub proof fn law_focused_window_is_the_first(app: AppModel, surface: u64, i: int)
    requires
        app.focused_surface == Some(surface),
    ensures
        app.focused_index() == Some(i) <==> 0 <= i < app.tile_order.len()
            && app.tile_order[i].surface == Some(surface) && forall|j: int|
            0 <= j < i ==> (#[trigger] app.tile_order[j]).surface != Some(surface),
        app.focused_index() is None <==> forall|j: int|
            0 <= j < app.tile_order.len() ==> (#[trigger] app.tile_order[j]).surface != Some(
                surface,
            ),
        (AppModel { focused_surface: None, ..app }).focused_index() is None,
{
    let order = app.tile_order;
    if first_with_surface(order, surface, i) {
        lemma_surface_index(order, surface, i);
    }
    if exists|k: int| 0 <= k < order.len() && (#[trigger] order[k]).surface == Some(surface) {
        let k = choose|k: int|
            0 <= k < order.len() && (#[trigger] order[k]).surface == Some(surface);
        lemma_first_exists(order, surface, k);
    }
}

/// Where some window shows a surface, one is the first to.
proof fn lemma_first_exists(order: Seq<Window>, surface: u64, k: int)
    requires
        0 <= k < order.len(),
        order[k].surface == Some(surface),
    ensures
        exists|i: int| first_with_surface(order, surface, i),
    decreases k,
{
    if exists|j: int| 0 <= j < k && (#[trigger] order[j]).surface == Some(surface) {
        let j = choose|j: int| 0 <= j < k && (#[trigger] order[j]).surface == Some(surface);
        lemma_first_exists(order, surface, j);
    } else {
        assert(first_with_surface(order, surface, k));
    }
}

/// Moving the focus changes nothing else: neither the tiling order nor whether the layout has to be
/// renewed. Focus never rearranges the tiles.
pub proof fn law_focus_keeps_layout(app: AppModel, target: Option<u64>)
    ensures
        app.focus(target).focused_surface == target,
        app.focus(target).tile_order == app.tile_order,
        app.focus(target).layout_dirty == app.layout_dirty,
        app.focus(target).running == app.running,
{
}

/// Focusing the window that has the focus does nothing.
pub proof fn law_focus_settles(app: AppModel, target: Option<u64>, elements: Seq<Window>)
    ensures
        focus_change(app.focus(target).focused_surface, target, elements) is None,
        app.focus(target).focus(target) == app.focus(target),
{
}

/// When the focus moves, every toplevel on screen is told, and it is told to be active exactly
/// when it is the one that gets the focus.
pub proof fn law_only_target_is_active(
    focused: Option<u64>,
    target: Option<u64>,
    elements: Seq<Window>,
)
    requires
        focused != target,
    ensures
        focus_change(focused, target, elements) matches Some(change) && change.target == target
            && only_active(change.activations, target) && all_told(
            change.activations,
            elements,
            target,
        ),
{
    let activations = elements.filter_map(told(target));
    assert forall|k: int| 0 <= k < activations.len() implies ((#[trigger] activations[k]).active
        <==> Some(activations[k].surface) == target) by {
        assert(activations.contains(activations[k]));
        elements.lemma_filter_map_contains(told(target), activations[k]);
    }
    assert forall|i: int| 0 <= i < elements.len() implies ((#[trigger] elements[i]).surface matches Some(
        surface,
    ) ==> activations.contains(Activation { surface, active: Some(surface) == target })) by {
        if elements[i].surface is Some {
            lemma_kept_item(elements, told(target), i);
        }
    }
}

/// A surface that is gone is shown by no window and has not the focus. All other windows stay, in
/// their order.
pub proof fn law_closed_surface_is_gone(app: AppModel, surface: u64)
    ensures
        !shows(app.closed(surface).tile_order, surface),
        app.closed(surface).focused_surface != Some(surface),
        in_same_order(app.closed(surface).tile_order, app.tile_order),
        forall|i: int|
            0 <= i < app.tile_order.len() && (#[trigger] app.tile_order[i]).surface != Some(surface)
                ==> app.closed(surface).tile_order.contains(app.tile_order[i]),
        app.closed(surface).closed(surface) == app.closed(surface),
{
    let order = app.tile_order;
    let kept = order.filter_map(keeps_others(surface));
    lemma_kept_in_order(order, keeps_others(surface), order);
    assert forall|i: int| 0 <= i < kept.len() implies (#[trigger] kept[i]).surface != Some(
        surface,
    ) by {
        assert(kept.contains(kept[i]));
        order.lemma_filter_map_contains(keeps_others(surface), kept[i]);
    }
    assert forall|i: int|
        0 <= i < order.len() && (#[trigger] order[i]).surface != Some(
            surface,
        ) implies kept.contains(order[i]) by {
        lemma_kept_item(order, keeps_others(surface), i);
    }
    lemma_nothing_to_drop(kept, surface);
}

/// Where no window shows a surface, taking it out changes nothing.
proof fn lemma_nothing_to_drop(order: Seq<Window>, surface: u64)
    requires
        !shows(order, surface),
    ensures
        order.filter_map(keeps_others(surface)) == order,
    decreases order.len(),
{
    if order.len() > 0 {
        let rest = order.drop_last();
        assert forall|i: int| 0 <= i < rest.len() implies (#[trigger] rest[i]).surface != Some(
            surface,
        ) by {
            assert(rest[i] == order[i]);
        }
        lemma_nothing_to_drop(rest, surface);
        assert(order[order.len() - 1].surface != Some(surface));
        assert(order.filter_map(keeps_others(surface)) =~= order);
    } else {
        assert(order.filter_map(keeps_others(surface)) =~= order);
    }
}

/// Closing a window that has just opened leaves the tiling order as it was before.
pub proof fn law_close_undoes_open(app: AppModel, window: Window, surface: u64, has_keyboard: bool)
    requires
        window.surface == Some(surface),
        !shows(app.tile_order, surface),
    ensures
        app.opened(window, has_keyboard).closed(surface).tile_order == app.tile_order,
{
    let order = app.tile_order.push(window);
    assert(order.drop_last() =~= app.tile_order);
    lemma_nothing_to_drop(app.tile_order, surface);
}

/// As long as every toplevel opens on a surface of its own, no surface is ever shown by two
/// windows: opening and closing windows and moving the focus keep it so.
pub proof fn law_surfaces_stay_distinct(
    app: AppModel,
    window: Window,
    has_keyboard: bool,
    surface: u64,
    target: Option<u64>,
)
    requires
        distinct_surfaces(app.tile_order),
    ensures
        (window.surface matches Some(own) ==> !shows(app.tile_order, own)) ==> distinct_surfaces(
            app.opened(window, has_keyboard).tile_order,
        ),
        distinct_surfaces(app.closed(surface).tile_order),
        distinct_surfaces(app.focus(target).tile_order),
{
    lemma_kept_in_order(app.tile_order, keeps_others(surface), app.tile_order);
    lemma_kept_stay_distinct(app.closed(surface).tile_order, app.tile_order);
}

/// The focus stays on a tiled window: opening and closing windows keep it so, and so does moving
/// the focus to a tiled window or away from all.
pub proof fn law_focus_stays_tiled(
    app: AppModel,
    window: Window,
    has_keyboard: bool,
    surface: u64,
    target: Option<u64>,
)
    requires
        app.focus_is_tiled(),
    ensures
        app.opened(window, has_keyboard).focus_is_tiled(),
        app.closed(surface).focus_is_tiled(),
        (target matches Some(own) ==> shows(app.tile_order, own)) ==> app.focus(
            target,
        ).focus_is_tiled(),
{
    let opened = app.opened(window, has_keyboard);
    if opened.focused_surface is Some {
        if has_keyboard {
            assert(opened.tile_order[app.tile_order.len() as int] == window);
        } else {
            let focused = app.focused_surface->0;
            let i = choose|i: int|
                0 <= i < app.tile_order.len() && (#[trigger] app.tile_order[i]).surface == Some(
                    focused,
                );
            assert(opened.tile_order[i] == app.tile_order[i]);
        }
    }
    let closed = app.closed(surface);
    if closed.focused_surface is Some {
        let focused = app.focused_surface->0;
        let i = choose|i: int|
            0 <= i < app.tile_order.len() && (#[trigger] app.tile_order[i]).surface == Some(
                focused,
            );
        law_closed_surface_is_gone(app, surface);
        assert(closed.tile_order.contains(app.tile_order[i]));
    }
}

} // verus!
