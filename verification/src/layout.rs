//! The dwindle layout.
//!
//! The first window takes the left half of the screen, the second the upper half of what is
//! left, the third the left half of what is then left, and so on; the last window takes all
//! that remains.
use vstd::prelude::*;

use crate::geometry::{Point, Rect, Rectangle, Size};

verus! {

/// The part of `area` that a window keeps when it shares `area` with later windows: the left
/// half where `split_vertically`, else the upper half. An odd pixel goes to the later windows.
pub open spec fn first_part(area: Rect, split_vertically: bool) -> Rect {
    if split_vertically {
        Rect { w: area.w / 2, ..area }
    } else {
        Rect { h: area.h / 2, ..area }
    }
}

/// The part of `area` that is left for the later windows.
pub open spec fn rest_part(area: Rect, split_vertically: bool) -> Rect {
    if split_vertically {
        Rect { x: area.x + area.w / 2, w: area.w - area.w / 2, ..area }
    } else {
        Rect { y: area.y + area.h / 2, h: area.h - area.h / 2, ..area }
    }
}

/// Whether the split at `depth` is a left/right one: the first is, then the axis alternates.
pub open spec fn splits_vertically(depth: int) -> bool {
    depth % 2 == 0
}

/// What is left of `bounds` after the first `depth` windows have taken their parts.
pub open spec fn remainder(bounds: Rect, depth: nat) -> Rect
    decreases depth,
{
    if depth == 0 {
        bounds
    } else {
        rest_part(remainder(bounds, (depth - 1) as nat), splits_vertically(depth - 1))
    }
}

/// The tile of window `i` of `count`.
pub open spec fn tile(count: nat, bounds: Rect, i: int) -> Rect {
    if i == count - 1 {
        remainder(bounds, i as nat)
    } else {
        first_part(remainder(bounds, i as nat), splits_vertically(i))
    }
}

/// The tiles of `count` windows on `bounds`, in window order.
pub open spec fn dwindle(count: nat, bounds: Rect) -> Seq<Rect> {
    Seq::new(count, |i: int| tile(count, bounds, i))
}

/// Every tile's corner is a position that a [`Point`] can hold.
pub open spec fn corners_fit(count: nat, bounds: Rect) -> bool {
    forall|i: int|
        0 <= i < count ==> i32::MIN <= (#[trigger] tile(count, bounds, i)).x <= i32::MAX
            && i32::MIN <= tile(count, bounds, i).y <= i32::MAX
}

/// `bounds` can be split among `count` windows: it has no negative side, and either its far edges
/// or at least all corners that come up are positions that a [`Point`] can hold.
pub open spec fn can_split(count: nat, bounds: Rect) -> bool {
    &&& bounds.wf()
    &&& (bounds.x + bounds.w <= i32::MAX && bounds.y + bounds.h <= i32::MAX) || corners_fit(
        count,
        bounds,
    )
}

/// The mathematical views of a list of rectangles.
pub open spec fn rects(rectangles: Seq<Rectangle>) -> Seq<Rect> {
    rectangles.map_values(|rectangle: Rectangle| rectangle@)
}

/// The tiles of `count` windows on `bounds`, in window order.
///
/// Two or more windows split `bounds`, which then has to allow it.
pub fn dwindle_rectangles(count: usize, bounds: Rectangle) -> (rectangles: Vec<Rectangle>)
    requires
        count >= 2 ==> can_split(count as nat, bounds@),
    ensures
        rectangles@.len() == count,
        rects(rectangles@) == dwindle(count as nat, bounds@),
        count >= 1 ==> rectangles@[0].loc == bounds.loc,
        count == 1 ==> rectangles@[0] == bounds,
        count >= 1 ==> rectangles@[count - 1].loc.x + rectangles@[count - 1].size.w
            == bounds.loc.x + bounds.size.w,
        count >= 1 ==> rectangles@[count - 1].loc.y + rectangles@[count - 1].size.h
            == bounds.loc.y + bounds.size.h,
        forall|i: int|
            0 <= i < count - 1 && i % 2 == 0 ==> (#[trigger] rectangles@[i]).size.w == (
            bounds.loc.x + bounds.size.w - rectangles@[i].loc.x) / 2 && rectangles@[i].loc.y
                + rectangles@[i].size.h == bounds.loc.y + bounds.size.h,
        forall|i: int|
            0 <= i < count - 1 && i % 2 == 1 ==> (#[trigger] rectangles@[i]).size.h == (
            bounds.loc.y + bounds.size.h - rectangles@[i].loc.y) / 2 && rectangles@[i].loc.x
                + rectangles@[i].size.w == bounds.loc.x + bounds.size.w,
        forall|i: int, k: int|
            0 <= i < count - 1 && i % 2 == 0 && k == i + 1 ==> (#[trigger] rectangles@[k]).loc.x
                == (#[trigger] rectangles@[i]).loc.x + rectangles@[i].size.w
                && rectangles@[k].loc.y == rectangles@[i].loc.y,
        forall|i: int, k: int|
            0 <= i < count - 1 && i % 2 == 1 && k == i + 1 ==> (#[trigger] rectangles@[k]).loc.y
                == (#[trigger] rectangles@[i]).loc.y + rectangles@[i].size.h
                && rectangles@[k].loc.x == rectangles@[i].loc.x,
{
    proof {
        if count >= 2 && !corners_fit(count as nat, bounds@) {
            law_screens_fit(count as nat, bounds@);
        }
    }
    let mut rectangles: Vec<Rectangle> = Vec::new();
    let mut rest: Rectangle = bounds;
    let mut index: usize = 0;
    while index < count
        invariant
            index <= count,
            count >= 2 ==> bounds@.wf() && corners_fit(count as nat, bounds@),
            index < count ==> rest@ == remainder(bounds@, index as nat),
            rectangles@.len() == index,
            forall|j: int|
                0 <= j < index ==> (#[trigger] rectangles@[j])@ == tile(count as nat, bounds@, j),
        decreases count - index,
    {
        if count - index == 1 {
            rectangles.push(rest);
        } else {
            proof {
                lemma_remainder(bounds@, index as nat);
                lemma_remainder(bounds@, (index + 1) as nat);
                assert(tile(count as nat, bounds@, index + 1).x == remainder(
                    bounds@,
                    (index + 1) as nat,
                ).x);
                assert(tile(count as nat, bounds@, index + 1).y == remainder(
                    bounds@,
                    (index + 1) as nat,
                ).y);
            }
            if index % 2 == 0 {
                let first_width: i32 = rest.size.w / 2;
                rectangles.push(
                    Rectangle { loc: rest.loc, size: Size { w: first_width, h: rest.size.h } },
                );
                rest = Rectangle {
                    loc: Point { x: rest.loc.x + first_width, y: rest.loc.y },
                    size: Size { w: rest.size.w - first_width, h: rest.size.h },
                };
            } else {
                let first_height: i32 = rest.size.h / 2;
                rectangles.push(
                    Rectangle { loc: rest.loc, size: Size { w: rest.size.w, h: first_height } },
                );
                rest = Rectangle {
                    loc: Point { x: rest.loc.x, y: rest.loc.y + first_height },
                    size: Size { w: rest.size.w, h: rest.size.h - first_height },
                };
            }
        }
        index = index + 1;
    }
    assert(rects(rectangles@) =~= dwindle(count as nat, bounds@));
    proof {
        if count > 0 {
            law_tile_reaches_edges(count as nat, bounds@, 0);
            law_tile_reaches_edges(count as nat, bounds@, count - 1);
        }
        assert forall|i: int| 0 <= i < count - 1 && i % 2 == 0 implies (
        #[trigger] rectangles@[i]).size.w == (bounds.loc.x + bounds.size.w - rectangles@[i].loc.x)
            / 2 && rectangles@[i].loc.y + rectangles@[i].size.h == bounds.loc.y + bounds.size.h by {
            law_tile_reaches_edges(count as nat, bounds@, i);
        }
        assert forall|i: int| 0 <= i < count - 1 && i % 2 == 1 implies (
        #[trigger] rectangles@[i]).size.h == (bounds.loc.y + bounds.size.h - rectangles@[i].loc.y)
            / 2 && rectangles@[i].loc.x + rectangles@[i].size.w == bounds.loc.x + bounds.size.w by {
            law_tile_reaches_edges(count as nat, bounds@, i);
        }
        assert forall|i: int, k: int| 0 <= i < count - 1 && i % 2 == 0 && k == i + 1 implies (
        #[trigger] rectangles@[k]).loc.x == (#[trigger] rectangles@[i]).loc.x
            + rectangles@[i].size.w && rectangles@[k].loc.y == rectangles@[i].loc.y by {
            law_next_tile_starts_at_the_split(count as nat, bounds@, i);
        }
        assert forall|i: int, k: int| 0 <= i < count - 1 && i % 2 == 1 && k == i + 1 implies (
        #[trigger] rectangles@[k]).loc.y == (#[trigger] rectangles@[i]).loc.y
            + rectangles@[i].size.h && rectangles@[k].loc.x == rectangles@[i].loc.x by {
            law_next_tile_starts_at_the_split(count as nat, bounds@, i);
        }
    }
    rectangles
}

/// What is left of `bounds` lies within `bounds` and has no negative side.
pub(crate) proof fn lemma_remainder(bounds: Rect, depth: nat)
    requires
        bounds.wf(),
    ensures
        remainder(bounds, depth).wf(),
        bounds.x <= remainder(bounds, depth).x,
        bounds.y <= remainder(bounds, depth).y,
        remainder(bounds, depth).x + remainder(bounds, depth).w == bounds.x + bounds.w,
        remainder(bounds, depth).y + remainder(bounds, depth).h == bounds.y + bounds.h,
    decreases depth,
{
    if depth > 0 {
        lemma_remainder(bounds, (depth - 1) as nat);
    }
}

/// The views of rectangles stand for them one by one, in their order.
pub proof fn law_views_keep_the_order(rectangles: Seq<Rectangle>, i: int)
    ensures
        rects(rectangles).len() == rectangles.len(),
        0 <= i < rectangles.len() ==> rects(rectangles)[i] == rectangles[i]@,
{
}

/// A layout lists the tile of each window, and nothing else.
pub proof fn law_layout_lists_the_tiles(count: nat, bounds: Rect, i: int)
    ensures
        dwindle(count, bounds).len() == count,
        0 <= i < count ==> dwindle(count, bounds)[i] == tile(count, bounds, i),
{
}

/// What is left of any bounds ends at the far edges of the bounds.
proof fn lemma_remainder_ends(bounds: Rect, depth: nat)
    ensures
        remainder(bounds, depth).x + remainder(bounds, depth).w == bounds.x + bounds.w,
        remainder(bounds, depth).y + remainder(bounds, depth).h == bounds.y + bounds.h,
    decreases depth,
{
    if depth > 0 {
        lemma_remainder_ends(bounds, (depth - 1) as nat);
    }
}

/// The first tile starts at the corner of the bounds. The last one reaches from its corner to the
/// right and the bottom edge. Of the others, those with an even number reach to the bottom edge and
/// half way to the right one, and those with an odd number reach to the right edge and half way
/// to the bottom one; an odd pixel is left for the later windows.
pub proof fn law_tile_reaches_edges(count: nat, bounds: Rect, i: int)
    requires
        0 <= i < count,
    ensures
        i == 0 ==> tile(count, bounds, i).x == bounds.x && tile(count, bounds, i).y == bounds.y,
        tile(count, bounds, i).w == (if i < count - 1 && i % 2 == 0 {
            (bounds.x + bounds.w - tile(count, bounds, i).x) / 2
        } else {
            bounds.x + bounds.w - tile(count, bounds, i).x
        }),
        tile(count, bounds, i).h == (if i < count - 1 && i % 2 == 1 {
            (bounds.y + bounds.h - tile(count, bounds, i).y) / 2
        } else {
            bounds.y + bounds.h - tile(count, bounds, i).y
        }),
{
    lemma_remainder_ends(bounds, i as nat);
}

/// The tile after one with an even number starts at its upper right corner, the tile after one
/// with an odd number at its lower left corner.
pub proof fn law_next_tile_starts_at_the_split(count: nat, bounds: Rect, i: int)
    requires
        0 <= i < count - 1,
    ensures
        i % 2 == 0 ==> tile(count, bounds, i + 1).x == tile(count, bounds, i).x + tile(
            count,
            bounds,
            i,
        ).w && tile(count, bounds, i + 1).y == tile(count, bounds, i).y,
        i % 2 == 1 ==> tile(count, bounds, i + 1).y == tile(count, bounds, i).y + tile(
            count,
            bounds,
            i,
        ).h && tile(count, bounds, i + 1).x == tile(count, bounds, i).x,
{
}

/// What is left for later windows lies within what was left for earlier ones.
pub(crate) proof fn lemma_remainder_nested(bounds: Rect, outer: nat, inner: nat)
    requires
        bounds.wf(),
        outer <= inner,
    ensures
        remainder(bounds, outer).x <= remainder(bounds, inner).x,
        remainder(bounds, outer).y <= remainder(bounds, inner).y,
    decreases inner,
{
    lemma_remainder(bounds, inner);
    if outer < inner {
        lemma_remainder(bounds, (inner - 1) as nat);
        lemma_remainder_nested(bounds, outer, (inner - 1) as nat);
    }
}

/// A screen whose edges all lie within the range of a [`Point`] can be laid out for any number
/// of windows.
pub proof fn law_screens_fit(count: nat, bounds: Rect)
    requires
        bounds.wf(),
        i32::MIN <= bounds.x && bounds.x + bounds.w <= i32::MAX,
        i32::MIN <= bounds.y && bounds.y + bounds.h <= i32::MAX,
    ensures
        corners_fit(count, bounds),
{
    assert forall|i: int| 0 <= i < count implies i32::MIN <= (#[trigger] tile(
        count,
        bounds,
        i,
    )).x <= i32::MAX && i32::MIN <= tile(count, bounds, i).y <= i32::MAX by {
        lemma_remainder(bounds, i as nat);
    }
}

/// No tile has a negative side or reaches outside the bounds.
pub proof fn law_tiles_within_bounds(count: nat, bounds: Rect, i: int)
    requires
        bounds.wf(),
        0 <= i < count,
    ensures
        tile(count, bounds, i).wf(),
        bounds.x <= tile(count, bounds, i).x,
        bounds.y <= tile(count, bounds, i).y,
        tile(count, bounds, i).x + tile(count, bounds, i).w <= bounds.x + bounds.w,
        tile(count, bounds, i).y + tile(count, bounds, i).h <= bounds.y + bounds.h,
{
    lemma_remainder(bounds, i as nat);
}

/// No pixel belongs to two tiles.
pub proof fn law_tiles_disjoint(count: nat, bounds: Rect, i: int, j: int, px: int, py: int)
    requires
        bounds.wf(),
        0 <= i < count,
        0 <= j < count,
        i != j,
        tile(count, bounds, i).covers(px, py),
    ensures
        !tile(count, bounds, j).covers(px, py),
{
    let (low, high) = if i < j {
        (i, j)
    } else {
        (j, i)
    };
    lemma_remainder(bounds, low as nat);
    lemma_remainder(bounds, high as nat);
    lemma_remainder_nested(bounds, (low + 1) as nat, high as nat);
}

/// The tiles of one or more windows cover the bounds: a pixel belongs to the bounds exactly when
/// it belongs to some tile.
pub proof fn law_tiles_cover_bounds(count: nat, bounds: Rect, px: int, py: int)
    requires
        bounds.wf(),
        count > 0,
    ensures
        bounds.covers(px, py) <==> exists|i: int|
            0 <= i < count && (#[trigger] tile(count, bounds, i)).covers(px, py),
{
    if bounds.covers(px, py) {
        lemma_some_tile_covers(count, bounds, px, py, 0);
    }
    if exists|i: int| 0 <= i < count && (#[trigger] tile(count, bounds, i)).covers(px, py) {
        let i = choose|i: int|
            0 <= i < count && (#[trigger] tile(count, bounds, i)).covers(px, py);
        law_tiles_within_bounds(count, bounds, i);
    }
}

/// A pixel that the first `depth` windows have left belongs to the tile of a later one.
proof fn lemma_some_tile_covers(count: nat, bounds: Rect, px: int, py: int, depth: nat)
    requires
        bounds.wf(),
        depth < count,
        remainder(bounds, depth).covers(px, py),
    ensures
        exists|i: int| 0 <= i < count && (#[trigger] tile(count, bounds, i)).covers(px, py),
    decreases count - depth,
{
    if !tile(count, bounds, depth as int).covers(px, py) {
        lemma_some_tile_covers(count, bounds, px, py, depth + 1);
    }
}

/// The number of pixels of all of `tiles` together.
pub open spec fn total_area(tiles: Seq<Rect>) -> int
    decreases tiles.len(),
{
    if tiles.len() == 0 {
        0
    } else {
        total_area(tiles.drop_last()) + tiles.last().area()
    }
}

/// The tiles of one or more windows have, together, as many pixels as the bounds.
pub proof fn law_tiles_share_out_area(count: nat, bounds: Rect)
    requires
        count > 0,
    ensures
        total_area(dwindle(count, bounds)) == bounds.area(),
{
    let tiles = dwindle(count, bounds);
    lemma_area_taken(count, bounds, (count - 1) as nat);
    assert(tiles.drop_last() =~= tiles.take(count - 1));
    assert(tiles.last() == remainder(bounds, (count - 1) as nat));
}

/// What `depth` windows have taken and what they have left make up the bounds.
proof fn lemma_area_taken(count: nat, bounds: Rect, depth: nat)
    requires
        depth < count,
    ensures
        total_area(dwindle(count, bounds).take(depth as int)) + remainder(bounds, depth).area()
            == bounds.area(),
    decreases depth,
{
    let tiles = dwindle(count, bounds);
    if depth > 0 {
        let area = remainder(bounds, (depth - 1) as nat);
        let split = splits_vertically(depth - 1);
        lemma_area_taken(count, bounds, (depth - 1) as nat);
        assert(tiles.take(depth as int).drop_last() =~= tiles.take(depth - 1));
        assert(tiles.take(depth as int).last() == first_part(area, split));
        let half_w = area.w / 2;
        let half_h = area.h / 2;
        assert(half_w * area.h + (area.w - half_w) * area.h == area.w * area.h)
            by (nonlinear_arith);
        assert(area.w * half_h + area.w * (area.h - half_h) == area.w * area.h)
            by (nonlinear_arith);
    }
}

/// A new last window takes its place from the window that was last so far; no other tile moves.
pub proof fn law_new_window_splits_last_tile(count: nat, bounds: Rect, i: int)
    requires
        count > 0,
    ensures
        0 <= i < count - 1 ==> tile(count + 1, bounds, i) == tile(count, bounds, i),
        tile(count + 1, bounds, count - 1) == first_part(
            tile(count, bounds, count - 1),
            splits_vertically(count - 1),
        ),
        tile(count + 1, bounds, count as int) == rest_part(
            tile(count, bounds, count - 1),
            splits_vertically(count - 1),
        ),
{
}

/// `area` with its axes exchanged.
pub open spec fn transpose(area: Rect) -> Rect {
    Rect { x: area.y, y: area.x, w: area.h, h: area.w }
}

/// The first of several windows owns the left half of the bounds, and all later windows dwindle
/// into the other half in the same way, with the axes exchanged.
pub proof fn law_first_window_owns_half(count: nat, bounds: Rect, i: int)
    requires
        count >= 2,
        1 <= i < count,
    ensures
        tile(count, bounds, 0) == first_part(bounds, true),
        tile(count, bounds, i) == transpose(
            tile((count - 1) as nat, transpose(rest_part(bounds, true)), i - 1),
        ),
{
    lemma_remainder_transposed(bounds, i as nat);
}

proof fn lemma_remainder_transposed(bounds: Rect, depth: nat)
    requires
        depth >= 1,
    ensures
        remainder(bounds, depth) == transpose(
            remainder(transpose(rest_part(bounds, true)), (depth - 1) as nat),
        ),
    decreases depth,
{
    reveal_with_fuel(remainder, 2);
    if depth > 1 {
        lemma_remainder_transposed(bounds, (depth - 1) as nat);
    }
}

} // verus!
