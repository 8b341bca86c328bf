//! The tile that lies next to another one in a given direction.
//!
//! A tile that faces the other one, so that the way there leads straight out of the one and into
//! the other, goes before every tile that lies off to the side.
use vstd::prelude::*;

use crate::geometry::{Rect, Rectangle};
use crate::layout::{lemma_remainder, lemma_remainder_nested, rects, splits_vertically, tile};

verus! {

/// How far the centre of `to` lies from that of `from` along the direction `(dx, dy)`: on the
/// horizontal axis where `dx` is not zero, else on the vertical one.
pub open spec fn distance_along(from: Rect, to: Rect, dx: int, dy: int) -> int {
    if dx != 0 {
        (to.center_x() - from.center_x()) * dx
    } else {
        (to.center_y() - from.center_y()) * dy
    }
}

/// How far the centre of `to` lies from that of `from` across the direction.
pub open spec fn distance_across(from: Rect, to: Rect, dx: int) -> int {
    let offset = if dx != 0 {
        to.center_y() - from.center_y()
    } else {
        to.center_x() - from.center_x()
    };
    if offset < 0 {
        -offset
    } else {
        offset
    }
}

/// `to` faces `from` in a direction along the horizontal axis, where `dx` is not zero, or along the
/// vertical one: the two overlap on the other axis.
pub open spec fn faces(from: Rect, to: Rect, dx: int) -> bool {
    if dx != 0 {
        from.y < to.y + to.h && to.y < from.y + from.h
    } else {
        from.x < to.x + to.w && to.x < from.x + from.w
    }
}

/// Tile `j` is another tile than `index` and its centre lies in the direction `(dx, dy)`.
pub open spec fn is_candidate(tiles: Seq<Rect>, index: int, dx: int, dy: int, j: int) -> bool {
    &&& 0 <= j < tiles.len()
    &&& j != index
    &&& distance_along(tiles[index], tiles[j], dx, dy) > 0
}

/// Tile `a` is to be taken rather than tile `b`. What faces tile `index` comes before what does
/// not; then what lies nearer along the direction comes first, then what lies nearer across it,
/// then what comes first in the order.
pub open spec fn goes_before(tiles: Seq<Rect>, index: int, dx: int, dy: int, a: int, b: int) -> bool {
    let along_a = distance_along(tiles[index], tiles[a], dx, dy);
    let along_b = distance_along(tiles[index], tiles[b], dx, dy);
    let across_a = distance_across(tiles[index], tiles[a], dx);
    let across_b = distance_across(tiles[index], tiles[b], dx);
    let faces_a = faces(tiles[index], tiles[a], dx);
    let faces_b = faces(tiles[index], tiles[b], dx);
    ||| faces_a && !faces_b
    ||| faces_a == faces_b && along_a < along_b
    ||| faces_a == faces_b && along_a == along_b && across_a < across_b
    ||| faces_a == faces_b && along_a == along_b && across_a == across_b && a <= b
}

/// Tile `d` is the candidate that goes before all others.
pub open spec fn is_destination(tiles: Seq<Rect>, index: int, dx: int, dy: int, d: int) -> bool {
    &&& is_candidate(tiles, index, dx, dy, d)
    &&& forall|j: int|
        #[trigger] is_candidate(tiles, index, dx, dy, j) ==> goes_before(
            tiles,
            index,
            dx,
            dy,
            d,
            j,
        )
}

/// The tile next to tile `index` in the direction `(dx, dy)`, if there is any.
pub open spec fn destination(tiles: Seq<Rect>, index: int, dx: int, dy: int) -> Option<int> {
    if exists|d: int| is_destination(tiles, index, dx, dy, d) {
        Some(choose|d: int| is_destination(tiles, index, dx, dy, d))
    } else {
        None
    }
}

/// Whether `to` faces `from` in a direction along the horizontal axis, where `dx` is not zero, or
/// along the vertical one.
fn is_facing(from: &Rectangle, to: &Rectangle, dx: i32) -> (facing: bool)
    ensures
        facing == faces(from@, to@, dx as int),
{
    if dx != 0 {
        let top: i64 = from.loc.y as i64;
        let other_top: i64 = to.loc.y as i64;
        top < other_top + to.size.h as i64 && other_top < top + from.size.h as i64
    } else {
        let left: i64 = from.loc.x as i64;
        let other_left: i64 = to.loc.x as i64;
        left < other_left + to.size.w as i64 && other_left < left + from.size.w as i64
    }
}

/// The distances along and across the direction from `from` to `to`.
fn distances(from: &Rectangle, to: &Rectangle, dx: i32, dy: i32) -> (result: (i128, i64))
    ensures
        result.0 == distance_along(from@, to@, dx as int, dy as int),
        result.1 == distance_across(from@, to@, dx as int),
{
    let (x, y): (i64, i64) = from.center();
    let (other_x, other_y): (i64, i64) = to.center();
    let right: i64 = other_x - x;
    let down: i64 = other_y - y;
    assert(-0x4_0000_0000_0000_0000_0000 < right * dx < 0x4_0000_0000_0000_0000_0000)
        by (nonlinear_arith)
        requires
            -0x8_0000_0000 <= right <= 0x8_0000_0000,
            -0x8000_0000 <= dx <= 0x7fff_ffff,
    ;
    assert(-0x4_0000_0000_0000_0000_0000 < down * dy < 0x4_0000_0000_0000_0000_0000)
        by (nonlinear_arith)
        requires
            -0x8_0000_0000 <= down <= 0x8_0000_0000,
            -0x8000_0000 <= dy <= 0x7fff_ffff,
    ;
    let along: i128 = if dx != 0 {
        right as i128 * dx as i128
    } else {
        down as i128 * dy as i128
    };
    let offset: i64 = if dx != 0 {
        down
    } else {
        right
    };
    let across: i64 = if offset < 0 {
        -offset
    } else {
        offset
    };
    (along, across)
}

/// Finds the tile next to tile `index` in the direction `(dx, dy)`.
///
/// Distances are held wide enough that no position and no direction overflows them.
pub fn tile_in_direction(rectangles: &Vec<Rectangle>, index: usize, dx: i32, dy: i32) -> (found:
    Option<usize>)
    requires
        index < rectangles@.len(),
    ensures
        (match found {
            Some(d) => destination(rects(rectangles@), index as int, dx as int, dy as int) == Some(
                d as int,
            ) && is_destination(rects(rectangles@), index as int, dx as int, dy as int, d as int),
            None => destination(rects(rectangles@), index as int, dx as int, dy as int) is None
                && forall|j: int|
                !is_candidate(rects(rectangles@), index as int, dx as int, dy as int, j),
        }),
        found matches Some(d) ==> d < rectangles@.len() && d != index,
        dx == 0 && dy == 0 ==> found is None,
        dx > 0 ==> (found is Some <==> exists|j: int|
            0 <= j < rectangles@.len() && 2 * rectangles@[index as int].loc.x
                + rectangles@[index as int].size.w < 2 * (#[trigger] rectangles@[j]).loc.x
                + rectangles@[j].size.w),
        dx < 0 ==> (found is Some <==> exists|j: int|
            0 <= j < rectangles@.len() && 2 * rectangles@[index as int].loc.x
                + rectangles@[index as int].size.w > 2 * (#[trigger] rectangles@[j]).loc.x
                + rectangles@[j].size.w),
        dx == 0 && dy > 0 ==> (found is Some <==> exists|j: int|
            0 <= j < rectangles@.len() && 2 * rectangles@[index as int].loc.y
                + rectangles@[index as int].size.h < 2 * (#[trigger] rectangles@[j]).loc.y
                + rectangles@[j].size.h),
        dx == 0 && dy < 0 ==> (found is Some <==> exists|j: int|
            0 <= j < rectangles@.len() && 2 * rectangles@[index as int].loc.y
                + rectangles@[index as int].size.h > 2 * (#[trigger] rectangles@[j]).loc.y
                + rectangles@[j].size.h),
{
    let ghost tiles = rects(rectangles@);
    let ghost start = rectangles@[index as int];
    proof {
        assert forall|j: int| 0 <= j < rectangles@.len() implies {
            let other = #[trigger] rectangles@[j];
            is_candidate(tiles, index as int, dx as int, dy as int, j) <==> (if dx > 0 {
                2 * start.loc.x + start.size.w < 2 * other.loc.x + other.size.w
            } else if dx < 0 {
                2 * start.loc.x + start.size.w > 2 * other.loc.x + other.size.w
            } else if dy > 0 {
                2 * start.loc.y + start.size.h < 2 * other.loc.y + other.size.h
            } else if dy < 0 {
                2 * start.loc.y + start.size.h > 2 * other.loc.y + other.size.h
            } else {
                false
            })
        } by {
            assert(tiles[j] == rectangles@[j]@);
            law_candidates_lie_beyond(tiles, index as int, dx as int, dy as int, j);
        }
    }
    let mut best: Option<(usize, bool, i128, i64)> = None;
    let mut candidate: usize = 0;
    while candidate < rectangles.len()
        invariant
            index < rectangles@.len(),
            candidate <= rectangles@.len(),
            tiles == rects(rectangles@),
            (match best {
                Some((d, facing, along, across)) => {
                    &&& d < candidate
                    &&& facing == faces(tiles[index as int], tiles[d as int], dx as int)
                    &&& is_candidate(tiles, index as int, dx as int, dy as int, d as int)
                    &&& along == distance_along(
                        tiles[index as int],
                        tiles[d as int],
                        dx as int,
                        dy as int,
                    )
                    &&& across == distance_across(tiles[index as int], tiles[d as int], dx as int)
                    &&& forall|j: int|
                        j < candidate && #[trigger] is_candidate(
                            tiles,
                            index as int,
                            dx as int,
                            dy as int,
                            j,
                        ) ==> goes_before(
                            tiles,
                            index as int,
                            dx as int,
                            dy as int,
                            d as int,
                            j,
                        )
                },
                None => forall|j: int|
                    j < candidate ==> !is_candidate(
                        tiles,
                        index as int,
                        dx as int,
                        dy as int,
                        j,
                    ),
            }),
        decreases rectangles@.len() - candidate,
    {
        if candidate != index {
            let (along, across): (i128, i64) = distances(
                &rectangles[index],
                &rectangles[candidate],
                dx,
                dy,
            );
            if along > 0 {
                let facing: bool = is_facing(&rectangles[index], &rectangles[candidate], dx);
                let better: bool = match best {
                    Some((_, best_facing, best_along, best_across)) => if facing != best_facing {
                        facing
                    } else {
                        along < best_along || along == best_along && across < best_across
                    },
                    None => true,
                };
                if better {
                    best = Some((candidate, facing, along, across));
                }
            }
        }
        candidate = candidate + 1;
    }
    match best {
        Some((d, _, _, _)) => {
            proof {
                lemma_destination_unique(
                    tiles,
                    index as int,
                    dx as int,
                    dy as int,
                    d as int,
                );
            }
            Some(d)
        },
        None => None,
    }
}

/// At most one tile is the destination, so [`destination`] is that tile.
pub proof fn lemma_destination_unique(tiles: Seq<Rect>, index: int, dx: int, dy: int, d: int)
    requires
        is_destination(tiles, index, dx, dy, d),
    ensures
        destination(tiles, index, dx, dy) == Some(d),
{
    let other = choose|other: int| is_destination(tiles, index, dx, dy, other);
    assert(goes_before(tiles, index, dx, dy, d, other));
    assert(goes_before(tiles, index, dx, dy, other, d));
}

/// There is a destination exactly when there is a candidate: whenever some other tile lies in
/// the direction, one of them is chosen.
pub proof fn law_some_candidate_is_chosen(tiles: Seq<Rect>, index: int, dx: int, dy: int)
    ensures
        destination(tiles, index, dx, dy) is Some <==> exists|j: int|
            is_candidate(tiles, index, dx, dy, j),
        destination(tiles, index, dx, dy) matches Some(d) ==> is_destination(
            tiles,
            index,
            dx,
            dy,
            d,
        ),
{
    if exists|j: int| is_candidate(tiles, index, dx, dy, j) {
        let j = choose|j: int| is_candidate(tiles, index, dx, dy, j);
        lemma_first_candidate(tiles, index, dx, dy, tiles.len());
        let d = choose|d: int|
            #![trigger is_candidate(tiles, index, dx, dy, d)]
            first_among(tiles, index, dx, dy, tiles.len(), d);
        assert(is_destination(tiles, index, dx, dy, d));
    }
}

/// Tile `d` is the candidate that goes before all others of the first `count` tiles.
spec fn first_among(tiles: Seq<Rect>, index: int, dx: int, dy: int, count: nat, d: int) -> bool {
    &&& d < count
    &&& is_candidate(tiles, index, dx, dy, d)
    &&& forall|j: int|
        j < count && #[trigger] is_candidate(tiles, index, dx, dy, j) ==> goes_before(
            tiles,
            index,
            dx,
            dy,
            d,
            j,
        )
}

proof fn lemma_first_candidate(tiles: Seq<Rect>, index: int, dx: int, dy: int, count: nat)
    requires
        exists|j: int| j < count && is_candidate(tiles, index, dx, dy, j),
    ensures
        exists|d: int|
            #![trigger is_candidate(tiles, index, dx, dy, d)]
            first_among(tiles, index, dx, dy, count, d),
    decreases count,
{
    let some = choose|j: int| j < count && is_candidate(tiles, index, dx, dy, j);
    let before = (count - 1) as nat;
    if exists|j: int| j < before && is_candidate(tiles, index, dx, dy, j) {
        lemma_first_candidate(tiles, index, dx, dy, before);
        let d = choose|d: int|
            #![trigger is_candidate(tiles, index, dx, dy, d)]
            first_among(tiles, index, dx, dy, before, d);
        if is_candidate(tiles, index, dx, dy, before as int) && !goes_before(
            tiles,
            index,
            dx,
            dy,
            d,
            before as int,
        ) {
            assert(first_among(tiles, index, dx, dy, count, before as int));
        } else {
            assert(first_among(tiles, index, dx, dy, count, d));
        }
    } else {
        assert(some == before);
        assert(first_among(tiles, index, dx, dy, count, some));
    }
}

/// A distance that is scaled by a direction: it is that direction's length times the distance, and
/// lies in the direction where the two have the same sign.
proof fn lemma_scaled(step: int, factor: int)
    by (nonlinear_arith)
    requires
        factor != 0,
    ensures
        factor > 0 ==> (step * factor > 0 <==> step > 0),
        factor < 0 ==> (step * factor > 0 <==> step < 0),
        step * factor == (-step) * (-factor),
{
}

/// Scaling by a length keeps the order of two distances.
proof fn lemma_same_scale(a: int, b: int, length: int)
    by (nonlinear_arith)
    requires
        length > 0,
    ensures
        a * length < b * length <==> a < b,
        a * length == b * length <==> a == b,
{
}

/// The tiles in a direction are those whose centre lies beyond that of the start: to the right or
/// to the left of it where the direction has a horizontal part, whatever its vertical part is,
/// else below or above it. No tile lies in the direction that leads nowhere.
pub proof fn law_candidates_lie_beyond(tiles: Seq<Rect>, index: int, dx: int, dy: int, j: int)
    ensures
        is_candidate(tiles, index, dx, dy, j) <==> 0 <= j < tiles.len() && j != index && (if dx
            > 0 {
            2 * tiles[index].x + tiles[index].w < 2 * tiles[j].x + tiles[j].w
        } else if dx < 0 {
            2 * tiles[j].x + tiles[j].w < 2 * tiles[index].x + tiles[index].w
        } else if dy > 0 {
            2 * tiles[index].y + tiles[index].h < 2 * tiles[j].y + tiles[j].h
        } else if dy < 0 {
            2 * tiles[j].y + tiles[j].h < 2 * tiles[index].y + tiles[index].h
        } else {
            false
        }),
{
    if dx != 0 {
        lemma_scaled(tiles[j].center_x() - tiles[index].center_x(), dx);
    } else if dy != 0 {
        lemma_scaled(tiles[j].center_y() - tiles[index].center_y(), dy);
    } else {
        let step = tiles[j].center_y() - tiles[index].center_y();
        assert(step * 0 == 0) by (nonlinear_arith);
    }
}

/// Wherever some tile `j` lies to the right of the start, or to the left of it, a tile there is
/// chosen. It shares a row of pixels with the start if `j` does; where both do or neither does, its
/// centre is as near as that of `j` at least; where they are as near, it is as level with the
/// start; and where they are as level, it does not come later in the order.
pub proof fn law_nearest_tile_sideways(
    tiles: Seq<Rect>,
    index: int,
    dx: int,
    dy: int,
    j: int,
)
    requires
        dx != 0,
        0 <= j < tiles.len() && j != index,
        dx > 0 ==> 2 * tiles[j].x + tiles[j].w > 2 * tiles[index].x + tiles[index].w,
        dx < 0 ==> 2 * tiles[j].x + tiles[j].w < 2 * tiles[index].x + tiles[index].w,
    ensures
        destination(tiles, index, dx, dy) matches Some(d) && {
            let start = tiles[index];
            let taken = tiles[d];
            let other = tiles[j];
            let step_taken = 2 * taken.x + taken.w - 2 * start.x - start.w;
            let step_other = 2 * other.x + other.w - 2 * start.x - start.w;
            let gap_taken = if dx > 0 { step_taken } else { -step_taken };
            let gap_other = if dx > 0 { step_other } else { -step_other };
            let side_taken = 2 * taken.y + taken.h - 2 * start.y - start.h;
            let side_other = 2 * other.y + other.h - 2 * start.y - start.h;
            let off_taken = if side_taken < 0 { -side_taken } else { side_taken };
            let off_other = if side_other < 0 { -side_other } else { side_other };
            let straight_taken = start.y < taken.y + taken.h && taken.y < start.y + start.h;
            let straight_other = start.y < other.y + other.h && other.y < start.y + start.h;
            &&& 0 <= d < tiles.len() && d != index
            &&& gap_taken > 0
            &&& straight_other ==> straight_taken
            &&& straight_other == straight_taken ==> gap_taken <= gap_other
            &&& straight_other == straight_taken && gap_taken == gap_other ==> off_taken
                <= off_other
            &&& straight_other == straight_taken && gap_taken == gap_other && off_taken
                == off_other ==> d <= j
        },
{
    let reach = if dx > 0 {
        dx
    } else {
        -dx
    };
    let step_other = 2 * tiles[j].x + tiles[j].w - 2 * tiles[index].x - tiles[index].w;
    lemma_scaled(step_other, dx);
    assert(is_candidate(tiles, index, dx, dy, j));
    law_some_candidate_is_chosen(tiles, index, dx, dy);
    let d = destination(tiles, index, dx, dy)->0;
    let step_taken = 2 * tiles[d].x + tiles[d].w - 2 * tiles[index].x - tiles[index].w;
    lemma_scaled(step_taken, dx);
    assert(goes_before(tiles, index, dx, dy, d, j));
    lemma_same_scale(
        if dx > 0 { step_taken } else { -step_taken },
        if dx > 0 { step_other } else { -step_other },
        reach,
    );
}

/// Wherever some tile `j` lies below the start, or above it, a tile there is chosen. It shares a
/// column of pixels with the start if `j` does; where both do or neither does, its centre is as
/// near as that of `j` at least; where they are as near, it is as level with the start; and where
/// they are as level, it does not come later in the order.
pub proof fn law_nearest_tile_up_or_down(
    tiles: Seq<Rect>,
    index: int,
    dx: int,
    dy: int,
    j: int,
)
    requires
        dx == 0 && dy != 0,
        0 <= j < tiles.len() && j != index,
        dy > 0 ==> 2 * tiles[j].y + tiles[j].h > 2 * tiles[index].y + tiles[index].h,
        dy < 0 ==> 2 * tiles[j].y + tiles[j].h < 2 * tiles[index].y + tiles[index].h,
    ensures
        destination(tiles, index, dx, dy) matches Some(d) && {
            let start = tiles[index];
            let taken = tiles[d];
            let other = tiles[j];
            let step_taken = 2 * taken.y + taken.h - 2 * start.y - start.h;
            let step_other = 2 * other.y + other.h - 2 * start.y - start.h;
            let gap_taken = if dy > 0 { step_taken } else { -step_taken };
            let gap_other = if dy > 0 { step_other } else { -step_other };
            let side_taken = 2 * taken.x + taken.w - 2 * start.x - start.w;
            let side_other = 2 * other.x + other.w - 2 * start.x - start.w;
            let off_taken = if side_taken < 0 { -side_taken } else { side_taken };
            let off_other = if side_other < 0 { -side_other } else { side_other };
            let straight_taken = start.x < taken.x + taken.w && taken.x < start.x + start.w;
            let straight_other = start.x < other.x + other.w && other.x < start.x + start.w;
            &&& 0 <= d < tiles.len() && d != index
            &&& gap_taken > 0
            &&& straight_other ==> straight_taken
            &&& straight_other == straight_taken ==> gap_taken <= gap_other
            &&& straight_other == straight_taken && gap_taken == gap_other ==> off_taken
                <= off_other
            &&& straight_other == straight_taken && gap_taken == gap_other && off_taken
                == off_other ==> d <= j
        },
{
    let reach = if dy > 0 {
        dy
    } else {
        -dy
    };
    let step_other = 2 * tiles[j].y + tiles[j].h - 2 * tiles[index].y - tiles[index].h;
    lemma_scaled(step_other, dy);
    assert(is_candidate(tiles, index, dx, dy, j));
    law_some_candidate_is_chosen(tiles, index, dx, dy);
    let d = destination(tiles, index, dx, dy)->0;
    let step_taken = 2 * tiles[d].y + tiles[d].h - 2 * tiles[index].y - tiles[index].h;
    lemma_scaled(step_taken, dy);
    assert(goes_before(tiles, index, dx, dy, d, j));
    lemma_same_scale(
        if dy > 0 { step_taken } else { -step_taken },
        if dy > 0 { step_other } else { -step_other },
        reach,
    );
}

/// Where some tile in the direction faces tile `index`, the tile that is chosen does.
pub proof fn law_facing_tile_is_chosen(
    tiles: Seq<Rect>,
    index: int,
    dx: int,
    dy: int,
    j: int,
)
    requires
        is_candidate(tiles, index, dx, dy, j),
        faces(tiles[index], tiles[j], dx),
    ensures
        destination(tiles, index, dx, dy) matches Some(d) && faces(tiles[index], tiles[d], dx),
{
    law_some_candidate_is_chosen(tiles, index, dx, dy);
    let d = destination(tiles, index, dx, dy)->0;
    assert(goes_before(tiles, index, dx, dy, d, j));
}

/// Two tiles of a layout that are not empty face each other along one axis only: the one along
/// which the first of them was split off. So a tile faces all later ones across its own split,
/// and the earlier ones across theirs.
pub proof fn law_tiles_face_across_the_split(count: nat, bounds: Rect, i: int, j: int)
    requires
        bounds.wf(),
        0 <= i < j < count,
        tile(count, bounds, i).w > 0 && tile(count, bounds, i).h > 0,
        tile(count, bounds, j).w > 0 && tile(count, bounds, j).h > 0,
    ensures
        faces(tile(count, bounds, i), tile(count, bounds, j), 1) <==> splits_vertically(i),
        faces(tile(count, bounds, i), tile(count, bounds, j), 0) <==> !splits_vertically(i),
{
    lemma_remainder(bounds, i as nat);
    lemma_remainder(bounds, (i + 1) as nat);
    lemma_remainder(bounds, j as nat);
    lemma_remainder_nested(bounds, (i + 1) as nat, j as nat);
}

/// On the way back from `d` to `index` no tile comes in between: none that lies level with
/// `index` on the axis of the direction is to be taken rather than `index`, and none that faces
/// `d` is there while `index` does not face `d`, or lies nearer to `d` and does not face `index`.
pub open spec fn way_back_is_clear(
    tiles: Seq<Rect>,
    index: int,
    dx: int,
    dy: int,
    d: int,
) -> bool {
    forall|j: int|
        0 <= j < tiles.len() && j != index && j != d ==> {
            let along = distance_along(tiles[index], #[trigger] tiles[j], dx, dy);
            &&& along == 0 ==> goes_before(tiles, d, -dx, -dy, index, j)
            &&& faces(tiles[d], tiles[j], dx) && along < distance_along(
                tiles[index],
                tiles[d],
                dx,
                dy,
            ) ==> {
                &&& along != 0 ==> faces(tiles[index], tiles[d], dx)
                &&& along > 0 ==> faces(tiles[index], tiles[j], dx)
            }
        }
}

/// The way back leads to where the way there started, unless another tile comes in between. Then
/// it leads elsewhere.
pub proof fn law_opposite_direction_leads_back(
    tiles: Seq<Rect>,
    index: int,
    dx: int,
    dy: int,
    d: int,
)
    requires
        0 <= index < tiles.len(),
        destination(tiles, index, dx, dy) == Some(d),
    ensures
        destination(tiles, d, -dx, -dy) == Some(index) <==> way_back_is_clear(
            tiles,
            index,
            dx,
            dy,
            d,
        ),
{
    law_some_candidate_is_chosen(tiles, index, dx, dy);
    assert forall|j: int| 0 <= j < tiles.len() implies distance_along(
        tiles[d],
        #[trigger] tiles[j],
        -dx,
        -dy,
    ) == distance_along(tiles[index], tiles[d], dx, dy) - distance_along(
        tiles[index],
        tiles[j],
        dx,
        dy,
    ) by {
        lemma_offsets(tiles[index].center_x(), tiles[d].center_x(), tiles[j].center_x(), dx);
        lemma_offsets(tiles[index].center_y(), tiles[d].center_y(), tiles[j].center_y(), dy);
    }
    assert(distance_along(tiles[index], tiles[index], dx, dy) == 0) by {
        assert(0 * dx == 0 && 0 * dy == 0);
    }
    assert(is_candidate(tiles, d, -dx, -dy, index));
    if way_back_is_clear(tiles, index, dx, dy, d) {
        assert forall|j: int| #[trigger] is_candidate(tiles, d, -dx, -dy, j) implies goes_before(
            tiles,
            d,
            -dx,
            -dy,
            index,
            j,
        ) by {
            if j != index && distance_along(tiles[index], tiles[j], dx, dy) > 0 {
                assert(is_candidate(tiles, index, dx, dy, j));
                assert(goes_before(tiles, index, dx, dy, d, j));
            }
        }
        lemma_destination_unique(tiles, d, -dx, -dy, index);
    }
    if destination(tiles, d, -dx, -dy) == Some(index) {
        law_some_candidate_is_chosen(tiles, d, -dx, -dy);
        assert forall|j: int|
            0 <= j < tiles.len() && j != d && distance_along(
                tiles[index],
                #[trigger] tiles[j],
                dx,
                dy,
            ) < distance_along(tiles[index], tiles[d], dx, dy) implies goes_before(
            tiles,
            d,
            -dx,
            -dy,
            index,
            j,
        ) by {
            assert(is_candidate(tiles, d, -dx, -dy, j));
        }
    }
}

proof fn lemma_offsets(start: int, end: int, other: int, step: int)
    by (nonlinear_arith)
    ensures
        (other - end) * (-step) == (end - start) * step - (other - start) * step,
{
}

} // verus!
