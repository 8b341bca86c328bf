use beanwm::direction::tile_in_direction;
use beanwm::geometry::{output_bounds, output_size, Pixel, Point, Rectangle, Size};
use beanwm::layout::dwindle_rectangles;

fn rect(x: i32, y: i32, w: i32, h: i32) -> Rectangle {
    Rectangle { loc: Point { x, y }, size: Size { w, h } }
}

fn area(r: &Rectangle) -> i64 {
    r.size.w as i64 * r.size.h as i64
}

#[test]
fn no_windows_have_no_tiles() {
    assert_eq!(dwindle_rectangles(0, rect(0, 0, 1920, 1080)), vec![]);
}

#[test]
fn one_window_fills_the_bounds() {
    assert_eq!(dwindle_rectangles(1, rect(3, 4, 1920, 1080)), vec![rect(3, 4, 1920, 1080)]);
    assert_eq!(
        dwindle_rectangles(1, rect(i32::MAX, i32::MIN, i32::MAX, -7)),
        vec![rect(i32::MAX, i32::MIN, i32::MAX, -7)]
    );
}

#[test]
fn windows_dwindle_in_alternating_halves() {
    assert_eq!(
        dwindle_rectangles(5, rect(0, 0, 1920, 1080)),
        vec![
            rect(0, 0, 960, 1080),
            rect(960, 0, 960, 540),
            rect(960, 540, 480, 540),
            rect(1440, 540, 480, 270),
            rect(1440, 810, 480, 270),
        ]
    );
}

#[test]
fn odd_pixels_go_to_later_windows() {
    assert_eq!(
        dwindle_rectangles(3, rect(10, -5, 7, 5)),
        vec![rect(10, -5, 3, 5), rect(13, -5, 4, 2), rect(13, -3, 4, 3)]
    );
}

#[test]
fn bounds_at_the_edge_of_the_grid_can_be_split() {
    assert_eq!(
        dwindle_rectangles(2, rect(i32::MAX, 0, 1, 8)),
        vec![rect(i32::MAX, 0, 0, 8), rect(i32::MAX, 0, 1, 8)]
    );
    assert_eq!(
        dwindle_rectangles(2, rect(0, 0, i32::MAX, i32::MAX))[1],
        rect(1073741823, 0, 1073741824, i32::MAX)
    );
}

#[test]
fn every_pixel_belongs_to_exactly_one_tile() {
    let bounds = rect(-2, 3, 13, 9);
    for count in 1..9 {
        let tiles = dwindle_rectangles(count, bounds);
        for x in -4..14 {
            for y in 1..14 {
                let pixel = Pixel { x, y };
                let hits = tiles.iter().filter(|tile| tile.contains(pixel)).count();
                assert_eq!(hits == 1, bounds.contains(pixel));
                assert!(hits <= 1);
            }
        }
        let total: i64 = tiles.iter().map(area).sum();
        assert_eq!(total, area(&bounds));
    }
}

#[test]
fn a_new_window_splits_the_last_tile_only() {
    let bounds = rect(0, 0, 1367, 769);
    for count in 1..10 {
        let before = dwindle_rectangles(count, bounds);
        let after = dwindle_rectangles(count + 1, bounds);
        assert_eq!(before[..count - 1], after[..count - 1]);
        assert_eq!(area(&before[count - 1]), area(&after[count - 1]) + area(&after[count]));
    }
}

#[test]
fn later_windows_dwindle_into_the_other_half() {
    let turn = |r: &Rectangle| rect(r.loc.y, r.loc.x, r.size.h, r.size.w);
    let tiles = dwindle_rectangles(6, rect(0, 0, 1001, 777));
    assert_eq!(tiles[0], rect(0, 0, 500, 777));
    let others = dwindle_rectangles(5, turn(&rect(500, 0, 501, 777)));
    let turned: Vec<Rectangle> = others.iter().map(turn).collect();
    assert_eq!(tiles[1..], turned[..]);
}

#[test]
fn edges_belong_to_a_rectangle_on_one_side_only() {
    let r = rect(10, 20, 5, 6);
    assert!(r.contains(Pixel { x: 10, y: 20 }));
    assert!(r.contains(Pixel { x: 14, y: 25 }));
    assert!(!r.contains(Pixel { x: 15, y: 20 }));
    assert!(!r.contains(Pixel { x: 10, y: 26 }));
    assert!(!r.contains(Pixel { x: 9, y: 20 }));
    assert!(!rect(i32::MAX, 0, i32::MAX, 1).contains(Pixel { x: i64::MIN, y: 0 }));
    assert!(rect(i32::MAX, 0, i32::MAX, 1).contains(Pixel { x: 4294967293, y: 0 }));
}

#[test]
fn centers_are_in_half_pixels() {
    assert_eq!(rect(960, 540, 480, 540).center(), (2400, 1620));
    assert_eq!(rect(-3, 2, 1, 0).center(), (-5, 4));
}

#[test]
fn an_output_without_a_mode_is_full_hd() {
    assert_eq!(output_size(None), Size { w: 1920, h: 1080 });
    assert_eq!(output_size(Some(Size { w: 800, h: 600 })), Size { w: 800, h: 600 });
    assert_eq!(output_bounds(None), rect(0, 0, 1920, 1080));
}

#[test]
fn the_nearest_tile_in_the_direction_is_found() {
    let tiles = dwindle_rectangles(4, rect(0, 0, 1920, 1080));
    assert_eq!(tile_in_direction(&tiles, 0, 1, 0), Some(2));
    assert_eq!(tile_in_direction(&tiles, 0, -1, 0), None);
    assert_eq!(tile_in_direction(&tiles, 1, -1, 0), Some(0));
    assert_eq!(tile_in_direction(&tiles, 1, 0, 1), Some(2));
    assert_eq!(tile_in_direction(&tiles, 1, 0, -1), None);
    assert_eq!(tile_in_direction(&tiles, 2, 0, -1), Some(1));
    assert_eq!(tile_in_direction(&tiles, 2, -1, 0), Some(0));
    assert_eq!(tile_in_direction(&tiles, 3, 0, -1), Some(1));
    assert_eq!(tile_in_direction(&tiles, 3, -1, 0), Some(2));
    assert_eq!(tile_in_direction(&tiles, 0, 0, 0), None);
}

#[test]
fn a_tile_that_faces_goes_before_a_nearer_one_that_does_not() {
    let tiles = dwindle_rectangles(3, rect(0, 0, 1920, 1080));
    assert_eq!(tile_in_direction(&tiles, 1, 0, 1), Some(2));
    assert_eq!(tile_in_direction(&tiles, 2, 0, -1), Some(1));
    let far = vec![rect(0, 0, 10, 10), rect(15, 10, 10, 10), rect(100, 9, 10, 10)];
    assert_eq!(tile_in_direction(&far, 0, 1, 0), Some(2));
    assert_eq!(tile_in_direction(&far, 0, 0, 1), Some(2));
}

#[test]
fn without_a_facing_tile_the_nearest_is_found() {
    let tiles = dwindle_rectangles(4, rect(0, 0, 1920, 1080));
    assert_eq!(tile_in_direction(&tiles, 1, 1, 0), Some(3));
    assert_eq!(tile_in_direction(&tiles, 0, 0, -1), Some(1));
    assert_eq!(tile_in_direction(&tiles, 0, 0, 1), Some(2));
}

#[test]
fn tiles_face_each_other_across_the_split_of_the_first() {
    let tiles = dwindle_rectangles(7, rect(0, 0, 1920, 1080));
    let overlap = |a: i32, a_len: i32, b: i32, b_len: i32| a < b + b_len && b < a + a_len;
    for i in 0..tiles.len() {
        for j in i + 1..tiles.len() {
            let (a, b) = (tiles[i], tiles[j]);
            assert_eq!(overlap(a.loc.y, a.size.h, b.loc.y, b.size.h), i % 2 == 0);
            assert_eq!(overlap(a.loc.x, a.size.w, b.loc.x, b.size.w), i % 2 == 1);
        }
    }
}

#[test]
fn ties_are_broken_across_the_direction_then_by_order() {
    // Tiles 2 and 3 are level below tile 0 and do not face it; tile 2 is nearer across.
    let tiles = dwindle_rectangles(4, rect(0, 0, 1920, 1080));
    assert_eq!(tile_in_direction(&tiles, 0, 0, 1), Some(2));
    let row = vec![rect(0, 0, 10, 10), rect(20, 5, 10, 10), rect(20, -5, 10, 10)];
    assert_eq!(tile_in_direction(&row, 0, 1, 0), Some(1));
    assert_eq!(tile_in_direction(&row, 0, 7, -3), Some(1));
}

#[test]
fn the_way_back_leads_to_the_start_unless_another_tile_comes_in_between() {
    let tiles = dwindle_rectangles(4, rect(0, 0, 1920, 1080));
    assert_eq!(tile_in_direction(&tiles, 0, 1, 0), Some(2));
    assert_eq!(tile_in_direction(&tiles, 2, -1, 0), Some(0));
    // Tile 2 is level with tile 3, as near to tile 1, and comes first.
    assert_eq!(tile_in_direction(&tiles, 3, 0, -1), Some(1));
    assert_eq!(tile_in_direction(&tiles, 1, 0, 1), Some(2));
    // Tile 2 faces tile 0 and is nearer to it than tile 1.
    assert_eq!(tile_in_direction(&tiles, 1, -1, 0), Some(0));
    assert_eq!(tile_in_direction(&tiles, 0, 1, 0), Some(2));
    // Tile 2 faces tile 3, and tile 1 does not.
    assert_eq!(tile_in_direction(&tiles, 1, 1, 0), Some(3));
    assert_eq!(tile_in_direction(&tiles, 3, -1, 0), Some(2));
}

#[test]
fn extreme_positions_do_not_overflow() {
    let far = vec![
        rect(i32::MIN, i32::MIN, 0, 0),
        rect(i32::MAX, i32::MAX, i32::MAX, i32::MAX),
    ];
    assert_eq!(tile_in_direction(&far, 0, i32::MAX, 0), Some(1));
    assert_eq!(tile_in_direction(&far, 0, i32::MIN, 0), None);
    assert_eq!(tile_in_direction(&far, 1, i32::MIN, 0), Some(0));
}
