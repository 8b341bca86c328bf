//! Points, sizes and rectangles in the compositor's logical pixel grid.
use vstd::prelude::*;

verus! {

/// A pixel position.
#[derive(Clone, Copy, Debug, PartialEq, Eq, Structural, Hash)]
pub struct Point {
    pub x: i32,
    pub y: i32,
}

/// A width and a height. A size that has an area is never negative: see [`Size::wf`].
#[derive(Clone, Copy, Debug, PartialEq, Eq, Structural, Hash)]
pub struct Size {
    pub w: i32,
    pub h: i32,
}

/// A rectangle, given by its top-left corner and its size.
#[derive(Clone, Copy, Debug, PartialEq, Eq, Structural, Hash)]
pub struct Rectangle {
    pub loc: Point,
    pub size: Size,
}

/// The pixel that a pointer is in: the pointer's coordinates, each rounded down.
///
/// A tile's edges lie on whole pixels, so a pointer is inside a tile exactly when the pixel
/// that it is in is.
#[derive(Clone, Copy, Debug, PartialEq, Eq, Structural, Hash)]
pub struct Pixel {
    pub x: i64,
    pub y: i64,
}

/// The mathematical view of a [`Rectangle`].
pub struct Rect {
    pub x: int,
    pub y: int,
    pub w: int,
    pub h: int,
}

impl Size {
    /// Neither side is negative.
    pub open spec fn wf(self) -> bool {
        self.w >= 0 && self.h >= 0
    }
}

impl View for Rectangle {
    type V = Rect;

    open spec fn view(&self) -> Rect {
        Rect {
            x: self.loc.x as int,
            y: self.loc.y as int,
            w: self.size.w as int,
            h: self.size.h as int,
        }
    }
}

impl Rect {
    /// Neither side is negative.
    pub open spec fn wf(self) -> bool {
        self.w >= 0 && self.h >= 0
    }

    /// Whether the pixel `(px, py)` belongs to the rectangle: its left and top edges do, its
    /// right and bottom edges do not.
    pub open spec fn covers(self, px: int, py: int) -> bool {
        self.x <= px < self.x + self.w && self.y <= py < self.y + self.h
    }

    /// The number of pixels of the rectangle.
    pub open spec fn area(self) -> int {
        self.w * self.h
    }

    /// The centre, in half pixels from the left edge of the grid.
    pub open spec fn center_x(self) -> int {
        2 * self.x + self.w
    }

    /// The centre, in half pixels from the top edge of the grid.
    pub open spec fn center_y(self) -> int {
        2 * self.y + self.h
    }
}

impl Rectangle {
    /// Whether `pixel` belongs to the rectangle.
    pub fn contains(&self, pixel: Pixel) -> (inside: bool)
        ensures
            inside == self@.covers(pixel.x as int, pixel.y as int),
            inside <==> self.loc.x <= pixel.x && pixel.x < self.loc.x + self.size.w && self.loc.y
                <= pixel.y && pixel.y < self.loc.y + self.size.h,
    {
        let left: i64 = self.loc.x as i64;
        let top: i64 = self.loc.y as i64;
        left <= pixel.x && pixel.x < left + self.size.w as i64 && top <= pixel.y && pixel.y < top
            + self.size.h as i64
    }

    /// The centre of the rectangle, in half pixels, so that it is a whole number on both axes.
    pub fn center(&self) -> (center: (i64, i64))
        ensures
            center.0 == self@.center_x(),
            center.1 == self@.center_y(),
            center.0 == self.loc.x + self.loc.x + self.size.w,
            center.1 == self.loc.y + self.loc.y + self.size.h,
    {
        (
            self.loc.x as i64 * 2 + self.size.w as i64,
            self.loc.y as i64 * 2 + self.size.h as i64,
        )
    }
}

/// The screen that an output shows: the size of its current mode, or 1920 by 1080 pixels while
/// it has none.
pub open spec fn screen_size(mode: Option<Size>) -> Size {
    match mode {
        Some(size) => size,
        None => Size { w: 1920, h: 1080 },
    }
}

/// The rectangle that covers the whole screen.
pub open spec fn screen_rect(mode: Option<Size>) -> Rect {
    Rect { x: 0, y: 0, w: screen_size(mode).w as int, h: screen_size(mode).h as int }
}

/// The size of the screen that an output with the current mode `mode` shows.
pub fn output_size(mode: Option<Size>) -> (size: Size)
    ensures
        size == screen_size(mode),
        mode is Some ==> Some(size) == mode,
        mode is None ==> size.w == 1920 && size.h == 1080,
{
    match mode {
        Some(size) => size,
        None => Size { w: 1920, h: 1080 },
    }
}

/// The rectangle that covers the whole screen of an output.
pub fn output_bounds(mode: Option<Size>) -> (bounds: Rectangle)
    ensures
        bounds@ == screen_rect(mode),
        bounds.size == screen_size(mode),
        bounds.loc.x == 0 && bounds.loc.y == 0,
        mode is Some ==> Some(bounds.size) == mode,
        mode is None ==> bounds.size.w == 1920 && bounds.size.h == 1080,
{
    Rectangle { loc: Point { x: 0, y: 0 }, size: output_size(mode) }
}

/// The screen is the rectangle from the origin whose size is the mode that the output has, whatever
/// mode that is; only without a mode is it 1920 by 1080 pixels.
pub proof fn law_screen_is_the_mode(size: Size)
    ensures
        screen_size(Some(size)) == size,
        screen_rect(Some(size)) == (Rect { x: 0, y: 0, w: size.w as int, h: size.h as int }),
        screen_rect(None) == (Rect { x: 0, y: 0, w: 1920, h: 1080 }),
        screen_rect(None).w == screen_size(None).w && screen_rect(None).h == screen_size(None).h,
        size.wf() <==> size.w >= 0 && size.h >= 0,
        screen_rect(Some(size)).wf() <==> size.w >= 0 && size.h >= 0,
{
}

/// The pixels of a rectangle are those between its edges, the left and the top edge among them and
/// the right and the bottom edge not: there are `w` in each row and `h` in each column.
pub proof fn law_pixels_between_edges(rectangle: Rectangle, dx: int, dy: int)
    ensures
        rectangle@.covers(rectangle.loc.x + dx, rectangle.loc.y + dy) <==> 0 <= dx
            && dx < rectangle.size.w && 0 <= dy && dy < rectangle.size.h,
        rectangle@.x == rectangle.loc.x && rectangle@.y == rectangle.loc.y,
        rectangle@.w == rectangle.size.w && rectangle@.h == rectangle.size.h,
{
}

} // verus!
