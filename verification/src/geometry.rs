use vstd::prelude::*;

verus! {

/// A rectangle of terminal cells: its top left corner and its size.
#[derive(Debug, Clone, Copy, PartialEq, Eq, Structural)]
pub struct Rect {
    pub x: u16,
    pub y: u16,
    pub width: u16,
    pub height: u16,
}

/// `a + b`, or `u16::MAX` where the sum does not fit.
pub open spec fn saturating_add_spec(a: u16, b: u16) -> u16 {
    if a + b > u16::MAX {
        u16::MAX
    } else {
        (a + b) as u16
    }
}

/// `a - b`, or `0` where `b` is larger.
pub open spec fn saturating_sub_spec(a: u16, b: u16) -> u16 {
    if a < b {
        0
    } else {
        (a - b) as u16
    }
}

/// The rectangle that `Rect::new` builds: width and height are cut so that
/// the right and bottom edges stay within `u16`.
pub open spec fn rect_new_spec(x: u16, y: u16, width: u16, height: u16) -> Rect {
    Rect {
        x,
        y,
        width: if width > u16::MAX - x { (u16::MAX - x) as u16 } else { width },
        height: if height > u16::MAX - y { (u16::MAX - y) as u16 } else { height },
    }
}

impl Rect {
    /// The first column right of the rectangle, saturated at `u16::MAX`.
    pub open spec fn right_spec(self) -> u16 {
        saturating_add_spec(self.x, self.width)
    }

    /// The first row below the rectangle, saturated at `u16::MAX`.
    pub open spec fn bottom_spec(self) -> u16 {
        saturating_add_spec(self.y, self.height)
    }

    /// Whether the rectangle covers no cell.
    pub open spec fn is_empty_spec(self) -> bool {
        self.width == 0 || self.height == 0
    }

    /// Whether the right and bottom edges fit in `u16` without saturation.
    pub open spec fn fits(self) -> bool {
        self.x + self.width <= u16::MAX && self.y + self.height <= u16::MAX
    }

    /// Builds a rectangle, cutting width and height so that both edges fit in `u16`.
    pub fn new(x: u16, y: u16, width: u16, height: u16) -> (r: Rect)
        ensures
            r == rect_new_spec(x, y, width, height),
            r.fits(),
    {
        let max_width = u16::MAX - x;
        let max_height = u16::MAX - y;
        let width = if width > max_width { max_width } else { width };
        let height = if height > max_height { max_height } else { height };
        Rect { x, y, width, height }
    }

    /// The empty rectangle at the origin.
    pub fn zero() -> (r: Rect)
        ensures
            r == (Rect { x: 0, y: 0, width: 0, height: 0 }),
    {
        Rect { x: 0, y: 0, width: 0, height: 0 }
    }

    /// The first column right of the rectangle.
    pub fn right(&self) -> (r: u16)
        ensures
            r == self.right_spec(),
    {
        self.x.saturating_add(self.width)
    }

    /// The first row below the rectangle.
    pub fn bottom(&self) -> (r: u16)
        ensures
            r == self.bottom_spec(),
    {
        self.y.saturating_add(self.height)
    }

    /// Whether the rectangle covers no cell.
    pub fn is_empty(&self) -> (r: bool)
        ensures
            r == self.is_empty_spec(),
    {
        self.width == 0 || self.height == 0
    }
}

} // verus!
