use vstd::prelude::*;

verus! {

/// A named rectangular part of a frame.
#[derive(Clone, Copy, Debug, PartialEq, Eq, Structural)]
pub enum Region {
    Top,
    Bottom,
    Left,
    Right,
    Full,
}

/// A half-open window of pixel columns `[x_start, x_end)` and rows `[y_start, y_end)`.
#[derive(Clone, Copy, Debug, PartialEq, Eq, Structural)]
pub struct Rect {
    pub x_start: usize,
    pub x_end: usize,
    pub y_start: usize,
    pub y_end: usize,
}

/// `floor(2n/3)`, the first row or column of the bottom or right third.
pub open spec fn two_thirds(n: int) -> int {
    2 * n / 3
}

impl Rect {
    /// The window lies inside a `width` by `height` frame.
    pub open spec fn within(self, width: int, height: int) -> bool {
        &&& self.x_start <= self.x_end <= width
        &&& self.y_start <= self.y_end <= height
    }
}

impl Region {
    /// The window that this region covers in a `width` by `height` frame.
    pub open spec fn spec_rect(self, width: int, height: int) -> (int, int, int, int) {
        match self {
            Region::Top => (0, width, 0, height / 3),
            Region::Bottom => (0, width, two_thirds(height), height),
            Region::Left => (0, width / 3, 0, height),
            Region::Right => (two_thirds(width), width, 0, height),
            Region::Full => (0, width, 0, height),
        }
    }

    /// The region called `name` in configuration, if there is one.
    pub open spec fn named(name: Seq<char>) -> Option<Region> {
        if name == "top"@ {
            Some(Region::Top)
        } else if name == "bottom"@ {
            Some(Region::Bottom)
        } else if name == "left"@ {
            Some(Region::Left)
        } else if name == "right"@ {
            Some(Region::Right)
        } else if name == "full"@ {
            Some(Region::Full)
        } else {
            None
        }
    }

    /// Resolves the window of this region in a `width` by `height` frame.
    pub fn rect(&self, width: usize, height: usize) -> (r: Rect)
        ensures
            (r.x_start as int, r.x_end as int, r.y_start as int, r.y_end as int)
                == self.spec_rect(width as int, height as int),
            r.within(width as int, height as int),
    {
        match self {
            Region::Top => Rect { x_start: 0, x_end: width, y_start: 0, y_end: height / 3 },
            Region::Bottom => Rect {
                x_start: 0,
                x_end: width,
                y_start: two_thirds_of(height),
                y_end: height,
            },
            Region::Left => Rect { x_start: 0, x_end: width / 3, y_start: 0, y_end: height },
            Region::Right => Rect {
                x_start: two_thirds_of(width),
                x_end: width,
                y_start: 0,
                y_end: height,
            },
            Region::Full => Rect { x_start: 0, x_end: width, y_start: 0, y_end: height },
        }
    }

    /// Looks a region up by its configuration name
    /// (`top`, `bottom`, `left`, `right` or `full`).
    pub fn parse(name: &str) -> (r: Option<Region>)
        ensures
            r == Region::named(name@),
    {
        let s = name.to_owned();
        if s == String::from_str("top") {
            Some(Region::Top)
        } else if s == String::from_str("bottom") {
            Some(Region::Bottom)
        } else if s == String::from_str("left") {
            Some(Region::Left)
        } else if s == String::from_str("right") {
            Some(Region::Right)
        } else if s == String::from_str("full") {
            Some(Region::Full)
        } else {
            None
        }
    }
}

/// `floor(2n/3)` without forming `2n`.
fn two_thirds_of(n: usize) -> (r: usize)
    ensures
        r as int == two_thirds(n as int),
        r <= n,
{
    let third = n / 3;
    let rest = n % 3;
    proof {
        assert(2 * (n as int) / 3 == 2 * third + (2 * rest) / 3) by (nonlinear_arith)
            requires
                third == n / 3,
                rest == n % 3,
        ;
    }
    2 * third + (2 * rest) / 3
}

} // verus!
