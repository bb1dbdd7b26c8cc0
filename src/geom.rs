//! Geometry of layout: sizes, margins, layout spaces, axes and alignment.
use vstd::prelude::*;

verus! {

/// An extent or a position: `x` horizontal, `y` vertical, in layout units.
#[derive(Debug, Clone, Copy, PartialEq, Eq, Structural)]
pub struct Size {
    pub x: u64,
    pub y: u64,
}

impl Size {
    pub fn new(x: u64, y: u64) -> (r: Size)
        ensures
            r.x == x,
            r.y == y,
    {
        Size { x, y }
    }

    pub open spec fn fits_in(self, other: Size) -> bool {
        self.x <= other.x && self.y <= other.y
    }

    pub open spec fn unpadded_spec(self, m: Margins) -> Size {
        Size { x: (self.x - m.left - m.right) as u64, y: (self.y - m.top - m.bottom) as u64 }
    }

    /// The size that is left once the margins are taken off each side.
    pub fn unpadded(self, m: Margins) -> (r: Size)
        requires
            m.fits(self),
        ensures
            r == self.unpadded_spec(m),
    {
        Size { x: self.x - m.left - m.right, y: self.y - m.top - m.bottom }
    }
}

/// The padding on each side of a rectangle.
#[derive(Debug, Clone, Copy, PartialEq, Eq, Structural)]
pub struct Margins {
    pub left: u64,
    pub top: u64,
    pub right: u64,
    pub bottom: u64,
}

impl Margins {
    pub fn new(left: u64, top: u64, right: u64, bottom: u64) -> (r: Margins)
        ensures
            r == (Margins { left, top, right, bottom }),
    {
        Margins { left, top, right, bottom }
    }

    pub fn uniform(v: u64) -> (r: Margins)
        ensures
            r == (Margins { left: v, top: v, right: v, bottom: v }),
    {
        Margins { left: v, top: v, right: v, bottom: v }
    }

    /// Whether these margins leave room inside a rectangle of size `s`.
    pub open spec fn fits(self, s: Size) -> bool {
        self.left + self.right <= s.x && self.top + self.bottom <= s.y
    }
}

/// Whether produced content must fill a space on each axis (`true`) or may
/// shrink to the extent of its content (`false`).
#[derive(Debug, Clone, Copy, PartialEq, Eq, Structural)]
pub struct LayoutExpansion {
    pub horizontal: bool,
    pub vertical: bool,
}

impl LayoutExpansion {
    pub fn new(horizontal: bool, vertical: bool) -> (r: LayoutExpansion)
        ensures
            r.horizontal == horizontal,
            r.vertical == vertical,
    {
        LayoutExpansion { horizontal, vertical }
    }
}

/// A rectangular region that content may be placed into.
#[derive(Debug, Clone, Copy, PartialEq, Eq, Structural)]
pub struct LayoutSpace {
    pub size: Size,
    pub padding: Margins,
    pub expansion: LayoutExpansion,
}

impl LayoutSpace {
    /// The padding fits and leaves a content area of positive extent.
    pub open spec fn valid(self) -> bool {
        &&& self.padding.fits(self.size)
        &&& self.usable_spec().x > 0
        &&& self.usable_spec().y > 0
    }

    pub open spec fn usable_spec(self) -> Size {
        self.size.unpadded_spec(self.padding)
    }

    /// The content area: the size without the padding.
    pub fn usable(&self) -> (r: Size)
        requires
            self.padding.fits(self.size),
        ensures
            r == self.usable_spec(),
    {
        self.size.unpadded(self.padding)
    }


    /// Whether the space is [valid](LayoutSpace::valid).
    pub fn is_valid(&self) -> (r: bool)
        ensures
            r == self.valid(),
    {
        if self.padding.left > self.size.x || self.padding.right > self.size.x - self.padding.left {
            return false;
        }
        if self.padding.top > self.size.y || self.padding.bottom > self.size.y - self.padding.top {
            return false;
        }
        let u = self.usable();
        u.x > 0 && u.y > 0
    }
}

/// A direction of flow.
#[derive(Debug, Clone, Copy, PartialEq, Eq, Structural)]
pub enum Dir {
    LTT,
    RTL,
    TTB,
    BTT,
}

impl Dir {
    pub open spec fn horizontal_spec(self) -> bool {
        self is LTT || self is RTL
    }

    pub open spec fn reversed_spec(self) -> bool {
        self is RTL || self is BTT
    }

    pub fn is_horizontal(self) -> (r: bool)
        ensures
            r == self.horizontal_spec(),
    {
        match self {
            Dir::LTT | Dir::RTL => true,
            _ => false,
        }
    }

    /// Whether the direction runs towards smaller coordinates.
    pub fn is_reversed(self) -> (r: bool)
        ensures
            r == self.reversed_spec(),
    {
        match self {
            Dir::RTL | Dir::BTT => true,
            _ => false,
        }
    }
}

/// The primary axis, along which content is appended, and the secondary
/// axis, along which lines stack.
#[derive(Debug, Clone, Copy, PartialEq, Eq, Structural)]
pub struct LayoutAxes {
    pub primary: Dir,
    pub secondary: Dir,
}

impl LayoutAxes {
    /// One axis is horizontal and the other vertical.
    pub open spec fn valid(self) -> bool {
        self.primary.horizontal_spec() != self.secondary.horizontal_spec()
    }

    pub fn new(primary: Dir, secondary: Dir) -> (r: LayoutAxes)
        requires
            primary.horizontal_spec() != secondary.horizontal_spec(),
        ensures
            r.primary == primary,
            r.secondary == secondary,
            r.valid(),
    {
        LayoutAxes { primary, secondary }
    }

    /// The extent of `s` along the primary axis, then the secondary.
    pub open spec fn generalize_spec(self, s: Size) -> (u64, u64) {
        if self.primary.horizontal_spec() {
            (s.x, s.y)
        } else {
            (s.y, s.x)
        }
    }

    /// The physical size with extent `p` on the primary axis and `s` on the
    /// secondary.
    pub open spec fn specialize_spec(self, p: u64, s: u64) -> Size {
        if self.primary.horizontal_spec() {
            Size { x: p, y: s }
        } else {
            Size { x: s, y: p }
        }
    }

    pub fn generalize(self, s: Size) -> (r: (u64, u64))
        ensures
            r == self.generalize_spec(s),
    {
        if self.primary.is_horizontal() {
            (s.x, s.y)
        } else {
            (s.y, s.x)
        }
    }

    pub fn specialize(self, p: u64, s: u64) -> (r: Size)
        ensures
            r == self.specialize_spec(p, s),
    {
        if self.primary.is_horizontal() {
            Size { x: p, y: s }
        } else {
            Size { x: s, y: p }
        }
    }
}

/// Where content sits along one axis.
#[derive(Debug, Clone, Copy, PartialEq, Eq, Structural)]
pub enum Alignment {
    Start,
    Center,
    End,
}

/// The alignment along the primary and along the secondary axis.
#[derive(Debug, Clone, Copy, PartialEq, Eq, Structural)]
pub struct LayoutAlign {
    pub primary: Alignment,
    pub secondary: Alignment,
}

impl LayoutAlign {
    pub fn new(primary: Alignment, secondary: Alignment) -> (r: LayoutAlign)
        ensures
            r.primary == primary,
            r.secondary == secondary,
    {
        LayoutAlign { primary, secondary }
    }
}

} // verus!
