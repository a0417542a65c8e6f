use vstd::prelude::*;

verus! {

/// Largest coordinate or size a rectangle may hold; keeps `x + w` inside `i32`.
pub const MAX_EXTENT: i32 = 1073741823;

/// Smallest coordinate a rectangle may hold.
pub const MIN_COORD: i32 = -1073741824;

/// A position in surface coordinates.
#[derive(Debug, Clone, Copy, PartialEq, Eq, Structural)]
pub struct Point {
    pub x: i32,
    pub y: i32,
}

impl Point {
    pub fn new(x: i32, y: i32) -> (r: Point)
        ensures
            r.x == x,
            r.y == y,
    {
        Point { x, y }
    }
}

/// A coordinate brought into `[MIN_COORD, MAX_EXTENT]`.
pub open spec fn clamp_coord(v: int) -> int {
    if v > MAX_EXTENT as int {
        MAX_EXTENT as int
    } else if v < MIN_COORD as int {
        MIN_COORD as int
    } else {
        v
    }
}

/// A size brought into `[1, MAX_EXTENT]`: a rectangle is never empty.
pub open spec fn clamp_extent(v: int) -> int {
    if v == 0 {
        1
    } else if v > MAX_EXTENT as int {
        MAX_EXTENT as int
    } else {
        v
    }
}

fn clamp_position(v: i32) -> (r: i32)
    ensures
        r as int == clamp_coord(v as int),
{
    if v > MAX_EXTENT {
        MAX_EXTENT
    } else if v < MIN_COORD {
        MIN_COORD
    } else {
        v
    }
}

fn clamp_size(v: u32) -> (r: u32)
    ensures
        r as int == clamp_extent(v as int),
{
    if v == 0 {
        1
    } else if v > MAX_EXTENT as u32 {
        MAX_EXTENT as u32
    } else {
        v
    }
}

/// An axis-aligned, non-empty rectangle used both for hit-testing and as the
/// destination of a composite.
#[derive(Debug, Clone, Copy, PartialEq, Eq, Structural)]
pub struct Bounds {
    pub x: i32,
    pub y: i32,
    pub w: u32,
    pub h: u32,
}

impl Bounds {
    /// Coordinates and sizes lie in the clamped ranges.
    pub open spec fn wf(self) -> bool {
        &&& MIN_COORD <= self.x <= MAX_EXTENT
        &&& MIN_COORD <= self.y <= MAX_EXTENT
        &&& 1 <= self.w <= MAX_EXTENT
        &&& 1 <= self.h <= MAX_EXTENT
    }

    /// The rectangle that `new` builds from these values.
    pub open spec fn spec_new(x: i32, y: i32, w: u32, h: u32) -> Bounds {
        Bounds {
            x: clamp_coord(x as int) as i32,
            y: clamp_coord(y as int) as i32,
            w: clamp_extent(w as int) as u32,
            h: clamp_extent(h as int) as u32,
        }
    }

    /// Half-open containment: the right and bottom edges lie outside.
    pub open spec fn spec_contains(self, p: Point) -> bool {
        &&& self.x <= p.x < self.x + self.w
        &&& self.y <= p.y < self.y + self.h
    }

    /// This rectangle moved so that its origin is `p`, clamped.
    pub open spec fn spec_reposition(self, p: Point) -> Bounds {
        Bounds {
            x: clamp_coord(p.x as int) as i32,
            y: clamp_coord(p.y as int) as i32,
            ..self
        }
    }

    /// Builds a rectangle; positions are clamped and a zero size becomes 1.
    pub fn new(x: i32, y: i32, w: u32, h: u32) -> (r: Bounds)
        ensures
            r == Bounds::spec_new(x, y, w, h),
            r.wf(),
    {
        Bounds { x: clamp_position(x), y: clamp_position(y), w: clamp_size(w), h: clamp_size(h) }
    }

    pub fn contains_point(&self, p: Point) -> (r: bool)
        ensures
            r == self.spec_contains(p),
    {
        let px = p.x as i64;
        let py = p.y as i64;
        px >= self.x as i64 && px < self.x as i64 + self.w as i64 && py >= self.y as i64 && py
            < self.y as i64 + self.h as i64
    }

    pub fn reposition(&mut self, p: Point)
        ensures
            *final(self) == old(self).spec_reposition(p),
            old(self).wf() ==> final(self).wf(),
    {
        self.x = clamp_position(p.x);
        self.y = clamp_position(p.y);
    }
}

/// Logical placement and size of a component.
#[derive(Debug, Clone, Copy, PartialEq, Eq, Structural)]
pub struct ComponentProperty {
    pub x: i32,
    pub y: i32,
    pub height: u32,
    pub width: u32,
}

impl Default for ComponentProperty {
    fn default() -> (r: ComponentProperty)
        ensures
            r == (ComponentProperty { x: 0, y: 0, height: 0, width: 0 }),
    {
        ComponentProperty { x: 0, y: 0, height: 0, width: 0 }
    }
}

impl ComponentProperty {
    /// The rectangle that stands for this placement.
    pub open spec fn spec_bounds(self) -> Bounds {
        Bounds::spec_new(self.x, self.y, self.width, self.height)
    }
}

/// Lifecycle flags of a component.
#[derive(Debug, Clone, Copy, PartialEq, Eq, Structural)]
pub struct ComponentState {
    pub is_enabled: bool,
    pub is_dirty: bool,
    pub is_focused: bool,
}

impl Default for ComponentState {
    /// Enabled, dirty (nothing rasterized yet) and not focused.
    fn default() -> (r: ComponentState)
        ensures
            r == (ComponentState { is_enabled: true, is_dirty: true, is_focused: false }),
    {
        ComponentState { is_enabled: true, is_dirty: true, is_focused: false }
    }
}

/// One frame's snapshot of the pointer. `mouse_down` and `mouse_up` hold only
/// on the frame of the transition; `mouse_held` holds while the button is down.
#[derive(Debug, Clone, Copy, PartialEq, Eq, Structural)]
pub struct Input {
    pub mouse_pos: Point,
    pub mouse_down: bool,
    pub mouse_up: bool,
    pub mouse_held: bool,
}

impl Default for Input {
    /// The pointer at the origin, with no button activity.
    fn default() -> (r: Input)
        ensures
            r == (Input {
                mouse_pos: Point { x: 0, y: 0 },
                mouse_down: false,
                mouse_up: false,
                mouse_held: false,
            }),
    {
        Input { mouse_pos: Point { x: 0, y: 0 }, mouse_down: false, mouse_up: false, mouse_held: false }
    }
}

} // verus!
