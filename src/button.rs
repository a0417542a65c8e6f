use vstd::prelude::*;

use crate::component::Component;
use crate::geometry::{clamp_coord, Bounds, MAX_EXTENT, MIN_COORD, ComponentProperty, ComponentState, Input};
use crate::identity::{button_prefix, new_button_id};

verus! {

/// One frame of a button's behaviour, over its flags, placement and hit
/// rectangle: a release clears focus; otherwise a press inside the rectangle
/// takes focus; otherwise, while focused and with no press this frame, the
/// rectangle moves its origin to the pointer, the placement follows it and the
/// button turns dirty. A press outside a focused button leaves it in place.
pub open spec fn button_step(
    state: ComponentState,
    prop: ComponentProperty,
    boundary: Bounds,
    input: Input,
) -> (ComponentState, ComponentProperty, Bounds) {
    if input.mouse_up {
        (ComponentState { is_focused: false, ..state }, prop, boundary)
    } else if input.mouse_down && boundary.spec_contains(input.mouse_pos) {
        (ComponentState { is_focused: true, ..state }, prop, boundary)
    } else if state.is_focused && !input.mouse_down {
        let b = boundary.spec_reposition(input.mouse_pos);
        (ComponentState { is_dirty: true, ..state }, ComponentProperty { x: b.x, y: b.y, ..prop }, b)
    } else {
        (state, prop, boundary)
    }
}

/// A clickable, draggable rectangle. Pressing inside it takes focus; while
/// focused it follows the pointer; releasing anywhere ends focus.
#[derive(Debug)]
pub struct Button {
    id: String,
    state: ComponentState,
    prop: ComponentProperty,
    boundary: Bounds,
}

impl Default for Button {
    /// A button at the origin with zero size and a fresh identity.
    fn default() -> (r: Button)
        ensures
            r.inv(),
            r.spec_id().len() == 33,
            r.spec_id().subrange(0, 7) == button_prefix(),
            r.spec_state() == (ComponentState { is_enabled: true, is_dirty: true, is_focused: false }),
            r.spec_props() == (ComponentProperty { x: 0, y: 0, height: 0, width: 0 }),
    {
        Button::new(0, 0, 0, 0)
    }
}

impl Component for Button {
    closed spec fn spec_id(&self) -> Seq<char> {
        self.id@
    }

    closed spec fn spec_props(&self) -> ComponentProperty {
        self.prop
    }

    closed spec fn spec_state(&self) -> ComponentState {
        self.state
    }

    closed spec fn spec_bounds(&self) -> Bounds {
        self.boundary
    }

    /// The hit rectangle always matches the placement.
    closed spec fn inv(&self) -> bool {
        &&& self.boundary == self.prop.spec_bounds()
        &&& self.boundary.wf()
    }

    closed spec fn spec_update(&self, input: Input) -> Button {
        let (state, prop, boundary) = button_step(self.state, self.prop, self.boundary, input);
        Button { state, prop, boundary, ..*self }
    }

    closed spec fn spec_mark_clean(&self) -> Button {
        Button { state: ComponentState { is_dirty: false, ..self.state }, ..*self }
    }

    proof fn lemma_update_keeps_id(&self, input: Input) {
    }

    fn update(&mut self, input: Input) {
        if input.mouse_up {
            self.state.is_focused = false;
        } else if input.mouse_down && self.boundary.contains_point(input.mouse_pos) {
            self.state.is_focused = true;
        } else if self.state.is_focused && !input.mouse_down {
            self.boundary.reposition(input.mouse_pos);
            self.prop.x = self.boundary.x;
            self.prop.y = self.boundary.y;
            self.state.is_dirty = true;
        }
    }

    fn mark_clean(&mut self) {
        self.state.is_dirty = false;
    }

    fn set_enabled(&mut self, enabled: bool) {
        self.state.is_enabled = enabled;
    }

    fn get_id(&self) -> (r: &str) {
        self.id.as_str()
    }

    fn get_props(&self) -> (r: ComponentProperty) {
        self.prop
    }

    fn get_state(&self) -> (r: ComponentState) {
        self.state
    }

    fn get_bounds(&self) -> (r: Bounds) {
        self.boundary
    }
}

impl Button {
    /// What `update` and `mark_clean` do to a button, in terms of its views.
    pub proof fn lemma_views(self, input: Input)
        ensures
            ({
                let u = self.spec_update(input);
                (u.spec_state(), u.spec_props(), u.spec_bounds()) == button_step(
                    self.spec_state(),
                    self.spec_props(),
                    self.spec_bounds(),
                    input,
                ) && u.spec_id() == self.spec_id()
            }),
            self.spec_mark_clean().spec_state() == (ComponentState {
                is_dirty: false,
                ..self.spec_state()
            }),
            self.spec_mark_clean().spec_id() == self.spec_id(),
            self.spec_mark_clean().spec_props() == self.spec_props(),
            self.spec_mark_clean().spec_bounds() == self.spec_bounds(),
    {
    }

    /// While focused, a frame with neither a press nor a release moves the
    /// button to the pointer (clamped), keeps it focused and marks it dirty.
    pub proof fn law_drag_follows_pointer(self, input: Input)
        requires
            self.inv(),
            self.spec_state().is_focused,
            !input.mouse_down,
            !input.mouse_up,
        ensures
            ({
                let u = self.spec_update(input);
                &&& u.inv()
                &&& u.spec_props().x == clamp_coord(input.mouse_pos.x as int)
                &&& u.spec_props().y == clamp_coord(input.mouse_pos.y as int)
                &&& u.spec_props().width == self.spec_props().width
                &&& u.spec_props().height == self.spec_props().height
                &&& u.spec_bounds().x == u.spec_props().x
                &&& u.spec_bounds().y == u.spec_props().y
                &&& u.spec_state().is_focused
                &&& u.spec_state().is_dirty
            }),
    {
    }

    /// A button's invariant, spelled out: its hit rectangle is well formed and
    /// is the rectangle of its placement.
    pub proof fn lemma_inv(self)
        requires
            self.inv(),
        ensures
            self.spec_bounds().wf(),
            self.spec_bounds() == self.spec_props().spec_bounds(),
    {
    }

    /// While a focused button is dragged over frames with neither a press nor
    /// a release, its placement moves by exactly as much as the pointer did,
    /// as long as the pointer stays within the coordinate range.
    pub proof fn law_drag_tracks_delta(self, prev: Input, next: Input)
        requires
            self.inv(),
            self.spec_state().is_focused,
            !prev.mouse_down,
            !prev.mouse_up,
            !next.mouse_down,
            !next.mouse_up,
            MIN_COORD <= prev.mouse_pos.x <= MAX_EXTENT,
            MIN_COORD <= prev.mouse_pos.y <= MAX_EXTENT,
            MIN_COORD <= next.mouse_pos.x <= MAX_EXTENT,
            MIN_COORD <= next.mouse_pos.y <= MAX_EXTENT,
        ensures
            ({
                let a = self.spec_update(prev);
                let b = a.spec_update(next);
                &&& b.spec_props().x - a.spec_props().x == next.mouse_pos.x - prev.mouse_pos.x
                &&& b.spec_props().y - a.spec_props().y == next.mouse_pos.y - prev.mouse_pos.y
                &&& b.spec_state().is_focused
                &&& b.spec_state().is_dirty
            }),
    {
        self.law_drag_follows_pointer(prev);
        self.spec_update(prev).law_drag_follows_pointer(next);
    }

    /// Updating twice with the same input leaves the button as updating once.
    pub proof fn law_update_idempotent(self, input: Input)
        requires
            self.inv(),
        ensures
            self.spec_update(input).spec_update(input) == self.spec_update(input),
    {
    }

    /// A button placed at `(x, y)` with the given size; it starts enabled,
    /// dirty and unfocused, under a fresh identity.
    pub fn new(x: i32, y: i32, width: u32, height: u32) -> (r: Button)
        ensures
            r.inv(),
            r.spec_id().len() == 33,
            r.spec_id().subrange(0, 7) == button_prefix(),
            r.spec_state() == (ComponentState { is_enabled: true, is_dirty: true, is_focused: false }),
            r.spec_props() == (ComponentProperty { x, y, height, width }),
            r.spec_bounds() == Bounds::spec_new(x, y, width, height),
    {
        Button::with_id(new_button_id(), x, y, width, height)
    }

    /// A button like `new` gives, under the identity `id` chosen by the caller,
    /// who then answers for its uniqueness.
    pub fn with_id(id: String, x: i32, y: i32, width: u32, height: u32) -> (r: Button)
        ensures
            r.inv(),
            r.spec_id() == id@,
            r.spec_state() == (ComponentState { is_enabled: true, is_dirty: true, is_focused: false }),
            r.spec_props() == (ComponentProperty { x, y, height, width }),
            r.spec_bounds() == Bounds::spec_new(x, y, width, height),
    {
        let prop = ComponentProperty { x, y, height, width };
        let boundary = Bounds::new(x, y, width, height);
        let state = ComponentState::default();
        Button { id, state, prop, boundary }
    }
}

} // verus!
