use vstd::prelude::*;

use crate::geometry::{Bounds, ComponentProperty, ComponentState, Input};

verus! {

/// What every widget offers the renderer. A widget owns its logical state; the
/// texture cache owns its pixels; the dirty flag and the identity connect them.
pub trait Component: Sized {
    /// The identity: fixed for the component's whole life.
    spec fn spec_id(&self) -> Seq<char>;

    spec fn spec_props(&self) -> ComponentProperty;

    spec fn spec_state(&self) -> ComponentState;

    spec fn spec_bounds(&self) -> Bounds;

    /// The component's own invariant.
    spec fn inv(&self) -> bool;

    /// The component after one frame's input.
    spec fn spec_update(&self, input: Input) -> Self;

    /// The component once the renderer has redrawn it.
    spec fn spec_mark_clean(&self) -> Self;

    /// Updating never changes the identity.
    proof fn lemma_update_keeps_id(&self, input: Input)
        ensures
            self.spec_update(input).spec_id() == self.spec_id(),
    ;

    /// Advances the component by one frame of input. Releasing the pointer
    /// always ends focus; identity and the enabled flag are left alone.
    fn update(&mut self, input: Input)
        ensures
            *final(self) == old(self).spec_update(input),
            old(self).inv() ==> final(self).inv(),
            final(self).spec_id() == old(self).spec_id(),
            final(self).spec_state().is_enabled == old(self).spec_state().is_enabled,
            input.mouse_up ==> !final(self).spec_state().is_focused,
    ;

    /// Clears the dirty flag once a fresh texture stands for the component.
    fn mark_clean(&mut self)
        ensures
            *final(self) == old(self).spec_mark_clean(),
            old(self).inv() ==> final(self).inv(),
            final(self).spec_id() == old(self).spec_id(),
            final(self).spec_props() == old(self).spec_props(),
            final(self).spec_bounds() == old(self).spec_bounds(),
            final(self).spec_state() == (ComponentState {
                is_dirty: false,
                ..old(self).spec_state()
            }),
    ;

    /// Turns the component on or off; a disabled component is not drawn.
    fn set_enabled(&mut self, enabled: bool)
        ensures
            old(self).inv() ==> final(self).inv(),
            final(self).spec_id() == old(self).spec_id(),
            final(self).spec_props() == old(self).spec_props(),
            final(self).spec_bounds() == old(self).spec_bounds(),
            final(self).spec_state() == (ComponentState {
                is_enabled: enabled,
                ..old(self).spec_state()
            }),
    ;

    fn get_id(&self) -> (r: &str)
        ensures
            r@ == self.spec_id(),
    ;

    fn get_props(&self) -> (r: ComponentProperty)
        ensures
            r == self.spec_props(),
    ;

    fn get_state(&self) -> (r: ComponentState)
        ensures
            r == self.spec_state(),
    ;

    fn get_bounds(&self) -> (r: Bounds)
        ensures
            r == self.spec_bounds(),
    ;
}

} // verus!
