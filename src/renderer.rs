use vstd::prelude::*;

use crate::component::Component;
use crate::error::RenderError;
use crate::geometry::{Bounds, Input};
use crate::texture::{CachedTexture, TextureHandle, TextureManager};

verus! {

/// An opaque colour.
#[derive(Debug, Clone, Copy, PartialEq, Eq, Structural)]
pub struct Color {
    pub r: u8,
    pub g: u8,
    pub b: u8,
}

/// The colour a frame is cleared to.
pub open spec fn spec_background() -> Color {
    Color { r: 128, g: 128, b: 128 }
}

/// The colour a widget image is filled with.
pub open spec fn spec_widget_fill() -> Color {
    Color { r: 255, g: 0, b: 0 }
}

/// The colour of a widget image's border.
pub open spec fn spec_widget_border() -> Color {
    Color { r: 0, g: 0, b: 0 }
}

fn background() -> (c: Color)
    ensures
        c == spec_background(),
{
    Color { r: 128, g: 128, b: 128 }
}

fn widget_fill() -> (c: Color)
    ensures
        c == spec_widget_fill(),
{
    Color { r: 255, g: 0, b: 0 }
}

fn widget_border() -> (c: Color)
    ensures
        c == spec_widget_border(),
{
    Color { r: 0, g: 0, b: 0 }
}

/// One instruction for the drawing surface. A frame is carried out by
/// performing its commands in order.
#[derive(Debug, Clone, Copy, PartialEq, Eq, Structural)]
pub enum DrawCommand {
    /// Fill the whole surface with `color`.
    Clear { color: Color },
    /// The image behind `handle` is no longer cached and may be freed.
    Release { handle: TextureHandle },
    /// Make an off-screen render target of `width` by `height` for `handle`,
    /// fill it with `fill` and stroke its outline with `border`.
    Synthesize { handle: TextureHandle, width: u32, height: u32, fill: Color, border: Color },
    /// Composite the image behind `handle` into `dest`.
    Copy { handle: TextureHandle, dest: Bounds },
    /// Show the finished frame.
    Present,
}

/// An ordered collection of components: later ones are painted over earlier
/// ones, and components are updated in this order. No two share an identity.
pub struct Scene<C> {
    components: Vec<C>,
}

/// No two components of `s` share an identity.
pub open spec fn ids_distinct<C: Component>(s: Seq<C>) -> bool {
    forall|i: int, j: int|
        0 <= i < j < s.len() ==> #[trigger] s[i].spec_id() != #[trigger] s[j].spec_id()
}

impl<C: Component> Scene<C> {
    /// The components in paint order.
    pub closed spec fn view(&self) -> Seq<C> {
        self.components@
    }

    pub open spec fn wf(&self) -> bool {
        &&& ids_distinct(self@)
        &&& forall|i: int| 0 <= i < self@.len() ==> #[trigger] self@[i].inv()
    }

    /// An empty scene.
    pub fn new() -> (r: Scene<C>)
        ensures
            r.wf(),
            r@ == Seq::<C>::empty(),
    {
        Scene { components: Vec::new() }
    }

    pub fn len(&self) -> (r: usize)
        ensures
            r == self@.len(),
    {
        self.components.len()
    }

    pub fn component(&self, i: usize) -> (r: &C)
        requires
            i < self@.len(),
        ensures
            *r == self@[i as int],
    {
        &self.components[i]
    }

    /// Appends `component` on top of the others, unless a component of the
    /// scene already has its identity.
    pub fn add_component(&mut self, component: C) -> (r: Result<(), RenderError>)
        requires
            old(self).wf(),
            component.inv(),
        ensures
            final(self).wf(),
            (exists|i: int|
                0 <= i < old(self)@.len() && #[trigger] old(self)@[i].spec_id()
                    == component.spec_id()) ==> r == Err::<(), RenderError>(
                RenderError::IdentityCollision,
            ) && final(self)@ == old(self)@,
            !(exists|i: int|
                0 <= i < old(self)@.len() && #[trigger] old(self)@[i].spec_id()
                    == component.spec_id()) ==> r == Ok::<(), RenderError>(()) && final(self)@
                == old(self)@.push(component),
    {
        let id = component.get_id().to_owned();
        let mut i: usize = 0;
        while i < self.components.len()
            invariant
                self.wf(),
                *self == *old(self),
                id@ == component.spec_id(),
                i <= self@.len(),
                forall|j: int| 0 <= j < i ==> #[trigger] self@[j].spec_id() != component.spec_id(),
            decreases self@.len() - i,
        {
            let other = self.components[i].get_id().to_owned();
            if other == id {
                return Err(RenderError::IdentityCollision);
            }
            i = i + 1;
        }
        self.components.push(component);
        proof {
            let s = self@;
            assert forall|a: int, b: int| 0 <= a < b < s.len() implies #[trigger] s[a].spec_id()
                != #[trigger] s[b].spec_id() by {
                if b < s.len() - 1 {
                    assert(old(self)@[a].spec_id() != old(self)@[b].spec_id());
                } else {
                    assert(old(self)@[a].spec_id() != component.spec_id());
                }
            }
            assert forall|j: int| 0 <= j < s.len() implies #[trigger] s[j].inv() by {
                if j < s.len() - 1 {
                    assert(old(self)@[j].inv());
                }
            }
        }
        Ok(())
    }

    /// Turns the component at `i` on or off.
    pub fn set_enabled(&mut self, i: usize, enabled: bool)
        requires
            old(self).wf(),
            i < old(self)@.len(),
        ensures
            final(self).wf(),
            final(self)@.len() == old(self)@.len(),
            forall|j: int|
                0 <= j < old(self)@.len() && j != i ==> #[trigger] final(self)@[j] == old(self)@[j],
            final(self)@[i as int].spec_id() == old(self)@[i as int].spec_id(),
            final(self)@[i as int].spec_props() == old(self)@[i as int].spec_props(),
            final(self)@[i as int].spec_bounds() == old(self)@[i as int].spec_bounds(),
            final(self)@[i as int].spec_state() == (crate::geometry::ComponentState {
                is_enabled: enabled,
                ..old(self)@[i as int].spec_state()
            }),
    {
        self.components[i].set_enabled(enabled);
        proof {
            let s = self@;
            assert forall|a: int, b: int| 0 <= a < b < s.len() implies #[trigger] s[a].spec_id()
                != #[trigger] s[b].spec_id() by {
                assert(old(self)@[a].spec_id() != old(self)@[b].spec_id());
            }
            assert forall|j: int| 0 <= j < s.len() implies #[trigger] s[j].inv() by {
                assert(old(self)@[j].inv());
            }
        }
    }
}

/// The component as the frame leaves it: redrawn, hence clean, if it was
/// enabled and dirty; otherwise as its update left it.
pub open spec fn settle<C: Component>(u: C) -> C {
    if u.spec_state().is_enabled && u.spec_state().is_dirty {
        u.spec_mark_clean()
    } else {
        u
    }
}

/// What drawing one updated component does, from the cache contents `cache`
/// and the next free slot `next`: the commands it adds and the cache after
/// it. A disabled component touches nothing. An enabled one first loses a
/// stale image if it is dirty, then reuses its cached image, or on a miss has
/// a new one rasterized at its placement's size; the image goes to its bounds.
pub open spec fn paint_one<C: Component>(
    u: C,
    cache: Map<Seq<char>, CachedTexture>,
    next: nat,
) -> Result<(Seq<DrawCommand>, Map<Seq<char>, CachedTexture>, nat), RenderError> {
    let st = u.spec_state();
    let id = u.spec_id();
    if !st.is_enabled {
        Ok((Seq::empty(), cache, next))
    } else {
        let released: Seq<DrawCommand> = if st.is_dirty && cache.contains_key(id) {
            seq![DrawCommand::Release { handle: cache[id].handle }]
        } else {
            Seq::empty()
        };
        let kept = if st.is_dirty {
            cache.remove(id)
        } else {
            cache
        };
        if kept.contains_key(id) {
            Ok((released.push(DrawCommand::Copy { handle: kept[id].handle, dest: u.spec_bounds() }), kept, next))
        } else if u.spec_props().width == 0 || u.spec_props().height == 0 {
            Err(RenderError::InvalidState)
        } else if next >= u64::MAX {
            Err(RenderError::ResourceExhaustion)
        } else {
            let handle = TextureHandle { slot: next as u64 };
            let w = u.spec_props().width;
            let h = u.spec_props().height;
            Ok((
                released + seq![
                    DrawCommand::Synthesize { handle, width: w, height: h, fill: spec_widget_fill(), border: spec_widget_border() },
                    DrawCommand::Copy { handle, dest: u.spec_bounds() },
                ],
                kept.insert(id, CachedTexture { handle, width: w, height: h }),
                next + 1,
            ))
        }
    }
}

/// A component that is disabled after its update is neither drawn nor looked
/// up: it adds no command and leaves the cache and its slots as they were,
/// whatever its focus and dirty flags.
pub proof fn law_disabled_is_skipped<C: Component>(
    c: C,
    input: Input,
    cache: Map<Seq<char>, CachedTexture>,
    next: nat,
)
    requires
        !c.spec_update(input).spec_state().is_enabled,
    ensures
        paint_one(c.spec_update(input), cache, next) == Ok::<
            (Seq<DrawCommand>, Map<Seq<char>, CachedTexture>, nat),
            RenderError,
        >((Seq::empty(), cache, next)),
        settle(c.spec_update(input)) == c.spec_update(input),
{
}

/// Updating and drawing `comps` in order with `input`, from the cache contents
/// `cache` and next free slot `next`: the commands, and the cache after them;
/// or the first error met.
pub open spec fn paint_all<C: Component>(
    comps: Seq<C>,
    input: Input,
    cache: Map<Seq<char>, CachedTexture>,
    next: nat,
) -> Result<(Seq<DrawCommand>, Map<Seq<char>, CachedTexture>, nat), RenderError>
    decreases comps.len(),
{
    if comps.len() == 0 {
        Ok((Seq::empty(), cache, next))
    } else {
        match paint_all(comps.drop_last(), input, cache, next) {
            Err(e) => Err(e),
            Ok((cmds, m, n)) => match paint_one(comps.last().spec_update(input), m, n) {
                Err(e) => Err(e),
                Ok((more, m2, n2)) => Ok((cmds + more, m2, n2)),
            },
        }
    }
}

/// Draws scenes through a texture cache that it owns.
pub struct Renderer {
    texture_manager: TextureManager,
}

impl Renderer {
    /// The cache's contents.
    pub closed spec fn cache(&self) -> Map<Seq<char>, CachedTexture> {
        self.texture_manager@
    }

    /// The slot that the cache will issue next.
    pub closed spec fn next_slot(&self) -> nat {
        self.texture_manager.spec_next_slot()
    }

    pub closed spec fn wf(&self) -> bool {
        self.texture_manager.wf()
    }

    pub fn new(texture_manager: TextureManager) -> (r: Renderer)
        requires
            texture_manager.wf(),
        ensures
            r.wf(),
            r.cache() == texture_manager@,
            r.next_slot() == texture_manager.spec_next_slot(),
    {
        Renderer { texture_manager }
    }

    pub fn texture_manager(&self) -> (r: &TextureManager)
        ensures
            r.wf() == self.wf(),
            r@ == self.cache(),
            r.spec_next_slot() == self.next_slot(),
    {
        &self.texture_manager
    }

    /// Forgets every cached image, for a surface that lost its images (one that
    /// failed to carry out a frame): each component is rasterized afresh when
    /// next drawn.
    pub fn discard_textures(&mut self)
        requires
            old(self).wf(),
        ensures
            final(self).wf(),
            final(self).cache() == Map::<Seq<char>, CachedTexture>::empty(),
            final(self).next_slot() == old(self).next_slot(),
    {
        self.texture_manager.clear();
    }

    fn clear(&self, frame: &mut Vec<DrawCommand>)
        ensures
            final(frame)@ == old(frame)@.push(DrawCommand::Clear { color: spec_background() }),
    {
        frame.push(DrawCommand::Clear { color: background() });
    }

    /// Updates each component of `scene` with `input` and draws it, in scene
    /// order, and returns the frame's commands: a clear, what `paint_all`
    /// gives, and a present. An image is rasterized at the size of the
    /// component's placement and composited into its bounds; a component that
    /// was redrawn is marked clean once the whole frame has succeeded. On an
    /// error nothing is to be presented, since none of the frame's commands will
    /// be carried out: the cache is left as it was before the frame, and the components
    /// up to the one that failed keep their update but are not marked clean.
    pub fn render<C: Component>(&mut self, scene: &mut Scene<C>, input: Input) -> (r: Result<
        Vec<DrawCommand>,
        RenderError,
    >)
        requires
            old(self).wf(),
            old(scene).wf(),
        ensures
            final(self).wf(),
            final(scene).wf(),
            final(scene)@.len() == old(scene)@.len(),
            match paint_all(old(scene)@, input, old(self).cache(), old(self).next_slot()) {
                Ok((cmds, m, n)) => {
                    &&& r is Ok
                    &&& r->Ok_0@ == seq![DrawCommand::Clear { color: spec_background() }] + cmds.push(
                        DrawCommand::Present,
                    )
                    &&& final(self).cache() == m
                    &&& final(self).next_slot() == n
                    &&& forall|i: int|
                        0 <= i < old(scene)@.len() ==> #[trigger] final(scene)@[i] == settle(
                            old(scene)@[i].spec_update(input),
                        )
                },
                Err(e) => {
                    &&& r == Err::<Vec<DrawCommand>, RenderError>(e)
                    &&& final(self).cache() == old(self).cache()
                    &&& final(self).next_slot() == old(self).next_slot()
                    &&& exists|k: int|
                        #![trigger paint_all(old(scene)@.subrange(0, k), input, old(self).cache(), old(self).next_slot())]
                        0 <= k < old(scene)@.len() && paint_all(
                            old(scene)@.subrange(0, k),
                            input,
                            old(self).cache(),
                            old(self).next_slot(),
                        ) is Ok && paint_all(
                            old(scene)@.subrange(0, k + 1),
                            input,
                            old(self).cache(),
                            old(self).next_slot(),
                        ) == Err::<(Seq<DrawCommand>, Map<Seq<char>, CachedTexture>, nat), RenderError>(e)
                            && forall|j: int|
                            0 <= j < old(scene)@.len() ==> #[trigger] final(scene)@[j] == if j <= k {
                                old(scene)@[j].spec_update(input)
                            } else {
                                old(scene)@[j]
                            }
                },
            },
    {
        let mut frame: Vec<DrawCommand> = Vec::new();
        self.clear(&mut frame);
        let ghost old_comps = scene@;
        let ghost cache0 = self.texture_manager@;
        let ghost next0 = self.texture_manager.spec_next_slot();
        let saved = self.texture_manager.snapshot();
        let n = scene.components.len();
        let mut i: usize = 0;
        proof {
            assert(old_comps.subrange(0, 0) =~= Seq::<C>::empty());
            assert(frame@.drop_first() =~= Seq::<DrawCommand>::empty());
        }
        while i < n
            invariant
                self.wf(),
                n == old_comps.len(),
                scene@.len() == n,
                i <= n,
                old_comps == old(scene)@,
                cache0 == old(self).cache(),
                next0 == old(self).next_slot(),
                ids_distinct(old_comps),
                forall|j: int| 0 <= j < n ==> #[trigger] old_comps[j].inv(),
                forall|j: int| i <= j < n ==> #[trigger] scene@[j] == old_comps[j],
                saved.wf(),
                saved@ == cache0,
                saved.spec_next_slot() == next0,
                forall|j: int| 0 <= j < i ==> #[trigger] scene@[j] == old_comps[j].spec_update(input),
                forall|j: int| 0 <= j < n ==> #[trigger] scene@[j].spec_id() == old_comps[j].spec_id(),
                forall|j: int| 0 <= j < n ==> #[trigger] scene@[j].inv(),
                paint_all(old_comps.subrange(0, i as int), input, cache0, next0) == Ok::<
                    (Seq<DrawCommand>, Map<Seq<char>, CachedTexture>, nat),
                    RenderError,
                >(
                    (
                        frame@.drop_first(),
                        self.texture_manager@,
                        self.texture_manager.spec_next_slot(),
                    ),
                ),
                frame@.len() >= 1,
                frame@[0] == (DrawCommand::Clear { color: spec_background() }),
            decreases n - i,
        {
            let ghost frame_before = frame@;
            let ghost m = self.texture_manager@;
            let ghost nx = self.texture_manager.spec_next_slot();
            proof {
                assert(old_comps.subrange(0, i + 1).drop_last() =~= old_comps.subrange(0, i as int));
                assert(old_comps.subrange(0, i + 1).last() == old_comps[i as int]);
            }
            scene.components[i].update(input);
            let ghost u = scene.components@[i as int];
            let state = scene.components[i].get_state();
            if state.is_enabled {
                let id = scene.components[i].get_id();
                if state.is_dirty {
                    match self.texture_manager.drop_texture(id) {
                        Some(handle) => frame.push(DrawCommand::Release { handle }),
                        None => {},
                    }
                }
                match self.texture_manager.get_texture(id) {
                    Some(handle) => {
                        frame.push(DrawCommand::Copy { handle, dest: scene.components[i].get_bounds() });
                    },
                    None => {
                        let props = scene.components[i].get_props();
                        match self.texture_manager.create_texture(id, props.width, props.height) {
                            Ok(handle) => {
                                frame.push(
                                    DrawCommand::Synthesize {
                                        handle,
                                        width: props.width,
                                        height: props.height,
                                        fill: widget_fill(),
                                        border: widget_border(),
                                    },
                                );
                                frame.push(DrawCommand::Copy { handle, dest: scene.components[i].get_bounds() });
                            },
                            Err(e) => {
                                self.texture_manager = saved;
                                proof {
                                    assert(paint_all(old_comps.subrange(0, i as int), input, cache0, next0) is Ok);
                                    assert(paint_all(old_comps.subrange(0, i as int + 1), input, cache0, next0) == Err::<
                                        (Seq<DrawCommand>, Map<Seq<char>, CachedTexture>, nat),
                                        RenderError,
                                    >(e));
                                    assert(paint_one(u, m, nx) == Err::<
                                        (Seq<DrawCommand>, Map<Seq<char>, CachedTexture>, nat),
                                        RenderError,
                                    >(e));
                                    lemma_paint_all_err_extends(old_comps, input, cache0, next0, i as int + 1);
                                    lemma_same_ids_stay_distinct(old_comps, scene@);
                                }
                                return Err(e);
                            },
                        }
                    },
                }
                proof {
                    let added = frame@.subrange(frame_before.len() as int, frame@.len() as int);
                    let released: Seq<DrawCommand> = if state.is_dirty && m.contains_key(id@) {
                        seq![DrawCommand::Release { handle: m[id@].handle }]
                    } else {
                        Seq::empty()
                    };
                    let kept = if state.is_dirty {
                        m.remove(id@)
                    } else {
                        m
                    };
                    if kept.contains_key(id@) {
                        assert(added =~= released.push(DrawCommand::Copy { handle: kept[id@].handle, dest: u.spec_bounds() }));
                    } else {
                        let handle = TextureHandle { slot: nx as u64 };
                        assert(added =~= released + seq![
                            DrawCommand::Synthesize { handle, width: u.spec_props().width, height: u.spec_props().height, fill: spec_widget_fill(), border: spec_widget_border() },
                            DrawCommand::Copy { handle, dest: u.spec_bounds() },
                        ]);
                    }
                    assert(paint_one(u, m, nx) == Ok::<(Seq<DrawCommand>, Map<Seq<char>, CachedTexture>, nat), RenderError>((added, self.texture_manager@, self.texture_manager.spec_next_slot())));
                }
            } else {
                assert(frame@.subrange(frame_before.len() as int, frame@.len() as int) =~= Seq::<DrawCommand>::empty());
            }
            proof {
                assert(frame@.drop_first() =~= frame_before.drop_first() + frame@.subrange(
                    frame_before.len() as int,
                    frame@.len() as int,
                ));
            }
            i = i + 1;
        }
        frame.push(DrawCommand::Present);
        let mut i: usize = 0;
        while i < n
            invariant
                n == old_comps.len(),
                scene@.len() == n,
                i <= n,
                old_comps == old(scene)@,
                forall|j: int|
                    0 <= j < i ==> #[trigger] scene@[j] == settle(old_comps[j].spec_update(input)),
                forall|j: int| i <= j < n ==> #[trigger] scene@[j] == old_comps[j].spec_update(input),
                forall|j: int| 0 <= j < n ==> #[trigger] scene@[j].spec_id() == old_comps[j].spec_id(),
                forall|j: int| 0 <= j < n ==> #[trigger] scene@[j].inv(),
            decreases n - i,
        {
            let state = scene.components[i].get_state();
            if state.is_enabled && state.is_dirty {
                scene.components[i].mark_clean();
            }
            i = i + 1;
        }
        proof {
            assert(old_comps.subrange(0, n as int) =~= old_comps);
            lemma_same_ids_stay_distinct(old_comps, scene@);
        }
        Ok(frame)
    }
}

/// A frame in which every enabled component comes out of its update clean and
/// already cached only composites: it rasterizes nothing, issues no slot and
/// leaves the cache as it was.
pub proof fn law_unchanged_frame_reuses_cache<C: Component>(
    comps: Seq<C>,
    input: Input,
    cache: Map<Seq<char>, CachedTexture>,
    next: nat,
)
    requires
        forall|i: int|
            0 <= i < comps.len() && (#[trigger] comps[i].spec_update(input)).spec_state().is_enabled
                ==> !comps[i].spec_update(input).spec_state().is_dirty && cache.contains_key(
                comps[i].spec_update(input).spec_id(),
            ),
    ensures
        paint_all(comps, input, cache, next) is Ok,
        ({
            let (cmds, m, n) = paint_all(comps, input, cache, next)->Ok_0;
            &&& m == cache
            &&& n == next
            &&& forall|k: int| 0 <= k < cmds.len() ==> #[trigger] cmds[k] is Copy
        }),
    decreases comps.len(),
{
    if comps.len() > 0 {
        let rest = comps.drop_last();
        assert forall|i: int|
            0 <= i < rest.len() && (#[trigger] rest[i].spec_update(input)).spec_state().is_enabled
                implies !rest[i].spec_update(input).spec_state().is_dirty && cache.contains_key(
            rest[i].spec_update(input).spec_id(),
        ) by {
            assert(rest[i] == comps[i]);
        }
        law_unchanged_frame_reuses_cache(rest, input, cache, next);
        let (cmds, m, n) = paint_all(rest, input, cache, next)->Ok_0;
        let u = comps.last().spec_update(input);
        assert(comps[comps.len() - 1].spec_update(input) == u);
        let (more, m2, n2) = paint_one(u, m, n)->Ok_0;
        let all = cmds + more;
        assert forall|k: int| 0 <= k < all.len() implies #[trigger] all[k] is Copy by {
            if k >= cmds.len() {
                assert(more[k - cmds.len()] is Copy);
            }
        }
    }
}

/// Drawing `u` leaves the entry of every other identity as it was.
proof fn lemma_paint_one_keeps_other_keys<C: Component>(
    u: C,
    cache: Map<Seq<char>, CachedTexture>,
    next: nat,
    key: Seq<char>,
)
    requires
        paint_one(u, cache, next) is Ok,
        key != u.spec_id() || !u.spec_state().is_enabled,
    ensures
        ({
            let m = paint_one(u, cache, next)->Ok_0.1;
            &&& m.contains_key(key) == cache.contains_key(key)
            &&& cache.contains_key(key) ==> m[key] == cache[key]
        }),
{
}

/// A frame leaves the cache entry of `key` as it was when every component
/// that has that identity after its update is disabled.
proof fn lemma_paint_all_keeps_key<C: Component>(
    comps: Seq<C>,
    input: Input,
    cache: Map<Seq<char>, CachedTexture>,
    next: nat,
    key: Seq<char>,
)
    requires
        paint_all(comps, input, cache, next) is Ok,
        forall|j: int|
            0 <= j < comps.len() && (#[trigger] comps[j].spec_update(input)).spec_id() == key
                ==> !comps[j].spec_update(input).spec_state().is_enabled,
    ensures
        ({
            let m = paint_all(comps, input, cache, next)->Ok_0.1;
            &&& m.contains_key(key) == cache.contains_key(key)
            &&& cache.contains_key(key) ==> m[key] == cache[key]
        }),
    decreases comps.len(),
{
    if comps.len() > 0 {
        let rest = comps.drop_last();
        assert forall|j: int|
            0 <= j < rest.len() && (#[trigger] rest[j].spec_update(input)).spec_id() == key
                implies !rest[j].spec_update(input).spec_state().is_enabled by {
            assert(rest[j] == comps[j]);
        }
        lemma_paint_all_keeps_key(rest, input, cache, next, key);
        let (cmds, m, n) = paint_all(rest, input, cache, next)->Ok_0;
        let u = comps.last().spec_update(input);
        assert(comps[comps.len() - 1].spec_update(input) == u);
        lemma_paint_one_keeps_other_keys(u, m, n, key);
    }
}

/// In a scene of distinct identities, a component that is disabled after its
/// update adds no command to the frame and leaves its own cache entry as it
/// was, stale or not, while the frame goes on for the others.
pub proof fn law_disabled_entry_kept<C: Component>(
    comps: Seq<C>,
    input: Input,
    cache: Map<Seq<char>, CachedTexture>,
    next: nat,
    k: int,
)
    requires
        ids_distinct(comps),
        0 <= k < comps.len(),
        !comps[k].spec_update(input).spec_state().is_enabled,
        paint_all(comps, input, cache, next) is Ok,
    ensures
        paint_one(comps[k].spec_update(input), cache, next) == Ok::<
            (Seq<DrawCommand>, Map<Seq<char>, CachedTexture>, nat),
            RenderError,
        >((Seq::empty(), cache, next)),
        ({
            let id = comps[k].spec_id();
            let m = paint_all(comps, input, cache, next)->Ok_0.1;
            &&& m.contains_key(id) == cache.contains_key(id)
            &&& cache.contains_key(id) ==> m[id] == cache[id]
        }),
{
    let key = comps[k].spec_id();
    assert forall|j: int|
        0 <= j < comps.len() && (#[trigger] comps[j].spec_update(input)).spec_id() == key
            implies !comps[j].spec_update(input).spec_state().is_enabled by {
        comps[j].lemma_update_keeps_id(input);
        comps[k].lemma_update_keeps_id(input);
        if j != k {
            if j < k {
                assert(comps[j].spec_id() != comps[k].spec_id());
            } else {
                assert(comps[k].spec_id() != comps[j].spec_id());
            }
        }
    }
    lemma_paint_all_keeps_key(comps, input, cache, next, key);
}

/// Identities that stay in place keep the scene's identities distinct.
proof fn lemma_same_ids_stay_distinct<C: Component>(before: Seq<C>, after: Seq<C>)
    requires
        ids_distinct(before),
        after.len() == before.len(),
        forall|j: int| 0 <= j < before.len() ==> #[trigger] after[j].spec_id() == before[j].spec_id(),
    ensures
        ids_distinct(after),
{
    assert forall|a: int, b: int| 0 <= a < b < after.len() implies #[trigger] after[a].spec_id()
        != #[trigger] after[b].spec_id() by {
        assert(before[a].spec_id() != before[b].spec_id());
    }
}

/// An error met while drawing the first `k` components is the error of the
/// whole frame.
proof fn lemma_paint_all_err_extends<C: Component>(
    comps: Seq<C>,
    input: Input,
    cache: Map<Seq<char>, CachedTexture>,
    next: nat,
    k: int,
)
    requires
        0 <= k <= comps.len(),
        paint_all(comps.subrange(0, k), input, cache, next) is Err,
    ensures
        paint_all(comps, input, cache, next) == paint_all(comps.subrange(0, k), input, cache, next),
    decreases comps.len() - k,
{
    if k < comps.len() {
        assert(comps.subrange(0, k + 1).drop_last() =~= comps.subrange(0, k));
        lemma_paint_all_err_extends(comps, input, cache, next, k + 1);
    } else {
        assert(comps.subrange(0, k) =~= comps);
    }
}

} // verus!
