//! A retained-mode widget layer: components updated from per-frame input,
//! and a texture cache keyed by component identity that spares unchanged
//! widgets from being rasterized again every frame.
//!
//! The library decides; a host carries out. Each frame `Renderer::render`
//! updates the scene and returns the `DrawCommand`s that the host performs on
//! its drawing surface.

mod button;
mod component;
mod error;
mod geometry;
mod identity;
mod renderer;
mod texture;

pub use button::{button_step, Button};
pub use component::Component;
pub use error::RenderError;
pub use geometry::{
    clamp_coord, clamp_extent, Bounds, ComponentProperty, ComponentState, Input, Point,
    MAX_EXTENT, MIN_COORD,
};
pub use identity::button_prefix;
pub use renderer::{
    ids_distinct, law_disabled_entry_kept, law_disabled_is_skipped, law_unchanged_frame_reuses_cache, paint_all, paint_one, settle, spec_background,
    spec_widget_border, spec_widget_fill, Color, DrawCommand, Renderer, Scene,
};
pub use texture::{
    law_create_then_drop_misses, law_lookup_is_stable, lookup, CachedTexture, TextureHandle,
    TextureManager,
};
