use widget_cache::{
    Bounds, Button, Color, Component, DrawCommand, Input,
    Point, RenderError, Renderer, Scene, TextureHandle, TextureManager,
};

fn idle() -> Input {
    Input { mouse_pos: Point::new(0, 0), mouse_down: false, mouse_up: false, mouse_held: false }
}

fn at(x: i32, y: i32, down: bool, up: bool) -> Input {
    Input { mouse_pos: Point::new(x, y), mouse_down: down, mouse_up: up, mouse_held: down }
}

fn grey() -> Color {
    Color { r: 128, g: 128, b: 128 }
}

fn synth(slot: u64, w: u32, h: u32) -> DrawCommand {
    DrawCommand::Synthesize {
        handle: TextureHandle { slot },
        width: w,
        height: h,
        fill: Color { r: 255, g: 0, b: 0 },
        border: Color { r: 0, g: 0, b: 0 },
    }
}

fn copy(slot: u64, x: i32, y: i32, w: u32, h: u32) -> DrawCommand {
    DrawCommand::Copy { handle: TextureHandle { slot }, dest: Bounds { x, y, w, h } }
}

fn count_synth(frame: &[DrawCommand]) -> usize {
    frame.iter().filter(|c| matches!(c, DrawCommand::Synthesize { .. })).count()
}

fn two_button_scene() -> Scene<Button> {
    let mut scene = Scene::new();
    scene.add_component(Button::new(50, 50, 120, 50)).unwrap();
    scene.add_component(Button::new(150, 250, 120, 50)).unwrap();
    scene
}

#[test]
fn two_buttons_synthesize_once_then_hit() {
    let mut scene = two_button_scene();
    let mut renderer = Renderer::new(TextureManager::new());

    let first = renderer.render(&mut scene, idle()).unwrap();
    assert_eq!(
        first,
        vec![
            DrawCommand::Clear { color: grey() },
            synth(0, 120, 50),
            copy(0, 50, 50, 120, 50),
            synth(1, 120, 50),
            copy(1, 150, 250, 120, 50),
            DrawCommand::Present,
        ]
    );
    assert_eq!(count_synth(&first), 2);
    for i in 0..scene.len() {
        assert!(!scene.component(i).get_state().is_dirty);
    }

    let second = renderer.render(&mut scene, idle()).unwrap();
    assert_eq!(
        second,
        vec![
            DrawCommand::Clear { color: grey() },
            copy(0, 50, 50, 120, 50),
            copy(1, 150, 250, 120, 50),
            DrawCommand::Present,
        ]
    );
    assert_eq!(count_synth(&second), 0);
    let cache = renderer.texture_manager();
    assert_eq!(cache.get_texture(scene.component(0).get_id()), Some(TextureHandle { slot: 0 }));
    assert_eq!(cache.get_texture(scene.component(1).get_id()), Some(TextureHandle { slot: 1 }));
}

#[test]
fn dragged_button_is_redrawn_at_new_place() {
    let mut scene = two_button_scene();
    let mut renderer = Renderer::new(TextureManager::new());
    renderer.render(&mut scene, idle()).unwrap();
    renderer.render(&mut scene, at(60, 60, true, false)).unwrap();
    let frame = renderer.render(&mut scene, at(100, 70, false, false)).unwrap();
    assert_eq!(
        frame,
        vec![
            DrawCommand::Clear { color: grey() },
            DrawCommand::Release { handle: TextureHandle { slot: 0 } },
            synth(2, 120, 50),
            copy(2, 100, 70, 120, 50),
            copy(1, 150, 250, 120, 50),
            DrawCommand::Present,
        ]
    );
    assert_eq!(scene.component(0).get_props().x, 100);
    assert!(!scene.component(0).get_state().is_dirty);
}

#[test]
fn disabled_focused_dirty_button_is_skipped() {
    let mut scene = two_button_scene();
    let mut renderer = Renderer::new(TextureManager::new());
    renderer.render(&mut scene, idle()).unwrap();
    renderer.render(&mut scene, at(60, 60, true, false)).unwrap();
    assert!(scene.component(0).get_state().is_focused);

    scene.set_enabled(0, false);
    let frame = renderer.render(&mut scene, at(90, 80, false, false)).unwrap();
    let b0 = scene.component(0);
    assert!(b0.get_state().is_focused);
    assert!(b0.get_state().is_dirty);
    assert_eq!(
        frame,
        vec![DrawCommand::Clear { color: grey() }, copy(1, 150, 250, 120, 50), DrawCommand::Present]
    );
    assert_eq!(renderer.texture_manager().get_texture(b0.get_id()), Some(TextureHandle { slot: 0 }));
}

#[test]
fn zero_sized_button_fails_frame_and_keeps_cache() {
    let mut scene = Scene::new();
    scene.add_component(Button::new(0, 0, 10, 10)).unwrap();
    let mut renderer = Renderer::new(TextureManager::new());
    renderer.render(&mut scene, idle()).unwrap();
    scene.add_component(Button::new(20, 20, 0, 10)).unwrap();
    scene.add_component(Button::new(40, 40, 10, 10)).unwrap();

    assert_eq!(renderer.render(&mut scene, idle()), Err(RenderError::InvalidState));
    let cache = renderer.texture_manager();
    assert_eq!(cache.get_texture(scene.component(0).get_id()), Some(TextureHandle { slot: 0 }));
    assert_eq!(cache.get_texture(scene.component(2).get_id()), None);
    assert!(scene.component(2).get_state().is_dirty);
    assert_eq!(renderer.render(&mut scene, idle()), Err(RenderError::InvalidState));
}

#[test]
fn failed_frame_leaves_dragged_button_dirty() {
    let mut scene = Scene::new();
    scene.add_component(Button::new(50, 50, 120, 50)).unwrap();
    let mut renderer = Renderer::new(TextureManager::new());
    renderer.render(&mut scene, idle()).unwrap();
    renderer.render(&mut scene, at(60, 60, true, false)).unwrap();
    scene.add_component(Button::new(300, 300, 10, 0)).unwrap();

    assert_eq!(renderer.render(&mut scene, at(90, 90, false, false)), Err(RenderError::InvalidState));
    assert!(scene.component(0).get_state().is_dirty);
    assert_eq!(scene.component(0).get_props().x, 90);
    assert_eq!(
        renderer.texture_manager().get_texture(scene.component(0).get_id()),
        Some(TextureHandle { slot: 0 })
    );
}

#[test]
fn discarded_textures_are_synthesized_again() {
    let mut scene = two_button_scene();
    let mut renderer = Renderer::new(TextureManager::new());
    renderer.render(&mut scene, idle()).unwrap();
    renderer.discard_textures();
    let frame = renderer.render(&mut scene, idle()).unwrap();
    assert_eq!(count_synth(&frame), 2);
    assert_eq!(frame[1], synth(2, 120, 50));
}

#[test]
fn shared_identity_is_refused() {
    let mut scene = Scene::new();
    assert_eq!(scene.add_component(Button::with_id("same".to_string(), 0, 0, 4, 4)), Ok(()));
    assert_eq!(scene.add_component(Button::with_id("other".to_string(), 9, 9, 4, 4)), Ok(()));
    assert_eq!(
        scene.add_component(Button::with_id("same".to_string(), 5, 5, 4, 4)),
        Err(RenderError::IdentityCollision)
    );
    assert_eq!(scene.len(), 2);
    assert_eq!(scene.component(1).get_id(), "other");
}
