use widget_cache::{Bounds, Button, Component, ComponentState, Input, Point};

fn input_at(x: i32, y: i32, down: bool, up: bool) -> Input {
    Input { mouse_pos: Point::new(x, y), mouse_down: down, mouse_up: up, mouse_held: down }
}

#[test]
fn release_clears_focus_from_any_state() {
    let mut b = Button::new(50, 50, 120, 50);
    b.update(input_at(60, 60, true, false));
    assert!(b.get_state().is_focused);
    b.update(input_at(700, 700, false, true));
    assert!(!b.get_state().is_focused);

    let mut idle = Button::new(50, 50, 120, 50);
    idle.update(input_at(60, 60, false, true));
    assert!(!idle.get_state().is_focused);
}

#[test]
fn release_wins_over_press_in_one_frame() {
    let mut b = Button::new(50, 50, 120, 50);
    b.update(input_at(60, 60, true, true));
    assert!(!b.get_state().is_focused);
}

#[test]
fn press_inside_bounds_focuses() {
    let mut b = Button::new(50, 50, 120, 50);
    b.update(input_at(60, 60, true, false));
    assert!(b.get_state().is_focused);
}

#[test]
fn press_outside_bounds_does_not_focus() {
    let mut b = Button::new(50, 50, 120, 50);
    b.update(input_at(300, 300, true, false));
    assert!(!b.get_state().is_focused);
    assert_eq!(b.get_props().x, 50);
}

#[test]
fn drag_tracks_pointer_and_marks_dirty() {
    let mut b = Button::new(50, 50, 120, 50);
    b.update(input_at(60, 60, true, false));
    b.mark_clean();
    let mut last_x = b.get_props().x;
    let mut last_cursor = 60;
    for x in [60, 80, 100, 150, 200] {
        b.mark_clean();
        b.update(input_at(x, 60, false, false));
        let props = b.get_props();
        assert_eq!(props.x, x);
        assert_eq!(props.y, 60);
        assert!(b.get_state().is_dirty);
        assert!(b.get_state().is_focused);
        if x != 60 {
            assert_eq!(props.x - last_x, x - last_cursor);
        }
        assert_eq!(b.get_bounds(), Bounds::new(x, 60, 120, 50));
        last_x = props.x;
        last_cursor = x;
    }
    assert_eq!(b.get_props().x, 200);
    assert_eq!(b.get_props().width, 120);
}

#[test]
fn press_outside_focused_button_leaves_it_in_place() {
    let mut b = Button::new(50, 50, 120, 50);
    b.update(input_at(60, 60, true, false));
    b.mark_clean();
    b.update(input_at(300, 300, true, false));
    assert!(b.get_state().is_focused);
    assert!(!b.get_state().is_dirty);
    assert_eq!(b.get_props().x, 50);
    assert_eq!(b.get_bounds(), Bounds::new(50, 50, 120, 50));
}

#[test]
fn idle_button_ignores_pointer_motion() {
    let mut b = Button::new(50, 50, 120, 50);
    b.mark_clean();
    b.update(input_at(200, 60, false, false));
    assert_eq!(b.get_props().x, 50);
    assert!(!b.get_state().is_dirty);
}

#[test]
fn update_is_idempotent_for_same_input() {
    let mut a = Button::new(50, 50, 120, 50);
    a.update(input_at(60, 60, true, false));
    let drag = input_at(-90, 400, false, false);
    a.update(drag);
    let once = (a.get_props(), a.get_state(), a.get_bounds());
    a.update(drag);
    assert_eq!((a.get_props(), a.get_state(), a.get_bounds()), once);
}

#[test]
fn disabled_button_keeps_focus_until_release() {
    let mut b = Button::new(50, 50, 120, 50);
    b.update(input_at(60, 60, true, false));
    b.set_enabled(false);
    b.update(input_at(90, 90, false, false));
    assert!(b.get_state().is_focused);
    assert!(!b.get_state().is_enabled);
    b.update(input_at(90, 90, false, true));
    assert!(!b.get_state().is_focused);
}

#[test]
fn new_button_starts_enabled_dirty_unfocused() {
    let b = Button::new(5, 6, 7, 8);
    assert_eq!(
        b.get_state(),
        ComponentState { is_enabled: true, is_dirty: true, is_focused: false }
    );
    assert_eq!(b.get_bounds(), Bounds { x: 5, y: 6, w: 7, h: 8 });
}

#[test]
fn button_identity_is_prefixed_ulid() {
    let a = Button::new(0, 0, 1, 1);
    let b = Button::default();
    assert!(a.get_id().starts_with("BUTTON-"));
    assert_eq!(a.get_id().len(), 33);
    assert_eq!(b.get_id().len(), 33);
    assert_ne!(a.get_id(), b.get_id());
}

#[test]
fn bounds_contain_half_open() {
    let r = Bounds::new(1, 2, 3, 4);
    assert!(r.contains_point(Point::new(1, 2)));
    assert!(!r.contains_point(Point::new(0, 1)));
    assert!(r.contains_point(Point::new(3, 5)));
    assert!(!r.contains_point(Point::new(4, 6)));
    assert!(!r.contains_point(Point::new(4, 2)));
}

#[test]
fn bounds_clamp_size_and_position() {
    let r = Bounds::new(i32::MAX, i32::MIN, 0, u32::MAX);
    assert_eq!(r, Bounds { x: 1073741823, y: -1073741824, w: 1, h: 1073741823 });
    let mut m = Bounds::new(0, 0, 10, 10);
    m.reposition(Point::new(i32::MIN, 7));
    assert_eq!(m, Bounds { x: -1073741824, y: 7, w: 10, h: 10 });
}
