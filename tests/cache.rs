use widget_cache::{RenderError, TextureHandle, TextureManager};

#[test]
fn get_twice_names_same_image() {
    let mut c = TextureManager::new();
    let h = c.create_texture("BUTTON-A", 120, 50).unwrap();
    let first = c.get_texture("BUTTON-A");
    let second = c.get_texture("BUTTON-A");
    assert_eq!(first, Some(h));
    assert_eq!(first, second);
}

#[test]
fn create_drop_get_misses() {
    let mut c = TextureManager::new();
    let h = c.create_texture("BUTTON-A", 120, 50).unwrap();
    assert_eq!(c.drop_texture("BUTTON-A"), Some(h));
    assert_eq!(c.get_texture("BUTTON-A"), None);
}

#[test]
fn drop_is_idempotent() {
    let mut c = TextureManager::new();
    c.create_texture("k", 2, 2).unwrap();
    assert!(c.drop_texture("k").is_some());
    assert_eq!(c.drop_texture("k"), None);
    assert_eq!(c.drop_texture("never"), None);
}

#[test]
fn create_replaces_and_issues_fresh_handles() {
    let mut c = TextureManager::new();
    let a = c.create_texture("a", 4, 4).unwrap();
    let b = c.create_texture("b", 4, 4).unwrap();
    let a2 = c.create_texture("a", 8, 8).unwrap();
    assert_eq!(a, TextureHandle { slot: 0 });
    assert_eq!(b, TextureHandle { slot: 1 });
    assert_eq!(a2, TextureHandle { slot: 2 });
    assert_eq!(c.get_texture("a"), Some(a2));
    assert_eq!(c.get_texture("b"), Some(b));
}

#[test]
fn create_with_zero_size_is_invalid() {
    let mut c = TextureManager::new();
    assert_eq!(c.create_texture("a", 0, 5), Err(RenderError::InvalidState));
    assert_eq!(c.create_texture("a", 5, 0), Err(RenderError::InvalidState));
    assert_eq!(c.get_texture("a"), None);
    assert_eq!(c.create_texture("a", 5, 5), Ok(TextureHandle { slot: 0 }));
}

#[test]
fn clear_forgets_everything_but_keeps_slots_retired() {
    let mut c = TextureManager::new();
    c.create_texture("a", 1, 1).unwrap();
    c.create_texture("b", 1, 1).unwrap();
    c.clear();
    assert_eq!(c.get_texture("a"), None);
    assert_eq!(c.get_texture("b"), None);
    assert_eq!(c.create_texture("a", 1, 1), Ok(TextureHandle { slot: 2 }));
}
