use kernel::desktop::compositor::Compositor;
use kernel::desktop::input::InputRouter;
use kernel::desktop::window_server::{Rect, Surface, SurfaceId};

#[test]
fn test_compositor_creation() {
    let _compositor = Compositor::new(800, 600);
}

#[test]
fn test_input_router() {
    let router = InputRouter::new();
    assert_eq!(router.last_mouse_x, 0);
    assert_eq!(router.last_mouse_y, 0);
}

#[test]
fn test_rect_contains() {
    let rect = Rect::new(0, 0, 100, 100);
    assert!(rect.contains(50, 50));
    assert!(!rect.contains(100, 100));
}

#[test]
fn test_rect_intersects() {
    let a = Rect::new(0, 0, 100, 100);
    let b = Rect::new(50, 50, 100, 100);
    assert!(a.intersects(&b));
    let c = Rect::new(200, 200, 100, 100);
    assert!(!a.intersects(&c));
}

#[test]
fn test_surface_pixel() {
    let mut surface = Surface::new(SurfaceId(1), 100, 100);
    surface.set_pixel(10, 20, 0xFF0000FF);
    assert_eq!(surface.get_pixel(10, 20), 0xFF0000FF);
}
