use soorat::window::WindowConfig;
use soorat::egui_bridge::ViewportSize;

#[test]
fn window_config_default() {
    let cfg = WindowConfig::default();
    assert_eq!(cfg.width, 1280);
    assert_eq!(cfg.height, 720);
    assert_eq!(cfg.title, "Soorat");
    assert!(cfg.vsync);
    assert!(!cfg.fullscreen);
    assert!(cfg.resizable);
}

#[test]
fn window_config_new() {
    let cfg = WindowConfig::new("My Game", 1920, 1080);
    assert_eq!(cfg.title, "My Game");
    assert_eq!(cfg.width, 1920);
}

#[test]
fn window_config_fullscreen_resizable() {
    let mut cfg = WindowConfig::default();
    assert!(!cfg.fullscreen);
    assert!(cfg.resizable);
    cfg.fullscreen = true;
    cfg.resizable = false;
    assert!(cfg.fullscreen);
    assert!(!cfg.resizable);
}

#[test]
fn window_config_clone_eq() {
    let a = WindowConfig::new("Test", 800, 600);
    let b = a.clone();
    assert_eq!(a, b);
}

#[test]
fn window_config_new_keeps_defaults() {
    let cfg = WindowConfig::new("Zero", 100, 0);
    assert_eq!(cfg.height, 0);
    assert!(cfg.vsync && !cfg.fullscreen && cfg.resizable);
}

#[test]
fn viewport_needs_resize() {
    let v = ViewportSize::new(800, 600);
    assert!(!v.needs_resize(800, 600));
    assert!(v.needs_resize(1024, 768));
}

#[test]
fn viewport_needs_resize_one_dimension() {
    let v = ViewportSize::new(800, 600);
    assert!(v.needs_resize(800, 601));
    assert!(v.needs_resize(0, 600));
    assert_eq!(v.width, 800);
    assert_eq!(v.height, 600);
}
