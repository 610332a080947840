use nkdhr_ui::action::default_bindings::{default_compositor_bindings, directional_keys};
use nkdhr_ui::action::defaults::built_in_compositor_catalog;
use nkdhr_ui::action::ident::{normalize_key, validate_identifier};
use nkdhr_ui::strings::decimal_text;

#[test]
fn trimming_removes_unicode_white_space_at_both_ends() {
    assert_eq!(normalize_key("\u{3000} Key \t"), "key");
    assert_eq!(normalize_key("   "), "");
    assert_eq!(normalize_key("  Escape "), "escape");
    assert_eq!(decimal_text(10), "10");
    assert_eq!(decimal_text(0), "0");
}

#[test]
fn identifiers_are_lowercase_segments() {
    assert!(validate_identifier("action", "canvas.window-close").is_ok());
    assert!(validate_identifier("action", "Canvas").is_err());
    assert!(validate_identifier("action", "canvas..x").is_err());
    assert!(validate_identifier("action", "-canvas").is_err());
    assert!(validate_identifier("action", "").is_err());
    assert!(validate_identifier("action", &"a".repeat(129)).is_err());
}

#[test]
fn built_in_catalog_and_defaults_have_the_documented_shape() {
    let catalog = built_in_compositor_catalog();
    assert_eq!(catalog.descriptors().len(), 15);
    let defaults = default_compositor_bindings("Escape", "Tab", "o");
    assert_eq!(defaults.bindings.len(), 88);
    assert_eq!(defaults.bindings[0].id, "overview-toggle");
    assert_eq!(defaults.bindings[87].id, "touchpad-three-finger-pinch");
    assert_eq!(directional_keys()[4], ("h", "h", "left"));
}
