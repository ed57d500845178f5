use gloss::selection::{
    accessibility_text_suffices, clipboard_units_text, copied_selection_text, needs_copy_fallback,
};

#[test]
fn embedded_object_placeholder_requests_copy_semantics() {
    assert!(needs_copy_fallback("any color you want \u{fffc}"));
}

#[test]
fn plain_and_replacement_text() {
    assert!(!needs_copy_fallback("any color you want"));
    assert!(needs_copy_fallback("broken \u{fffd} text"));
    assert!(accessibility_text_suffices(Some("plain")));
    assert!(!accessibility_text_suffices(Some("obj \u{fffc}")));
    assert!(!accessibility_text_suffices(None));
}

#[test]
fn blank_copies_are_dropped() {
    assert_eq!(copied_selection_text(Some("  \n".to_owned())), None);
    assert_eq!(copied_selection_text(Some(" word ".to_owned())), Some(" word ".to_owned()));
    assert_eq!(copied_selection_text(None), None);
}

#[test]
fn clipboard_text_ends_at_the_first_nul() {
    assert_eq!(clipboard_units_text(&[104, 105, 0, 120]), "hi");
    assert_eq!(clipboard_units_text(&[104, 105]), "hi");
    assert_eq!(clipboard_units_text(&[0xD800, 0x41]), "\u{fffd}A");
}
