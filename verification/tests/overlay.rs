use gloss::overlay::{
    action_menu_placement, capture_error_message, ActionMenu, CaptureSlot, CaptureGuard, CaptureOutcome,
    CloseStep, MenuPlacement, OpenStep,
};

#[test]
fn capture_guard_rejects_overlapping_capture() {
    let mut slot = CaptureSlot::new();
    let first = CaptureGuard::acquire(&mut slot).expect("first capture should acquire the guard");
    assert!(CaptureGuard::acquire(&mut slot).is_none());
    first.release(&mut slot);
    assert!(CaptureGuard::acquire(&mut slot).is_some());
}

#[test]
fn menu_opens_above_near_the_work_area_bottom() {
    assert_eq!(action_menu_placement(900, 208, 0, 1040, 12), MenuPlacement::Above);
    assert_eq!(action_menu_placement(100, 208, 0, 1040, 12), MenuPlacement::Below);
    assert_eq!(MenuPlacement::Above.name(), "above");
    assert_eq!(MenuPlacement::Below.name(), "below");
}

#[test]
fn menu_open_and_close_steps() {
    let mut menu = ActionMenu::new();
    assert!(matches!(menu.begin_open(60, 60), OpenStep::Measure));
    match menu.begin_open(300, 60) {
        OpenStep::Refuse { message } => {
            assert_eq!(message, "Gloss cannot open the action menu in the current view.")
        }
        _ => panic!("a window that is not at the toolbar height refuses to open the menu"),
    }
    menu.mark_open(MenuPlacement::Above);
    assert!(matches!(
        menu.begin_open(208, 60),
        OpenStep::AlreadyOpen { placement: MenuPlacement::Above }
    ));
    assert!(matches!(
        menu.begin_close(208, 208),
        CloseStep::Collapse { placement: MenuPlacement::Above }
    ));
    assert!(matches!(
        menu.begin_close(60, 208),
        CloseStep::AlreadyCollapsed { placement: MenuPlacement::Below }
    ));
}

#[test]
fn capture_outcomes_give_overlay_errors() {
    assert_eq!(capture_error_message(CaptureOutcome::Captured), None);
    assert_eq!(
        capture_error_message(CaptureOutcome::Failed("no text".to_owned())),
        Some("no text".to_owned())
    );
    assert_eq!(
        capture_error_message(CaptureOutcome::Crashed("panic".to_owned())),
        Some("Windows UI Automation stopped unexpectedly: panic".to_owned())
    );
    assert_eq!(
        capture_error_message(CaptureOutcome::TimedOut),
        Some("Selection capture timed out. Try the shortcut again.".to_owned())
    );
}

#[test]
fn card_stays_inside_the_work_area() {
    let inputs = gloss::overlay::CardInputs {
        menu_was_open: true,
        menu_was_above: true,
        x: 1500,
        y: 800,
        width: 440,
        height: 208,
        toolbar_height: 60,
        menu_height: 208,
        card_width: 440,
        card_height: 540,
        work_x: 0,
        work_y: 0,
        work_width: 1920,
        work_height: 1040,
        edge: 12,
    };
    let g = gloss::overlay::card_geometry(&inputs);
    assert_eq!((g.width, g.height), (440, 540));
    assert_eq!(g.x, 1920 - 440 - 12);
    assert_eq!(g.y, 1040 - 540 - 12);
    assert_eq!(gloss::overlay::collapsed_y(700, 208, 60), 848);
    assert_eq!(
        gloss::overlay::open_geometry(900, 208, 60, 0, 1040, 12),
        (MenuPlacement::Above, 752)
    );
    assert_eq!(gloss::overlay::collapsed_y(752, 208, 60), 900);
}
