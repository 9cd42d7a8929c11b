use mezon_ui::profile_popup::{status_durations, status_options, Presence, StatusChange, StatusMenu};

#[test]
fn the_menu_offers_four_presences_and_six_durations() {
    assert_eq!(status_options(), vec![Presence::Online, Presence::Idle, Presence::Dnd, Presence::Invisible]);
    let durations = status_durations();
    assert_eq!(durations.len(), 6);
    assert_eq!(durations[0], ("userProfile.statusProfile.statusDuration.for30Minutes", 30, false));
    assert_eq!(durations[5], ("userProfile.statusProfile.statusDuration.forever", 0, true));
}

#[test]
fn online_applies_at_once_others_expand_durations() {
    let mut menu = StatusMenu::new(Presence::Idle, String::new());
    menu.toggle_menu();
    assert!(menu.menu_open);
    assert_eq!(menu.pick_status(Presence::Dnd), None);
    assert_eq!(menu.duration_for, Some(Presence::Dnd));
    assert_eq!(menu.pick_status(Presence::Dnd), None);
    assert_eq!(menu.duration_for, None);
    assert_eq!(
        menu.pick_status(Presence::Online),
        Some(StatusChange { status: Presence::Online, minutes: 0, until_turn_on: true })
    );
    assert!(!menu.menu_open);
    assert_eq!(menu.status, Presence::Online);
}

#[test]
fn picking_a_duration_closes_the_menu() {
    let mut menu = StatusMenu::new(Presence::Online, String::new());
    menu.toggle_menu();
    menu.pick_status(Presence::Idle);
    let change = menu.apply_status(Presence::Idle, 60, false);
    assert_eq!(change, StatusChange { status: Presence::Idle, minutes: 60, until_turn_on: false });
    assert!(!menu.menu_open);
    assert_eq!(menu.duration_for, None);
}

#[test]
fn escape_closes_one_layer_at_a_time() {
    let mut menu = StatusMenu::new(Presence::Online, String::new());
    menu.toggle_menu();
    menu.pick_status(Presence::Invisible);
    assert!(!menu.cancel());
    assert!(menu.menu_open);
    assert_eq!(menu.duration_for, None);
    assert!(!menu.cancel());
    assert!(!menu.menu_open);
    assert!(menu.cancel());
}

#[test]
fn syncing_reports_changes() {
    let mut menu = StatusMenu::new(Presence::Online, "busy".to_string());
    assert!(!menu.sync_status(Presence::Online, "busy".to_string()));
    assert!(menu.sync_status(Presence::Dnd, "busy".to_string()));
    assert!(menu.sync_status(Presence::Dnd, String::new()));
    assert_eq!(menu.custom_status, "");
}
