use mezon_ui::context_menu::{
    probe_item, probe_items, probe_target, quick_reaction_list, set_last_disabled, MenuItem, ProbeAction,
    ProbeError, SubmenuOption,
};

fn option(value: i32, label: &str) -> SubmenuOption {
    SubmenuOption { value, label: label.to_string(), selected: false, disabled: false }
}

fn menu() -> Vec<MenuItem> {
    vec![
        MenuItem::Entry { label: "Reply".to_string(), danger: false, disabled: false },
        MenuItem::ReactionSubmenu { label: "React".to_string() },
        MenuItem::Separator,
        MenuItem::Submenu {
            label: "Mute".to_string(),
            options: vec![option(15, "15 minutes"), option(60, "1 hour")],
            danger: false,
            parent_clickable: false,
        },
        MenuItem::Submenu { label: "Notify".to_string(), options: vec![], danger: true, parent_clickable: true },
        MenuItem::Checkbox { label: "Pin".to_string(), checked: true },
        MenuItem::Entry { label: "Delete".to_string(), danger: true, disabled: true },
    ]
}

#[test]
fn probes_report_kind_label_and_options() {
    let probes = probe_items(&menu());
    let kinds: Vec<&str> = probes.iter().map(|p| p.kind).collect();
    assert_eq!(
        kinds,
        vec!["item", "reaction_submenu", "separator", "submenu", "danger_submenu", "checkbox_on", "danger"]
    );
    assert_eq!(probes[0].label, "Reply");
    assert_eq!(probes[2].label, "");
    assert_eq!(probes[3].options, vec![(15, "15 minutes".to_string()), (60, "1 hour".to_string())]);
    assert!(probes[6].disabled);
    let off = probe_item(&MenuItem::Checkbox { label: "Pin".to_string(), checked: false });
    assert_eq!(off.kind, "checkbox_off");
}

#[test]
fn activation_picks_the_handler() {
    let items = menu();
    assert_eq!(probe_target(&items, 0, None), Ok(ProbeAction::Click));
    assert_eq!(probe_target(&items, 3, None), Ok(ProbeAction::Open));
    assert_eq!(probe_target(&items, 3, Some(60)), Ok(ProbeAction::Select(60)));
    assert_eq!(probe_target(&items, 4, None), Ok(ProbeAction::ParentClick));
    assert_eq!(probe_target(&items, 5, None), Ok(ProbeAction::Click));
}

#[test]
fn activation_refusals_name_the_reason() {
    let items = menu();
    assert_eq!(probe_target(&items, 9, None), Err(ProbeError::NoItem(9)));
    assert_eq!(probe_target(&items, 6, None), Err(ProbeError::Disabled(6)));
    assert_eq!(probe_target(&items, 2, None), Err(ProbeError::Separator(2)));
    assert_eq!(probe_target(&items, 1, None), Err(ProbeError::ReactionSubmenu(1)));
    assert_eq!(
        probe_target(&items, 3, Some(5)),
        Err(ProbeError::NoOption { index: 3, value: 5, expected: vec![15, 60] })
    );
}

#[test]
fn only_a_trailing_entry_takes_the_disabled_flag() {
    let mut items = menu();
    set_last_disabled(&mut items, false);
    assert_eq!(probe_target(&items, 6, None), Ok(ProbeAction::Click));
    let mut tail_checkbox = vec![MenuItem::Checkbox { label: "Pin".to_string(), checked: false }];
    set_last_disabled(&mut tail_checkbox, true);
    assert_eq!(probe_target(&tail_checkbox, 0, None), Ok(ProbeAction::Click));
    let mut empty: Vec<MenuItem> = Vec::new();
    set_last_disabled(&mut empty, true);
    assert!(empty.is_empty());
}

#[test]
fn quick_reactions_keep_four_with_ids() {
    let emojis: Vec<(String, String)> = vec![
        ("1".into(), ":a:".into()),
        ("".into(), ":skip:".into()),
        ("2".into(), ":b:".into()),
        ("3".into(), ":c:".into()),
        ("4".into(), ":d:".into()),
        ("5".into(), ":e:".into()),
    ];
    let kept = quick_reaction_list(emojis);
    let ids: Vec<&str> = kept.iter().map(|e| e.0.as_str()).collect();
    assert_eq!(ids, vec!["1", "2", "3", "4"]);
    assert!(quick_reaction_list(vec![("".into(), "x".into())]).is_empty());
}


#[test]
fn refusals_read_as_sentences() {
    assert_eq!(ProbeError::NoItem(9).message(), "no menu item at index 9");
    assert_eq!(ProbeError::Disabled(6).message(), "menu item at index 6 is disabled");
    assert_eq!(ProbeError::Separator(2).message(), "menu item at index 2 is a separator");
    assert_eq!(ProbeError::ReactionSubmenu(1).message(), "menu item at index 1 is the reaction submenu");
    assert_eq!(
        ProbeError::NoOption { index: 3, value: -5, expected: vec![15, 60] }.message(),
        "submenu at index 3 has no option -5; expected one of [15, 60]"
    );
    assert_eq!(
        ProbeError::NoOption { index: 0, value: 1, expected: vec![] }.message(),
        "submenu at index 0 has no option 1; expected one of []"
    );
}
