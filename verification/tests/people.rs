use mezon_ui::people::{avatar_color, first_upper_char, name_initials, FriendPickRow, AVATAR_COLORS, avatar_content, AvatarContent};
use mezon_ui::records::UserId;

fn row(name: &str, username: &str) -> FriendPickRow {
    FriendPickRow {
        user_id: UserId(1),
        key: "friend-1".to_string(),
        name: name.to_string(),
        username: username.to_string(),
        avatar_src: String::new(),
        avatar_raw: String::new(),
        name_lc: name.to_lowercase(),
        username_lc: username.to_lowercase(),
    }
}

#[test]
fn empty_query_matches_everything() {
    assert!(row("Alice", "alice").matches_lowercase_query(""));
}

#[test]
fn matches_display_name_and_username_case_insensitively() {
    let row = row("Alice Nguyen", "alice99");
    assert!(row.matches_lowercase_query("nguyen"));
    assert!(row.matches_lowercase_query("alice9"));
    assert!(!row.matches_lowercase_query("bob"));
}

#[test]
fn a_new_row_is_keyed_by_user_and_searched_lower_case() {
    let r = FriendPickRow::new(UserId(-42), "ÉLISE".to_string(), "Elise_1".to_string(), String::new(), String::new());
    assert_eq!(r.key, "friend--42");
    assert_eq!(r.name_lc, "élise");
    assert!(r.matches_lowercase_query("élis"));
    assert!(r.matches_lowercase_query("elise_1"));
}

#[test]
fn initials_are_the_upper_case_first_letter() {
    assert_eq!(name_initials("alice"), "A");
    assert_eq!(name_initials("ßtraße"), "S");
    assert_eq!(name_initials(""), "?");
    assert_eq!(first_upper_char("éa"), Some('É'));
    assert_eq!(first_upper_char(""), None);
}

#[test]
fn avatar_colour_follows_the_initial() {
    assert_eq!(avatar_color("alice"), AVATAR_COLORS[('A' as u32 % 7) as usize]);
    assert_eq!(avatar_color(""), AVATAR_COLORS[0]);
}

#[test]
fn avatars_prefer_pictures_then_initials() {
    assert_eq!(avatar_content(true, Some("a.png"), None), AvatarContent::Anonymous);
    assert_eq!(
        avatar_content(false, Some("proxy/a.png"), Some("a.png")),
        AvatarContent::Image { src: "proxy/a.png".to_string(), retry: Some("a.png".to_string()) }
    );
    assert_eq!(
        avatar_content(false, Some("a.png"), Some("a.png")),
        AvatarContent::Image { src: "a.png".to_string(), retry: None }
    );
    assert_eq!(
        avatar_content(false, Some("a.png"), Some("")),
        AvatarContent::Image { src: "a.png".to_string(), retry: None }
    );
    assert_eq!(avatar_content(false, None, Some("a.png")), AvatarContent::Initials);
}
