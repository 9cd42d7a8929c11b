use mezon_ui::dm_row::{dm_avatar, DmAvatar};
use mezon_ui::records::DirectKind;

fn named(src: Option<&str>, fallback: Option<&str>) -> DmAvatar {
    DmAvatar::Named { src: src.map(str::to_string), fallback: fallback.map(str::to_string) }
}

#[test]
fn groups_without_a_picture_show_the_group_icon() {
    assert_eq!(dm_avatar(DirectKind::Group, "", "raw.png"), DmAvatar::GroupIcon);
    assert_eq!(dm_avatar(DirectKind::Group, "p.png", ""), named(Some("p.png"), None));
}

#[test]
fn proxied_pictures_fall_back_to_the_original() {
    assert_eq!(dm_avatar(DirectKind::Dm, "proxy/a.png", "a.png"), named(Some("proxy/a.png"), Some("a.png")));
    assert_eq!(dm_avatar(DirectKind::Dm, "a.png", "a.png"), named(Some("a.png"), None));
    assert_eq!(dm_avatar(DirectKind::Dm, "", "a.png"), named(Some("a.png"), None));
    assert_eq!(dm_avatar(DirectKind::Dm, "", ""), named(None, None));
}
