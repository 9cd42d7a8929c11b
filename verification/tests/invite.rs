use base64::Engine;
use mezon_ui::invite::{
    clan_destination, decode_contact_text, invite_summary, AddFriendState, ClanDestination, ContactData, InviteFlow, JoinStep, Relationship,
};
use mezon_ui::records::{ChannelId, ClanId, UserId};

fn encode(text: &str) -> String {
    base64::engine::general_purpose::STANDARD.encode(text.as_bytes())
}

fn contact(id: &str, name: &str, avatar: &str) -> ContactData {
    ContactData { id: id.to_string(), name: name.to_string(), avatar: avatar.to_string() }
}

#[test]
fn contact_text_is_base64_of_percent_encoded_json() {
    let data = encode("%7B%22id%22%3A%2242%22%2C%22name%22%3A%22An%20Ng%22%7D");
    assert_eq!(decode_contact_text(&data), Some("{\"id\":\"42\",\"name\":\"An Ng\"}".to_string()));
    assert_eq!(decode_contact_text(&encode("plain")), Some("plain".to_string()));
}

#[test]
fn malformed_contact_text_decodes_to_nothing() {
    assert_eq!(decode_contact_text("not base64!"), None);
    let invalid_utf8 = base64::engine::general_purpose::STANDARD.encode([0xff_u8, 0xfe]);
    assert_eq!(decode_contact_text(&invalid_utf8), None);
    assert_eq!(decode_contact_text(&encode("%ff")), None);
}

#[test]
fn route_changes_are_detected() {
    let mut state = AddFriendState::new();
    assert_eq!(state.relationship, Relationship::CanAdd);
    assert!(state.sync_route("bob".to_string(), Some("abc".to_string())));
    assert!(!state.sync_route("bob".to_string(), Some("abc".to_string())));
    assert!(state.sync_route("bob".to_string(), None));
    assert!(state.sync_route("ann".to_string(), None));
    assert_eq!(state.username, "ann");
}

#[test]
fn loading_a_contact_shows_it_and_builds_the_link() {
    let mut state = AddFriendState::new();
    state.sync_route("bob".to_string(), Some("abc".to_string()));
    let link = state.load(Some(contact("42", "Bob B", "https://a/b.png")), "https://mezon.ai//");
    assert_eq!(link, "https://mezon.ai/chat/bob?data=abc");
    assert_eq!(state.target, Some(UserId(42)));
    assert_eq!(state.display_name, "Bob B");
    assert_eq!(state.avatar_url, "https://a/b.png");
    assert_eq!(state.relationship, Relationship::Checking);
    assert!(state.on_relationship(true));
    assert_eq!(state.relationship, Relationship::CanChat);
    assert!(!state.on_relationship(false));
    assert_eq!(state.relationship, Relationship::CanAdd);
}

#[test]
fn a_contact_without_a_user_offers_to_add() {
    let mut state = AddFriendState::new();
    state.sync_route("carol".to_string(), None);
    let link = state.load(Some(contact("0", "", "")), "https://mezon.ai");
    assert_eq!(link, "https://mezon.ai/chat/carol");
    assert_eq!(state.target, None);
    assert_eq!(state.display_name, "carol");
    assert_eq!(state.relationship, Relationship::CanAdd);
    state.load(Some(contact("x1", "C", "")), "o");
    assert_eq!(state.target, None);
    state.load(None, "o");
    assert_eq!(state.display_name, "carol");
}

#[test]
fn joining_an_invite_builds_its_url_once() {
    let mut flow = InviteFlow::new();
    flow.sync_route("inv123".to_string());
    assert_eq!(flow.accept(None), None);
    assert!(!flow.joining);
    assert_eq!(flow.accept(Some("https://mezon.ai/")), Some("https://mezon.ai/invite/inv123".to_string()));
    assert!(flow.joining);
    assert_eq!(flow.accept(Some("https://mezon.ai")), None);
    flow.on_accept_result(false);
    assert!(!flow.joining);
    assert!(flow.failed);
    flow.sync_route("inv123".to_string());
    assert!(flow.failed);
    flow.sync_route("other".to_string());
    assert!(!flow.failed);
}

#[test]
fn the_join_dialog_sends_members_to_the_clan() {
    let mut flow = InviteFlow::new();
    flow.sync_route("abc".to_string());
    assert_eq!(flow.accept_in_dialog(true, Some("https://mezon.ai")), JoinStep::AlreadyMember);
    assert!(!flow.joining);
    assert_eq!(flow.accept_in_dialog(false, None), JoinStep::Nothing);
    assert_eq!(
        flow.accept_in_dialog(false, Some("https://mezon.ai/")),
        JoinStep::Accept("https://mezon.ai/invite/abc".to_string())
    );
    assert_eq!(flow.accept_in_dialog(true, Some("https://mezon.ai")), JoinStep::Nothing);
}

#[test]
fn joining_leads_to_the_channel_or_the_clan_chat() {
    assert_eq!(clan_destination(ClanId(7), ChannelId(0)), ClanDestination::ClanChat(ClanId(7)));
    assert_eq!(clan_destination(ClanId(7), ChannelId(9)), ClanDestination::Channel(ClanId(7), ChannelId(9)));
}

#[test]
fn invite_summary_falls_back_and_counts_at_least_one() {
    let s = invite_summary(Some(("  mezon team", 0)), "A clan");
    assert_eq!(s.clan_name, "  mezon team");
    assert_eq!(s.member_count, 1);
    assert!(!s.plural);
    assert_eq!(s.initial, "M");
    let s = invite_summary(Some(("\u{df}tudio", 12)), "A clan");
    assert_eq!(s.member_count, 12);
    assert!(s.plural);
    assert_eq!(s.initial, "SS");
    let s = invite_summary(Some(("", 3)), "Default clan");
    assert_eq!(s.clan_name, "Default clan");
    assert_eq!(s.initial, "D");
    let s = invite_summary(None, "   ");
    assert_eq!(s.clan_name, "   ");
    assert_eq!(s.member_count, 1);
    assert_eq!(s.initial, "M");
    let s = invite_summary(None, "\u{3000}\u{e9}quipe");
    assert_eq!(s.initial, "\u{c9}");
}

#[test]
fn contact_text_percent_decodes_valid_escapes_only() {
    assert_eq!(decode_contact_text(&encode("a%41%zz%4")), Some("aA%zz%4".to_string()));
    assert_eq!(decode_contact_text(&encode("%7b%22x%22%7D")), Some("{\"x\"}".to_string()));
    assert_eq!(decode_contact_text(&encode("%C3%A9")), Some("\u{e9}".to_string()));
    assert_eq!(decode_contact_text(&encode("%FF")), None);
    assert_eq!(decode_contact_text("not base64!"), None);
}
