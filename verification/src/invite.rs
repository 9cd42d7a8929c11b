//! Invite and add-friend pages: decoding the contact carried by a friend
//! link, what the page shows of it, the link its QR code encodes, and the
//! joining flow of a clan invite.

use vstd::prelude::*;

use base64::Engine;

use crate::chars::{chars_of, push_str_chars, string_from_chars};
use crate::command_palette::items::{uppercase, uppercase_of};
use crate::formatting::{parse_i64, parse_i64_spec};
use crate::records::{ChannelId, ClanId, UserId};

verus! {

/// The bytes of standard (padded) base64 text, none when it is malformed.
pub uninterp spec fn base64_decoded_of(input: Seq<u8>) -> Option<Seq<u8>>;

/// The value of an ASCII hexadecimal digit (either case).
pub open spec fn hex_digit(b: u8) -> Option<u8> {
    if 0x30 <= b <= 0x39 {
        Some((b - 0x30) as u8)
    } else if 0x41 <= b <= 0x46 {
        Some((b - 0x41 + 10) as u8)
    } else if 0x61 <= b <= 0x66 {
        Some((b - 0x61 + 10) as u8)
    } else {
        None
    }
}

/// Percent-decoding of bytes: `%` followed by two hexadecimal digits
/// becomes the byte they spell; every other byte stays.
pub open spec fn percent_decoded_bytes(b: Seq<u8>) -> Seq<u8>
    decreases b.len(),
{
    if b.len() == 0 {
        Seq::empty()
    } else if b[0] == 0x25 && b.len() >= 3 && hex_digit(b[1]) is Some && hex_digit(b[2]) is Some {
        seq![(hex_digit(b[1])->0 * 16 + hex_digit(b[2])->0) as u8] + percent_decoded_bytes(b.skip(3))
    } else {
        seq![b[0]] + percent_decoded_bytes(b.skip(1))
    }
}

/// The text whose UTF-8 encoding is `b`, none when `b` is no UTF-8.
pub open spec fn utf8_text_of(b: Seq<u8>) -> Option<Seq<char>> {
    if exists|t: Seq<char>| #[trigger] vstd::utf8::encode_utf8(t) == b {
        Some(choose|t: Seq<char>| #[trigger] vstd::utf8::encode_utf8(t) == b)
    } else {
        None
    }
}

/// `Engine::decode` of base64's `STANDARD` engine.
#[verifier::external_body]
fn base64_decode(input: &[u8]) -> (r: Option<Vec<u8>>)
    ensures
        match r {
            Some(v) => base64_decoded_of(input@) == Some(v@),
            None => base64_decoded_of(input@) is None,
        },
{
    match base64::engine::general_purpose::STANDARD.decode(input) {
        Ok(bytes) => Some(bytes),
        Err(_) => None,
    }
}

/// `String::from_utf8` from std: the text the bytes encode in UTF-8, none
/// when they encode none.
#[verifier::external_body]
fn utf8_text(bytes: Vec<u8>) -> (r: Option<String>)
    ensures
        match r {
            Some(s) => vstd::utf8::encode_utf8(s@) == bytes@,
            None => forall|t: Seq<char>| #[trigger] vstd::utf8::encode_utf8(t) != bytes@,
        },
{
    match String::from_utf8(bytes) {
        Ok(text) => Some(text),
        Err(_) => None,
    }
}

/// `percent_decode_str(..).decode_utf8()` from percent-encoding: the
/// text's UTF-8 bytes percent-decoded ([`percent_decoded_bytes`]), read as
/// UTF-8; none when they are no UTF-8.
#[verifier::external_body]
fn percent_decode_text(text: &str) -> (r: Option<String>)
    ensures
        match r {
            Some(s) => vstd::utf8::encode_utf8(s@) == percent_decoded_bytes(vstd::utf8::encode_utf8(text@)),
            None => forall|t: Seq<char>| #[trigger] vstd::utf8::encode_utf8(t)
                != percent_decoded_bytes(vstd::utf8::encode_utf8(text@)),
        },
{
    match percent_encoding::percent_decode_str(text).decode_utf8() {
        Ok(decoded) => Some(decoded.into_owned()),
        Err(_) => None,
    }
}

/// The JSON text of a contact carried by a friend link: base64, then
/// UTF-8, then percent-decoding read as UTF-8.
pub open spec fn contact_text_spec(data: Seq<char>) -> Option<Seq<char>> {
    match base64_decoded_of(vstd::utf8::encode_utf8(data)) {
        None => None,
        Some(bytes) => match utf8_text_of(bytes) {
            None => None,
            Some(_) => utf8_text_of(percent_decoded_bytes(bytes)),
        },
    }
}

pub fn decode_contact_text(data: &str) -> (r: Option<String>)
    ensures
        match r {
            Some(s) => contact_text_spec(data@) == Some(s@),
            None => contact_text_spec(data@) is None,
        },
{
    let bytes = match base64_decode(data.as_bytes()) {
        Some(b) => b,
        None => return None,
    };
    let text = match utf8_text(bytes) {
        Some(t) => t,
        None => return None,
    };
    proof {
        let t = choose|t: Seq<char>| #[trigger] vstd::utf8::encode_utf8(t) == vstd::utf8::encode_utf8(text@);
        vstd::utf8::encode_utf8_decode_utf8(t);
        vstd::utf8::encode_utf8_decode_utf8(text@);
    }
    let r = percent_decode_text(text.as_str());
    proof {
        let p = percent_decoded_bytes(vstd::utf8::encode_utf8(text@));
        if r is Some {
            let u = choose|u: Seq<char>| #[trigger] vstd::utf8::encode_utf8(u) == p;
            vstd::utf8::encode_utf8_decode_utf8(u);
            vstd::utf8::encode_utf8_decode_utf8(r->0@);
        }
    }
    r
}

/// A contact carried by a friend link.
pub struct ContactData {
    pub id: String,
    pub name: String,
    pub avatar: String,
}

/// Whether the viewer can already chat with the link's user.
#[derive(Clone, Copy, Debug, PartialEq, Eq, Structural)]
pub enum Relationship {
    Checking,
    CanChat,
    CanAdd,
}

/// Text with every trailing `/` removed.
pub open spec fn trim_end_slashes(s: Seq<char>) -> Seq<char>
    decreases s.len(),
{
    if s.len() > 0 && s.last() == '/' { trim_end_slashes(s.drop_last()) } else { s }
}

fn push_trimmed(out: &mut Vec<char>, s: &str)
    ensures
        final(out)@ == old(out)@ + trim_end_slashes(s@),
{
    let cs = chars_of(s);
    let mut end: usize = cs.len();
    assert(cs@.take(end as int) =~= cs@);
    while end > 0 && cs[end - 1] == '/'
        invariant
            end <= cs@.len(),
            cs@ == s@,
            trim_end_slashes(cs@.take(end as int)) == trim_end_slashes(s@),
        decreases end,
    {
        assert(cs@.take(end as int).drop_last() =~= cs@.take(end - 1));
        end = end - 1;
    }
    let ghost start = out@;
    let mut i: usize = 0;
    while i < end
        invariant
            i <= end <= cs@.len(),
            out@ == start + cs@.take(i as int),
        decreases end - i,
    {
        out.push(cs[i]);
        i = i + 1;
        assert(out@ =~= start + cs@.take(i as int));
    }
    assert(trim_end_slashes(cs@.take(end as int)) == cs@.take(end as int));
}

/// The user a contact names: its id read as a non-zero `i64`.
pub open spec fn contact_target(contact: Option<ContactData>) -> Option<UserId> {
    match contact {
        Some(c) => match parse_i64_spec(c.id@) {
            Some(v) => if v != 0 { Some(UserId(v as i64)) } else { None },
            None => None,
        },
        None => None,
    }
}

/// The link of a profile: the origin without trailing slashes, `/chat/`,
/// the username, and the contact data when there is one.
pub open spec fn profile_link_spec(origin: Seq<char>, username: Seq<char>, data: Option<Seq<char>>) -> Seq<char> {
    trim_end_slashes(origin) + "/chat/"@ + username + match data {
        Some(d) => "?data="@ + d,
        None => Seq::empty(),
    }
}

/// State of the add-friend page.
pub struct AddFriendState {
    pub username: String,
    pub data: Option<String>,
    pub target: Option<UserId>,
    pub display_name: String,
    pub avatar_url: String,
    pub relationship: Relationship,
}

pub open spec fn opt_seq(o: Option<String>) -> Option<Seq<char>> {
    match o {
        Some(s) => Some(s@),
        None => None,
    }
}

impl AddFriendState {
    pub fn new() -> (r: Self)
        ensures
            r.username@ == Seq::<char>::empty(),
            r.data is None,
            r.target is None,
            r.relationship == Relationship::CanAdd,
    {
        AddFriendState {
            username: String::new(),
            data: None,
            target: None,
            display_name: String::new(),
            avatar_url: String::new(),
            relationship: Relationship::CanAdd,
        }
    }

    /// Takes the route's username and data; returns whether they changed
    /// (and the page must load them).
    pub fn sync_route(&mut self, username: String, data: Option<String>) -> (changed: bool)
        ensures
            changed == !(old(self).username@ == username@ && opt_seq(old(self).data) == opt_seq(data)),
            changed ==> final(self).username@ == username@ && opt_seq(final(self).data) == opt_seq(data),
            !changed ==> final(self).username@ == old(self).username@ && opt_seq(final(self).data) == opt_seq(old(self).data),
    {
        let same_data = match (&self.data, &data) {
            (Some(a), Some(b)) => *a == *b,
            (None, None) => true,
            _ => false,
        };
        if self.username == username && same_data {
            return false;
        }
        self.username = username;
        self.data = data;
        true
    }

    /// Shows the decoded contact: the user it names, its name (else the
    /// username) and avatar; a named user is checked for an existing
    /// friendship, else the page offers to add. Returns the link the QR
    /// code encodes.
    pub fn load(&mut self, contact: Option<ContactData>, origin: &str) -> (link: String)
        ensures
            final(self).username@ == old(self).username@,
            opt_seq(final(self).data) == opt_seq(old(self).data),
            final(self).target == contact_target(contact),
            final(self).display_name@ == (match contact {
                Some(c) => if c.name@.len() > 0 { c.name@ } else { old(self).username@ },
                None => old(self).username@,
            }),
            final(self).avatar_url@ == (match contact {
                Some(c) => c.avatar@,
                None => Seq::<char>::empty(),
            }),
            final(self).relationship == (if contact_target(contact) is Some { Relationship::Checking } else { Relationship::CanAdd }),
            link@ == profile_link_spec(origin@, old(self).username@, opt_seq(old(self).data)),
    {
        let target = match &contact {
            Some(c) => match parse_i64(c.id.as_str()) {
                Some(v) => if v != 0 { Some(UserId(v)) } else { None },
                None => None,
            },
            None => None,
        };
        let (display_name, avatar_url) = match contact {
            Some(c) => (if c.name.as_str().is_empty() { self.username.clone() } else { c.name }, c.avatar),
            None => (self.username.clone(), String::new()),
        };
        self.target = target;
        self.display_name = display_name;
        self.avatar_url = avatar_url;
        let mut link: Vec<char> = Vec::new();
        push_trimmed(&mut link, origin);
        push_str_chars(&mut link, "/chat/");
        push_str_chars(&mut link, self.username.as_str());
        match &self.data {
            Some(d) => {
                push_str_chars(&mut link, "?data=");
                push_str_chars(&mut link, d.as_str());
            },
            None => {},
        }
        assert(link@ =~= profile_link_spec(origin@, old(self).username@, opt_seq(old(self).data)));
        self.relationship = if target.is_some() { Relationship::Checking } else { Relationship::CanAdd };
        string_from_chars(&link)
    }

    /// The friendship check answered: a follower can chat now (the page
    /// says so), anyone else can be added. Returns whether to say so.
    pub fn on_relationship(&mut self, is_follower: bool) -> (announce: bool)
        ensures
            announce == is_follower,
            final(self).relationship == (if is_follower { Relationship::CanChat } else { Relationship::CanAdd }),
            final(self).target == old(self).target,
    {
        self.relationship = if is_follower { Relationship::CanChat } else { Relationship::CanAdd };
        is_follower
    }
}

/// State of the invite page's joining flow.
pub struct InviteFlow {
    pub invite_id: String,
    pub joining: bool,
    pub failed: bool,
}

/// The URL of an invite: the domain without trailing slashes, `/invite/`
/// and the invite id.
pub open spec fn invite_url_spec(domain: Seq<char>, invite_id: Seq<char>) -> Seq<char> {
    trim_end_slashes(domain) + "/invite/"@ + invite_id
}

impl InviteFlow {
    pub fn new() -> (r: Self)
        ensures
            r.invite_id@ == Seq::<char>::empty(),
            !r.joining,
            !r.failed,
    {
        InviteFlow { invite_id: String::new(), joining: false, failed: false }
    }

    /// A new invite in the route resets the flow.
    pub fn sync_route(&mut self, invite_id: String)
        ensures
            final(self).invite_id@ == invite_id@,
            old(self).invite_id@ != invite_id@ ==> !final(self).joining && !final(self).failed,
            old(self).invite_id@ == invite_id@ ==> final(self).joining == old(self).joining && final(self).failed
                == old(self).failed,
    {
        if !(self.invite_id == invite_id) {
            self.invite_id = invite_id;
            self.joining = false;
            self.failed = false;
        }
    }

    /// Starts joining (unless already joining or without a domain): returns
    /// the invite URL to accept.
    pub fn accept(&mut self, domain: Option<&str>) -> (url: Option<String>)
        ensures
            old(self).joining || domain is None ==> url is None && final(self).joining == old(self).joining
                && final(self).failed == old(self).failed,
            !old(self).joining && domain is Some ==> final(self).joining && !final(self).failed && match (url, domain) {
                (Some(u), Some(d)) => u@ == invite_url_spec(d@, old(self).invite_id@),
                _ => false,
            },
            final(self).invite_id@ == old(self).invite_id@,
    {
        if self.joining {
            return None;
        }
        let d = match domain {
            Some(d) => d,
            None => return None,
        };
        let mut url: Vec<char> = Vec::new();
        push_trimmed(&mut url, d);
        push_str_chars(&mut url, "/invite/");
        push_str_chars(&mut url, self.invite_id.as_str());
        self.joining = true;
        self.failed = false;
        Some(string_from_chars(&url))
    }

    /// The join finished: the flow stops joining and records a failure.
    pub fn on_accept_result(&mut self, joined: bool)
        ensures
            !final(self).joining,
            final(self).failed == !joined,
            final(self).invite_id@ == old(self).invite_id@,
    {
        self.joining = false;
        self.failed = !joined;
    }
}


/// Where joining a clan leads: its chat view when the invite names no
/// channel, else the channel.
#[derive(Clone, Copy, Debug, PartialEq, Eq, Structural)]
pub enum ClanDestination {
    ClanChat(ClanId),
    Channel(ClanId, ChannelId),
}

pub fn clan_destination(clan_id: ClanId, channel_id: ChannelId) -> (r: ClanDestination)
    ensures
        channel_id.0 == 0 ==> r == ClanDestination::ClanChat(clan_id),
        channel_id.0 != 0 ==> r == ClanDestination::Channel(clan_id, channel_id),
{
    if channel_id.0 == 0 {
        ClanDestination::ClanChat(clan_id)
    } else {
        ClanDestination::Channel(clan_id, channel_id)
    }
}

/// What the join dialog's accept button does.
#[derive(Debug, PartialEq, Eq)]
pub enum JoinStep {
    /// A join is already under way, or there is no domain: nothing.
    Nothing,
    /// The user is already a member: say so, open the clan, close.
    AlreadyMember,
    /// Accept the invite at this URL.
    Accept(String),
}

impl InviteFlow {
    /// The accept button of the join dialog: nothing while joining; a
    /// member (by the invite or by the clan list) is sent to the clan;
    /// else, with a domain, the invite is accepted as on the invite page.
    pub fn accept_in_dialog(&mut self, already_member: bool, domain: Option<&str>) -> (r: JoinStep)
        ensures
            old(self).joining ==> r == JoinStep::Nothing && final(self).joining == old(self).joining
                && final(self).failed == old(self).failed,
            !old(self).joining && already_member ==> r == JoinStep::AlreadyMember && final(self).joining
                == old(self).joining && final(self).failed == old(self).failed,
            !old(self).joining && !already_member && domain is None ==> r == JoinStep::Nothing
                && final(self).joining == old(self).joining && final(self).failed == old(self).failed,
            !old(self).joining && !already_member && domain is Some ==> final(self).joining && !final(self).failed
                && match (r, domain) {
                (JoinStep::Accept(u), Some(d)) => u@ == invite_url_spec(d@, old(self).invite_id@),
                _ => false,
            },
            final(self).invite_id@ == old(self).invite_id@,
    {
        if self.joining {
            return JoinStep::Nothing;
        }
        if already_member {
            return JoinStep::AlreadyMember;
        }
        match self.accept(domain) {
            Some(url) => JoinStep::Accept(url),
            None => JoinStep::Nothing,
        }
    }
}

/// A character with the Unicode `White_Space` property, as
/// `char::is_whitespace` reads it.
pub open spec fn is_white_space(c: char) -> bool {
    ('\u{9}' <= c <= '\u{d}') || c == ' ' || c == '\u{85}' || c == '\u{a0}' || c == '\u{1680}'
        || ('\u{2000}' <= c <= '\u{200a}') || c == '\u{2028}' || c == '\u{2029}' || c == '\u{202f}'
        || c == '\u{205f}' || c == '\u{3000}'
}

/// Position of the first character of `s` that is not white space.
pub open spec fn first_non_space_from(s: Seq<char>, i: int) -> Option<int>
    decreases s.len() - i,
{
    if i < 0 || i >= s.len() {
        None
    } else if !is_white_space(s[i]) {
        Some(i)
    } else {
        first_non_space_from(s, i + 1)
    }
}

/// What an invite card shows of a clan.
pub struct InviteSummary {
    /// The clan's name, or the default name when it has none.
    pub clan_name: String,
    /// Members, counted as at least one.
    pub member_count: u64,
    /// Whether the member count takes the plural label.
    pub plural: bool,
    /// The badge letter: the name's first non-space character, upper-cased,
    /// or `M`.
    pub initial: String,
}

/// The name an invite card shows: the clan's, else the default one.
pub open spec fn shown_clan_name(details: Option<(Seq<char>, u64)>, default_name: Seq<char>) -> Seq<char> {
    match details {
        Some((name, _)) => if name.len() > 0 { name } else { default_name },
        None => default_name,
    }
}

/// The member count an invite card shows: at least one.
pub open spec fn shown_member_count(details: Option<(Seq<char>, u64)>) -> u64 {
    match details {
        Some((_, n)) => if n > 1 { n } else { 1 },
        None => 1,
    }
}

/// The badge letter of a shown name.
pub open spec fn initial_spec(name: Seq<char>) -> Seq<char> {
    match first_non_space_from(name, 0) {
        Some(i) => uppercase_of(seq![name[i]]),
        None => "M"@,
    }
}

/// What an invite card (the invite page or the join dialog) shows of the
/// loaded invite `details` (clan name and member count), given the
/// translated default clan name.
pub fn invite_summary(details: Option<(&str, u64)>, default_name: &str) -> (r: InviteSummary)
    ensures
        r.clan_name@ == shown_clan_name(
            match details {
                Some((name, n)) => Some((name@, n)),
                None => None,
            },
            default_name@,
        ),
        r.member_count == shown_member_count(match details {
            Some((name, n)) => Some((name@, n)),
            None => None,
        }),
        r.plural == (r.member_count != 1),
        r.initial@ == initial_spec(r.clan_name@),
{
    let clan_name: &str = match details {
        Some((name, _)) => if name.is_empty() { default_name } else { name },
        None => default_name,
    };
    proof {
        assert(clan_name@.len() == 0 <==> clan_name.is_empty());
    }
    let member_count: u64 = match details {
        Some((_, n)) => if n > 1 { n } else { 1 },
        None => 1,
    };
    let cs = chars_of(clan_name);
    let mut i: usize = 0;
    while i < cs.len() && is_white_space_exec(cs[i])
        invariant
            cs@ == clan_name@,
            i <= cs@.len(),
            first_non_space_from(cs@, 0) == first_non_space_from(cs@, i as int),
        decreases cs@.len() - i,
    {
        i = i + 1;
    }
    let initial = if i < cs.len() {
        let c = cs[i];
        let one_char = vec![c];
        assert(one_char@ =~= seq![c]);
        let one = string_from_chars(&one_char);
        uppercase(one.as_str())
    } else {
        proof { reveal_strlit("M"); }
        string_from_chars(&chars_of("M"))
    };
    InviteSummary {
        clan_name: string_from_chars(&cs),
        member_count,
        plural: member_count != 1,
        initial,
    }
}

/// [`is_white_space`].
fn is_white_space_exec(c: char) -> (r: bool)
    ensures
        r == is_white_space(c),
{
    ('\u{9}' <= c && c <= '\u{d}') || c == ' ' || c == '\u{85}' || c == '\u{a0}' || c == '\u{1680}'
        || ('\u{2000}' <= c && c <= '\u{200a}') || c == '\u{2028}' || c == '\u{2029}' || c == '\u{202f}'
        || c == '\u{205f}' || c == '\u{3000}'
}

} // verus!
