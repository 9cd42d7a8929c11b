use vstd::prelude::*;
use std::collections::HashSet;

use crate::chars::{
    chars_of, contains_spec, find_byte, find_byte_spec, find_chars, lemma_first_match_from_bounds, lemma_utf8_len_is_byte_len,
    lemma_utf8_len_mono, push_str_chars, string_from_chars, utf8_len, utf8_len_fits,
};
use crate::formatting::{decimal_spec, format_i64, push_decimal, signed_decimal_spec};
use crate::order::stably_sorted;
use super::filter::{recency_keys, sort_items_by_recency};
use crate::records::{direct_channel_type, ChannelId, ChannelType, ClanId, DirectKind, UserId};
use unicode_normalization::UnicodeNormalization;

verus! {

/// The canonical decomposition (NFD) of a character sequence.
pub uninterp spec fn nfd_of(s: Seq<char>) -> Seq<char>;

/// The Unicode upper-case mapping of a character sequence.
pub uninterp spec fn uppercase_of(s: Seq<char>) -> Seq<char>;

/// `UnicodeNormalization::nfd` from unicode-normalization: the characters
/// of the canonical decomposition of `s`.
#[verifier::external_body]
fn nfd_chars(s: &str) -> (r: Vec<char>)
    ensures
        r@ == nfd_of(s@),
{
    s.nfd().collect()
}

/// `str::to_uppercase` from std.
#[verifier::external_body]
pub(crate) fn uppercase(s: &str) -> (r: String)
    ensures
        r@ == uppercase_of(s@),
{
    s.to_uppercase()
}

/// A combining diacritical mark (U+0300 to U+036F).
pub open spec fn is_combining_mark(c: char) -> bool {
    '\u{0300}' <= c <= '\u{036f}'
}

/// Decompose, drop the combining marks, upper-case.
pub open spec fn normalize_spec(v: Seq<char>) -> Seq<char> {
    if v.len() == 0 {
        Seq::empty()
    } else {
        uppercase_of(nfd_of(v).filter(|c: char| !is_combining_mark(c)))
    }
}

/// A separator that search treats as a space.
pub open spec fn is_search_separator(c: char) -> bool {
    c == '-' || c == '_' || c == '+'
}

/// [`normalize_spec`] with `-`, `_` and `+` turned into spaces.
pub open spec fn normalize_search_spec(v: Seq<char>) -> Seq<char> {
    normalize_spec(v).map_values(|c: char| if is_search_separator(c) { ' ' } else { c })
}

/// Folds accents and case away: decomposes, strips combining marks and
/// upper-cases, so that "Hà Nội" becomes "HA NOI".
pub fn normalize_string(value: &str) -> (r: String)
    ensures
        r@ == normalize_spec(value@),
{
    if value.is_empty() {
        return String::new();
    }
    let decomposed = nfd_chars(value);
    let mut kept: Vec<char> = Vec::new();
    let mut i: usize = 0;
    while i < decomposed.len()
        invariant
            i <= decomposed@.len(),
            kept@ == decomposed@.take(i as int).filter(|c: char| !is_combining_mark(c)),
        decreases decomposed@.len() - i,
    {
        let c = decomposed[i];
        proof {
            assert(decomposed@.take(i + 1).drop_last() =~= decomposed@.take(i as int));
            reveal(Seq::filter);
        }
        if !('\u{0300}' <= c && c <= '\u{036f}') {
            kept.push(c);
        }
        i = i + 1;
    }
    assert(decomposed@.take(decomposed@.len() as int) =~= decomposed@);
    let stripped = string_from_chars(&kept);
    uppercase(stripped.as_str())
}

/// [`normalize_string`], with `-`, `_` and `+` read as spaces.
pub fn normalize_search_string(value: &str) -> (r: String)
    ensures
        r@ == normalize_search_spec(value@),
{
    let normalized = normalize_string(value);
    let mut chars = chars_of(normalized.as_str());
    let ghost orig = chars@;
    let mut i: usize = 0;
    while i < chars.len()
        invariant
            i <= chars@.len(),
            orig.len() == chars@.len(),
            forall|j: int| 0 <= j < i ==> chars@[j] == (if is_search_separator(orig[j]) { ' ' } else { orig[j] }),
            forall|j: int| i <= j < chars@.len() ==> chars@[j] == orig[j],
        decreases chars@.len() - i,
    {
        let c = chars[i];
        if c == '-' || c == '_' || c == '+' {
            chars.set(i, ' ');
        }
        i = i + 1;
    }
    assert(chars@ =~= normalize_search_spec(value@));
    string_from_chars(&chars)
}

/// What a palette row stands for.
#[derive(Clone, Copy, Debug, PartialEq, Eq, Structural)]
pub enum PaletteItemKind {
    Channel,
    Direct,
    Member,
}

/// One candidate row of the command palette, with its search keys already
/// normalized.
#[derive(Debug, Clone)]
pub struct PaletteItem {
    pub kind: PaletteItemKind,
    pub label: String,
    pub subtext: String,
    pub avatar: String,
    pub unread_count: u32,
    pub last_sent_timestamp: i64,
    pub last_seen_timestamp: i64,
    pub channel_id: Option<ChannelId>,
    pub clan_id: Option<ClanId>,
    pub user_id: Option<UserId>,
    pub channel_type: Option<ChannelType>,
    /// The channel is private.
    pub private: bool,
    pub dm_kind: Option<DirectKind>,
    pub dm_channel_type: Option<i32>,
    pub filter_prioritize: String,
    pub filter_name: String,
    pub filter_display: String,
    pub filter_blob: String,
}

impl PaletteItem {
    /// Unread: a badge count, or a message sent after the last one seen.
    pub open spec fn unread_spec(&self) -> bool {
        self.unread_count > 0 || (self.last_sent_timestamp > 0 && self.last_seen_timestamp < self.last_sent_timestamp)
    }

    /// A normalized query matches when empty, or when any of the four
    /// search keys contains it.
    pub open spec fn matches_spec(&self, search: Seq<char>) -> bool {
        search.len() == 0
            || contains_spec(self.filter_prioritize@, search)
            || contains_spec(self.filter_name@, search)
            || contains_spec(self.filter_display@, search)
            || contains_spec(self.filter_blob@, search)
    }

    pub fn is_unread(&self) -> (r: bool)
        ensures
            r == self.unread_spec(),
    {
        self.unread_count > 0 || (self.last_sent_timestamp > 0 && self.last_seen_timestamp < self.last_sent_timestamp)
    }

    pub fn matches_search(&self, search: &str) -> (r: bool)
        ensures
            r == self.matches_spec(search@),
    {
        if search.is_empty() {
            return true;
        }
        let needle = chars_of(search);
        find_chars(&chars_of(self.filter_prioritize.as_str()), &needle).is_some()
            || find_chars(&chars_of(self.filter_name.as_str()), &needle).is_some()
            || find_chars(&chars_of(self.filter_display.as_str()), &needle).is_some()
            || find_chars(&chars_of(self.filter_blob.as_str()), &needle).is_some()
    }
}

/// A direct conversation as the palette reads it from the store.
pub struct DirectChannelRecord {
    pub id: ChannelId,
    pub kind: DirectKind,
    pub label: String,
    /// Avatar URL ready for display, empty without an avatar.
    pub avatar: String,
    pub peer_user_id: Option<UserId>,
    pub peer_username: String,
    /// The peer's username in the users directory, where the directory is
    /// loaded and knows the peer.
    pub directory_username: Option<String>,
    pub unread_count: u32,
    pub last_sent_timestamp: i64,
    pub last_seen_timestamp: i64,
}

/// A clan channel as the palette reads it from the store.
pub struct ChannelRecord {
    pub id: ChannelId,
    pub clan_id: ClanId,
    pub name: String,
    pub channel_type: ChannelType,
    pub private: bool,
    pub badge_count: u32,
    pub last_sent_timestamp: i64,
    pub last_seen_timestamp: i64,
    /// Display name of the parent channel of a thread, where the channel
    /// list knows it.
    pub parent_display_name: Option<String>,
    pub clan_name: String,
    /// Name of the channel's clan in the clan list, where it is listed.
    pub listed_clan_name: Option<String>,
}

/// A user of the directory as the palette reads it.
pub struct UserRecord {
    pub id: UserId,
    pub username: String,
    pub display_name: String,
    /// Avatar URL ready for display, empty without an avatar.
    pub avatar: String,
    /// The user's nickname in the active clan, where the member list knows
    /// it.
    pub clan_nickname: Option<String>,
}

/// Subtext of a direct conversation: the peer's username for a one-to-one
/// conversation (from the conversation, else from the directory), nothing
/// otherwise.
pub open spec fn dm_subtext_spec(dm: DirectChannelRecord) -> Seq<char> {
    if dm.kind != DirectKind::Dm {
        Seq::empty()
    } else if dm.peer_username@.len() > 0 {
        dm.peer_username@
    } else {
        match (dm.peer_user_id, dm.directory_username) {
            (Some(_), Some(u)) => u@,
            _ => Seq::empty(),
        }
    }
}

pub fn dm_username_subtext(dm: &DirectChannelRecord) -> (r: String)
    ensures
        r@ == dm_subtext_spec(*dm),
{
    match dm.kind {
        DirectKind::Dm => {},
        _ => return String::new(),
    }
    if !dm.peer_username.as_str().is_empty() {
        return dm.peer_username.clone();
    }
    match (&dm.peer_user_id, &dm.directory_username) {
        (Some(_), Some(u)) => {
            if !u.as_str().is_empty() {
                u.clone()
            } else {
                String::new()
            }
        },
        _ => String::new(),
    }
}

/// Subtext of a channel before upper-casing: the parent's name for a
/// thread, else the clan's name as the channel carries it, else as the clan
/// list has it.
pub open spec fn channel_subtext_raw(ch: ChannelRecord) -> Seq<char> {
    if ch.channel_type == ChannelType::Thread {
        match ch.parent_display_name {
            Some(n) => n@,
            None => Seq::empty(),
        }
    } else if ch.clan_name@.len() > 0 {
        ch.clan_name@
    } else {
        match ch.listed_clan_name {
            Some(n) => n@,
            None => Seq::empty(),
        }
    }
}

pub fn palette_channel_subtext(ch: &ChannelRecord) -> (r: String)
    ensures
        r@ == uppercase_of(channel_subtext_raw(*ch)),
{
    let raw: String = match ch.channel_type {
        ChannelType::Thread => match &ch.parent_display_name {
            Some(n) => n.clone(),
            None => String::new(),
        },
        _ => if !ch.clan_name.as_str().is_empty() {
            ch.clan_name.clone()
        } else {
            match &ch.listed_clan_name {
                Some(n) => n.clone(),
                None => String::new(),
            }
        },
    };
    uppercase(raw.as_str())
}

/// The name a member is searched by first: the clan nickname, else the
/// display name, else the username.
pub open spec fn member_label_spec(u: UserRecord) -> Seq<char> {
    match u.clan_nickname {
        Some(n) if n@.len() > 0 => n@,
        _ => if u.display_name@.len() > 0 { u.display_name@ } else { u.username@ },
    }
}

pub fn member_label(user: &UserRecord) -> (r: String)
    ensures
        r@ == member_label_spec(*user),
{
    if let Some(nick) = &user.clan_nickname {
        if !nick.as_str().is_empty() {
            return nick.clone();
        }
    }
    if !user.display_name.as_str().is_empty() {
        user.display_name.clone()
    } else {
        user.username.clone()
    }
}

/// Parts joined with dots.
pub open spec fn join_dot(parts: Seq<Seq<char>>) -> Seq<char>
    decreases parts.len(),
{
    if parts.len() == 0 {
        Seq::empty()
    } else if parts.len() == 1 {
        parts[0]
    } else {
        join_dot(parts.drop_last()) + "."@ + parts.last()
    }
}

/// The non-empty ones of three parts, joined with dots.
pub open spec fn member_blob_spec(a: Seq<char>, b: Seq<char>, c: Seq<char>) -> Seq<char> {
    join_dot(seq![a, b, c].filter(|p: Seq<char>| p.len() > 0))
}

fn push_part(out: &mut Vec<char>, parts: Ghost<Seq<Seq<char>>>, part: &str) -> (r: Ghost<Seq<Seq<char>>>)
    requires
        old(out)@ == join_dot(parts@),
        (old(out)@.len() == 0) == (parts@.len() == 0),
    ensures
        final(out)@ == join_dot(r@),
        (final(out)@.len() == 0) == (r@.len() == 0),
        r@ == (if part@.len() > 0 { parts@.push(part@) } else { parts@ }),
{
    if part.is_empty() {
        return parts;
    }
    proof { reveal_strlit("."); }
    if out.len() > 0 {
        push_str_chars(out, ".");
    }
    push_str_chars(out, part);
    let ghost next = parts@.push(part@);
    assert(next.drop_last() =~= parts@);
    assert(out@ =~= join_dot(next));
    Ghost(next)
}

/// [`member_blob_spec`] of the username, display name and search label.
fn member_blob(username: &str, display_name: &str, label: &str) -> (r: String)
    ensures
        r@ == member_blob_spec(username@, display_name@, label@),
{
    let mut out: Vec<char> = Vec::new();
    let g0: Ghost<Seq<Seq<char>>> = Ghost(Seq::empty());
    let g1 = push_part(&mut out, g0, username);
    let g2 = push_part(&mut out, g1, display_name);
    let g3 = push_part(&mut out, g2, label);
    proof {
        let p = |x: Seq<char>| x.len() > 0;
        reveal_with_fuel(Seq::filter, 4);
        let s3 = seq![username@, display_name@, label@];
        assert(s3.drop_last().drop_last().drop_last() =~= Seq::<Seq<char>>::empty());
        assert(s3.drop_last().drop_last() =~= seq![username@]);
        assert(s3.drop_last() =~= seq![username@, display_name@]);
        assert(s3.filter(p) =~= g3@);
    }
    string_from_chars(&out)
}

/// `a`, a space, and `b`.
fn spaced(a: &str, b: &str) -> (r: String)
    ensures
        r@ == a@ + " "@ + b@,
{
    let mut out = chars_of(a);
    push_str_chars(&mut out, " ");
    push_str_chars(&mut out, b);
    string_from_chars(&out)
}

/// The palette row of a direct conversation.
pub open spec fn direct_item_spec(it: PaletteItem, dm: DirectChannelRecord) -> bool {
    let sub = dm_subtext_spec(dm);
    &&& it.kind == PaletteItemKind::Direct
    &&& it.label@ == dm.label@
    &&& it.subtext@ == sub
    &&& it.avatar@ == dm.avatar@
    &&& it.unread_count == dm.unread_count
    &&& it.last_sent_timestamp == dm.last_sent_timestamp
    &&& it.last_seen_timestamp == dm.last_seen_timestamp
    &&& it.channel_id == Some(dm.id)
    &&& it.clan_id is None
    &&& it.user_id == dm.peer_user_id
    &&& it.channel_type is None
    &&& !it.private
    &&& it.dm_kind == Some(dm.kind)
    &&& it.dm_channel_type == Some(direct_channel_type(dm.kind))
    &&& it.filter_prioritize@ == normalize_search_spec(dm.label@)
    &&& it.filter_name@ == normalize_search_spec(sub)
    &&& it.filter_display@ == Seq::<char>::empty()
    &&& it.filter_blob@ == normalize_search_spec(dm.label@ + " "@ + sub)
}

/// The palette row of a clan channel.
pub open spec fn channel_item_spec(it: PaletteItem, ch: ChannelRecord) -> bool {
    let sub = uppercase_of(channel_subtext_raw(ch));
    &&& it.kind == PaletteItemKind::Channel
    &&& it.label@ == ch.name@
    &&& it.subtext@ == sub
    &&& it.avatar@ == Seq::<char>::empty()
    &&& it.unread_count == ch.badge_count
    &&& it.last_sent_timestamp == ch.last_sent_timestamp
    &&& it.last_seen_timestamp == ch.last_seen_timestamp
    &&& it.channel_id == Some(ch.id)
    &&& it.clan_id == Some(ch.clan_id)
    &&& it.user_id is None
    &&& it.channel_type == Some(ch.channel_type)
    &&& it.private == ch.private
    &&& it.dm_kind is None
    &&& it.dm_channel_type is None
    &&& it.filter_prioritize@ == normalize_search_spec(ch.name@)
    &&& it.filter_name@ == normalize_search_spec(ch.name@)
    &&& it.filter_display@ == Seq::<char>::empty()
    &&& it.filter_blob@ == normalize_search_spec(ch.name@ + " "@ + sub)
}

/// The palette row of a directory user.
pub open spec fn member_item_spec(it: PaletteItem, u: UserRecord) -> bool {
    let prioritize = member_label_spec(u);
    &&& it.kind == PaletteItemKind::Member
    &&& it.label@ == (if u.display_name@.len() == 0 { u.username@ } else { u.display_name@ })
    &&& it.subtext@ == u.username@
    &&& it.avatar@ == u.avatar@
    &&& it.unread_count == 0
    &&& it.last_sent_timestamp == 0
    &&& it.last_seen_timestamp == 0
    &&& it.channel_id is None
    &&& it.clan_id is None
    &&& it.user_id == Some(u.id)
    &&& it.channel_type is None
    &&& !it.private
    &&& it.dm_kind is None
    &&& it.dm_channel_type is None
    &&& it.filter_prioritize@ == normalize_search_spec(prioritize)
    &&& it.filter_name@ == normalize_search_spec(u.username@)
    &&& it.filter_display@ == normalize_search_spec(u.display_name@)
    &&& it.filter_blob@ == normalize_search_spec(member_blob_spec(u.username@, u.display_name@, prioritize))
}

fn direct_item(dm: &DirectChannelRecord) -> (r: PaletteItem)
    ensures
        direct_item_spec(r, *dm),
{
    let subtext = dm_username_subtext(dm);
    let blob = spaced(dm.label.as_str(), subtext.as_str());
    PaletteItem {
        kind: PaletteItemKind::Direct,
        label: dm.label.clone(),
        subtext: subtext.clone(),
        avatar: dm.avatar.clone(),
        unread_count: dm.unread_count,
        last_sent_timestamp: dm.last_sent_timestamp,
        last_seen_timestamp: dm.last_seen_timestamp,
        channel_id: Some(dm.id),
        clan_id: None,
        user_id: dm.peer_user_id,
        channel_type: None,
        private: false,
        dm_kind: Some(dm.kind),
        dm_channel_type: Some(dm.kind.channel_type()),
        filter_prioritize: normalize_search_string(dm.label.as_str()),
        filter_name: normalize_search_string(subtext.as_str()),
        filter_display: String::new(),
        filter_blob: normalize_search_string(blob.as_str()),
    }
}

fn channel_item(ch: &ChannelRecord) -> (r: PaletteItem)
    ensures
        channel_item_spec(r, *ch),
{
    let subtext = palette_channel_subtext(ch);
    let blob = spaced(ch.name.as_str(), subtext.as_str());
    PaletteItem {
        kind: PaletteItemKind::Channel,
        label: ch.name.clone(),
        subtext: subtext.clone(),
        avatar: String::new(),
        unread_count: ch.badge_count,
        last_sent_timestamp: ch.last_sent_timestamp,
        last_seen_timestamp: ch.last_seen_timestamp,
        channel_id: Some(ch.id),
        clan_id: Some(ch.clan_id),
        user_id: None,
        channel_type: Some(ch.channel_type),
        private: ch.private,
        dm_kind: None,
        dm_channel_type: None,
        filter_prioritize: normalize_search_string(ch.name.as_str()),
        filter_name: normalize_search_string(ch.name.as_str()),
        filter_display: String::new(),
        filter_blob: normalize_search_string(blob.as_str()),
    }
}

fn member_item(user: &UserRecord) -> (r: PaletteItem)
    ensures
        member_item_spec(r, *user),
{
    let prioritize = member_label(user);
    let label = if user.display_name.as_str().is_empty() {
        user.username.clone()
    } else {
        user.display_name.clone()
    };
    let blob = member_blob(user.username.as_str(), user.display_name.as_str(), prioritize.as_str());
    PaletteItem {
        kind: PaletteItemKind::Member,
        label,
        subtext: user.username.clone(),
        avatar: user.avatar.clone(),
        unread_count: 0,
        last_sent_timestamp: 0,
        last_seen_timestamp: 0,
        channel_id: None,
        clan_id: None,
        user_id: Some(user.id),
        channel_type: None,
        private: false,
        dm_kind: None,
        dm_channel_type: None,
        filter_prioritize: normalize_search_string(prioritize.as_str()),
        filter_name: normalize_search_string(user.username.as_str()),
        filter_display: normalize_search_string(user.display_name.as_str()),
        filter_blob: normalize_search_string(blob.as_str()),
    }
}

/// Whether `id` is the peer of a one-to-one conversation.
pub open spec fn is_dm_peer(directs: Seq<DirectChannelRecord>, id: UserId) -> bool {
    exists|j: int| 0 <= j < directs.len() && (#[trigger] directs[j]).kind == DirectKind::Dm && directs[j].peer_user_id == Some(id)
}

/// Directory users listed as members: those without a one-to-one
/// conversation (which already lists them).
pub open spec fn listed_members(directs: Seq<DirectChannelRecord>, users: Seq<UserRecord>) -> Seq<UserRecord> {
    users.filter(|u: UserRecord| !is_dm_peer(directs, u.id))
}

/// The rows before sorting: the direct conversations, then the channels,
/// then the listed members, each in source order.
pub open spec fn palette_rows_spec(
    rows: Seq<PaletteItem>,
    directs: Seq<DirectChannelRecord>,
    channels: Seq<ChannelRecord>,
    members: Seq<UserRecord>,
) -> bool {
    &&& rows.len() == directs.len() + channels.len() + members.len()
    &&& forall|i: int| 0 <= i < directs.len() ==> direct_item_spec(#[trigger] rows[i], directs[i])
    &&& forall|i: int| #![trigger channels[i]] 0 <= i < channels.len() ==> channel_item_spec(rows[directs.len() + i], channels[i])
    &&& forall|i: int| #![trigger members[i]] 0 <= i < members.len() ==> member_item_spec(
        rows[directs.len() + channels.len() + i],
        members[i],
    )
}

pub open spec fn users_of(users: Option<&Vec<UserRecord>>) -> Seq<UserRecord> {
    match users {
        Some(u) => u@,
        None => Seq::empty(),
    }
}

/// Peer ids of the one-to-one conversations, as a set of raw ids.
fn dm_peer_ids(directs: &Vec<DirectChannelRecord>) -> (r: HashSet<i64>)
    ensures
        forall|id: UserId| #[trigger] r@.contains(id.0) <==> is_dm_peer(directs@, id),
{
    broadcast use vstd::std_specs::hash::group_hash_axioms;
    let mut ids: HashSet<i64> = HashSet::new();
    let mut i: usize = 0;
    while i < directs.len()
        invariant
            i <= directs@.len(),
            forall|id: UserId| #[trigger] ids@.contains(id.0) <==> is_dm_peer(directs@.take(i as int), id),
        decreases directs@.len() - i,
    {
        let dm = &directs[i];
        let ghost old_ids = ids@;
        let hit = match (dm.kind, dm.peer_user_id) {
            (DirectKind::Dm, Some(id)) => {
                ids.insert(id.0);
                true
            },
            _ => false,
        };
        proof {
            assert forall|x: UserId| #[trigger] ids@.contains(x.0) <==> is_dm_peer(directs@.take(i + 1), x) by {
                let pre = directs@.take(i as int);
                let post = directs@.take(i + 1);
                let here = dm.kind == DirectKind::Dm && dm.peer_user_id == Some(x);
                assert(post[i as int] == *dm);
                if is_dm_peer(post, x) {
                    let j = choose|j: int| 0 <= j < i + 1 && (#[trigger] post[j]).kind == DirectKind::Dm
                        && post[j].peer_user_id == Some(x);
                    if j < i {
                        assert(pre[j] == post[j]);
                        assert(is_dm_peer(pre, x));
                    }
                }
                if is_dm_peer(pre, x) {
                    let j = choose|j: int| 0 <= j < i && (#[trigger] pre[j]).kind == DirectKind::Dm
                        && pre[j].peer_user_id == Some(x);
                    assert(post[j] == pre[j]);
                }
                assert(is_dm_peer(post, x) <==> (is_dm_peer(pre, x) || here));
                assert(old_ids.contains(x.0) <==> is_dm_peer(pre, x));
                if hit {
                    let p = dm.peer_user_id->0;
                    assert(ids@ == old_ids.insert(p.0));
                    assert(ids@.contains(x.0) <==> (old_ids.contains(x.0) || p.0 == x.0));
                    assert(p.0 == x.0 <==> p == x);
                } else {
                    assert(ids@ == old_ids);
                    assert(!here);
                }
            }
        }
        i = i + 1;
    }
    assert(directs@.take(directs@.len() as int) =~= directs@);
    ids
}

/// Every palette row: direct conversations, channels, and (with a loaded
/// directory) the users without a one-to-one conversation, sorted by
/// recency (most recent message first, then label), stably.
pub fn build_palette_items(
    directs: &Vec<DirectChannelRecord>,
    channels: &Vec<ChannelRecord>,
    users: Option<&Vec<UserRecord>>,
) -> (r: Vec<PaletteItem>)
    ensures
        exists|rows: Seq<PaletteItem>|
            palette_rows_spec(rows, directs@, channels@, listed_members(directs@, users_of(users)))
                && stably_sorted(rows, recency_keys(rows), r@),
{
    let mut rows: Vec<PaletteItem> = Vec::new();
    let peers = dm_peer_ids(directs);
    let mut i: usize = 0;
    while i < directs.len()
        invariant
            i <= directs@.len(),
            rows@.len() == i,
            forall|k: int| 0 <= k < i ==> direct_item_spec(#[trigger] rows@[k], directs@[k]),
        decreases directs@.len() - i,
    {
        rows.push(direct_item(&directs[i]));
        i = i + 1;
    }
    let d = directs.len();
    let mut c: usize = 0;
    while c < channels.len()
        invariant
            d == directs@.len(),
            c <= channels@.len(),
            rows@.len() == d + c,
            forall|k: int| 0 <= k < d ==> direct_item_spec(#[trigger] rows@[k], directs@[k]),
            forall|k: int| #![trigger channels@[k]] 0 <= k < c ==> channel_item_spec(rows@[d + k], channels@[k]),
        decreases channels@.len() - c,
    {
        rows.push(channel_item(&channels[c]));
        c = c + 1;
    }
    let n = rows.len();
    let ghost all_users = users_of(users);
    let ghost listed = listed_members(directs@, all_users);
    let ghost pred = |u: UserRecord| !is_dm_peer(directs@, u.id);
    match users {
        Some(list) => {
            let mut k: usize = 0;
            while k < list.len()
                invariant
                    d == directs@.len(),
                    n == d + channels@.len(),
                    all_users == list@,
                    pred == (|u: UserRecord| !is_dm_peer(directs@, u.id)),
                    k <= list@.len(),
                    forall|id: UserId| #[trigger] peers@.contains(id.0) <==> is_dm_peer(directs@, id),
                    rows@.len() == n + list@.take(k as int).filter(pred).len(),
                    forall|j: int| 0 <= j < d ==> direct_item_spec(#[trigger] rows@[j], directs@[j]),
                    forall|j: int| #![trigger channels@[j]] 0 <= j < channels@.len() ==> channel_item_spec(rows@[d + j], channels@[j]),
                    forall|j: int| #![trigger list@.take(k as int).filter(pred)[j]] 0 <= j < list@.take(k as int).filter(pred).len()
                        ==> member_item_spec(rows@[n + j], list@.take(k as int).filter(pred)[j]),
                decreases list@.len() - k,
            {
                let user = &list[k];
                proof {
                    assert(list@.take(k + 1).drop_last() =~= list@.take(k as int));
                    reveal(Seq::filter);
                }
                if !peers.contains(&user.id.0) {
                    rows.push(member_item(user));
                    proof {
                        let before = list@.take(k as int).filter(pred);
                        let after = list@.take(k + 1).filter(pred);
                        assert(after =~= before.push(*user));
                        assert forall|j: int| 0 <= j < after.len() implies member_item_spec(rows@[n + j], #[trigger] after[j]) by {
                            if j < before.len() {
                                assert(after[j] == before[j]);
                            }
                        }
                    }
                }
                k = k + 1;
            }
            assert(list@.take(list@.len() as int) =~= list@);
        },
        None => {
            assert(listed =~= Seq::<UserRecord>::empty()) by {
                reveal(Seq::filter);
            }
        },
    }
    let ghost raw = rows@;
    assert(palette_rows_spec(raw, directs@, channels@, listed));
    sort_items_by_recency(rows)
}

/// Number identifying an item kind in element ids.
pub open spec fn kind_id_spec(kind: PaletteItemKind) -> u8 {
    match kind {
        PaletteItemKind::Channel => 0,
        PaletteItemKind::Direct => 1,
        PaletteItemKind::Member => 2,
    }
}

pub fn palette_item_kind_id(kind: PaletteItemKind) -> (r: u8)
    ensures
        r == kind_id_spec(kind),
{
    match kind {
        PaletteItemKind::Channel => 0,
        PaletteItemKind::Direct => 1,
        PaletteItemKind::Member => 2,
    }
}

/// The part of a raw query that is highlighted in a row: without its `@`
/// on members and without its `#` on channels.
pub open spec fn highlight_query_spec(q: Seq<char>, kind: PaletteItemKind) -> Seq<char> {
    if q.len() > 0 && ((kind == PaletteItemKind::Member && q[0] == '@') || (kind == PaletteItemKind::Channel && q[0] == '#')) {
        q.drop_first()
    } else {
        q
    }
}

pub fn highlight_query(raw_query: &str, kind: PaletteItemKind) -> (r: &str)
    ensures
        r@ == highlight_query_spec(raw_query@, kind),
{
    let cs = chars_of(raw_query);
    if cs.len() == 0 {
        return raw_query;
    }
    let strip = match kind {
        PaletteItemKind::Member => cs[0] == '@',
        PaletteItemKind::Channel => cs[0] == '#',
        PaletteItemKind::Direct => false,
    };
    if strip {
        let rest = raw_query.substring_char(1, cs.len());
        assert(rest@ =~= raw_query@.drop_first());
        rest
    } else {
        raw_query
    }
}

/// Where a row's text is highlighted for a query: `(start, length)` in
/// bytes of the text, when highlighting is on, the normalized query is not
/// empty and occurs in the normalized text, and normalizing kept the text's
/// byte length; the length is the query's byte length, cut at the text's
/// end.
pub open spec fn highlight_split_spec(text: Seq<char>, query: Seq<char>, highlight: bool) -> Option<(nat, nat)> {
    let nt = normalize_spec(text);
    let nq = normalize_spec(query);
    if !highlight || query.len() == 0 || nq.len() == 0 {
        None
    } else {
        match find_byte_spec(nt, nq) {
            None => None,
            Some(index) => if utf8_len(nt) != utf8_len(text) {
                None
            } else {
                let rest = (utf8_len(text) - index) as nat;
                Some((index, if utf8_len(query) < rest { utf8_len(query) } else { rest }))
            },
        }
    }
}

/// [`highlight_split_spec`]: the matched part of a row's text.
pub fn highlight_split(text: &str, query: &str, highlight: bool) -> (r: Option<(usize, usize)>)
    ensures
        match r {
            Some((a, n)) => highlight_split_spec(text@, query@, highlight) == Some((a as nat, n as nat)),
            None => highlight_split_spec(text@, query@, highlight) is None,
        },
{
    if !highlight || query.is_empty() {
        return None;
    }
    let normalized_text = normalize_string(text);
    let normalized_query = normalize_string(query);
    let nq = chars_of(normalized_query.as_str());
    if nq.len() == 0 {
        return None;
    }
    let found = find_byte(normalized_text.as_str(), &nq);
    let index = match found {
        None => return None,
        Some(i) => i,
    };
    utf8_len_fits(normalized_text.as_str());
    utf8_len_fits(text);
    utf8_len_fits(query);
    let nt_len = normalized_text.as_str().len();
    let t_len = text.len();
    let q_len = query.len();
    proof {
        lemma_utf8_len_is_byte_len(normalized_text@);
        lemma_utf8_len_is_byte_len(text@);
        lemma_utf8_len_is_byte_len(query@);
        lemma_first_match_from_bounds(normalized_text@, nq@, 0);
        let k = crate::chars::find_char_spec(normalized_text@, nq@)->0;
        lemma_utf8_len_mono(normalized_text@, k, normalized_text@.len() as int);
        assert(normalized_text@.take(normalized_text@.len() as int) =~= normalized_text@);
    }
    if nt_len != t_len {
        return None;
    }
    let rest = t_len - index;
    Some((index, if q_len < rest { q_len } else { rest }))
}

/// Badge text of an unread count: the count, `99+` beyond 99.
pub open spec fn badge_label_spec(unread: u32) -> Seq<char> {
    if unread > 99 { "99+"@ } else { decimal_spec(unread as nat) }
}

/// [`badge_label_spec`] of an unread count.
pub fn badge_label(unread: u32) -> (r: String)
    ensures
        r@ == badge_label_spec(unread),
{
    if unread > 99 {
        proof { reveal_strlit("99+"); }
        string_from_chars(&chars_of("99+"))
    } else {
        let mut digits: Vec<char> = Vec::new();
        push_decimal(&mut digits, unread as u128);
        assert(digits@ =~= decimal_spec(unread as nat));
        string_from_chars(&digits)
    }
}

/// What a palette row shows besides its layout.
pub struct PaletteRowModel {
    /// Unread badge text, when there is an unread count.
    pub badge: Option<String>,
    /// Unread rows are emphasized.
    pub emphasized: bool,
    /// Whether the label is highlighted (not for members under an `@`
    /// query).
    pub highlight_label: bool,
    /// Subtext as shown (upper-cased for channels), when there is one.
    pub subtext: Option<String>,
    /// Element id: kind, channel id and user id.
    pub element_id: String,
}

/// Element id of a row: `palette-item-`, the kind number, the channel id
/// and the user id (zero when absent), dash-separated.
pub open spec fn row_element_id_spec(item: PaletteItem) -> Seq<char> {
    "palette-item-"@ + decimal_spec(kind_id_spec(item.kind) as nat) + "-"@ + signed_decimal_spec(match item.channel_id {
        Some(c) => c.0 as int,
        None => 0,
    }) + "-"@ + signed_decimal_spec(match item.user_id {
        Some(u) => u.0 as int,
        None => 0,
    })
}

/// What a palette row shows for a query.
pub fn palette_row_model(item: &PaletteItem, search_query: &str) -> (r: PaletteRowModel)
    ensures
        match r.badge {
            Some(b) => item.unread_count > 0 && b@ == badge_label_spec(item.unread_count),
            None => item.unread_count == 0,
        },
        r.emphasized == item.unread_spec(),
        r.highlight_label == !(search_query@.len() > 0 && search_query@[0] == '@' && item.kind == PaletteItemKind::Member),
        match r.subtext {
            Some(t) => item.subtext@.len() > 0 && t@ == (if item.kind == PaletteItemKind::Channel {
                uppercase_of(item.subtext@)
            } else {
                item.subtext@
            }),
            None => item.subtext@.len() == 0,
        },
        r.element_id@ == row_element_id_spec(*item),
{
    let badge = if item.unread_count > 0 {
        Some(badge_label(item.unread_count))
    } else {
        None
    };
    let q = chars_of(search_query);
    let at_query = q.len() > 0 && q[0] == '@';
    let is_member = match item.kind {
        PaletteItemKind::Member => true,
        _ => false,
    };
    let subtext = if item.subtext.as_str().is_empty() {
        None
    } else {
        match item.kind {
            PaletteItemKind::Channel => Some(uppercase(item.subtext.as_str())),
            _ => Some(item.subtext.clone()),
        }
    };
    let mut id: Vec<char> = Vec::new();
    push_str_chars(&mut id, "palette-item-");
    push_decimal(&mut id, palette_item_kind_id(item.kind) as u128);
    push_str_chars(&mut id, "-");
    let channel = match item.channel_id {
        Some(c) => c.0,
        None => 0,
    };
    push_str_chars(&mut id, format_i64(channel).as_str());
    push_str_chars(&mut id, "-");
    let user = match item.user_id {
        Some(u) => u.0,
        None => 0,
    };
    push_str_chars(&mut id, format_i64(user).as_str());
    assert(id@ =~= row_element_id_spec(*item));
    PaletteRowModel {
        badge,
        emphasized: item.is_unread(),
        highlight_label: !(at_query && is_member),
        subtext,
        element_id: string_from_chars(&id),
    }
}

} // verus!
