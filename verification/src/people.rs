//! People shown in lists: avatar initials and colours, and the rows of the
//! friend picker with their case-insensitive search.

use vstd::prelude::*;

use crate::chars::{chars_of, contains_spec, find_chars, push_str_chars, str_eq_chars, string_from_chars};
use crate::command_palette::items::{uppercase, uppercase_of};
use crate::formatting::{format_i64, signed_decimal_spec};
use crate::records::UserId;

verus! {

/// Background colours of initials avatars, as `0xRRGGBB`.
pub const AVATAR_COLORS: [u32; 7] = [0xade603, 0x00b2cc, 0xfda63c, 0xe16dcc, 0xe8467b, 0x9c7cfd, 0x22e2b3];

/// The first character of the upper-case form of a name's first character.
pub open spec fn first_upper_spec(name: Seq<char>) -> Option<char> {
    if name.len() == 0 {
        None
    } else {
        let up = uppercase_of(seq![name[0]]);
        if up.len() > 0 { Some(up[0]) } else { None }
    }
}

pub fn first_upper_char(name: &str) -> (r: Option<char>)
    ensures
        r == first_upper_spec(name@),
{
    let cs = chars_of(name);
    if cs.len() == 0 {
        return None;
    }
    let first = string_from_chars(&vec![cs[0]]);
    assert(first@ =~= seq![name@[0]]);
    let up = chars_of(uppercase(first.as_str()).as_str());
    if up.len() > 0 { Some(up[0]) } else { None }
}

/// Index into [`AVATAR_COLORS`] of a name: the code of its upper-case
/// initial (zero without one), modulo the number of colours.
pub open spec fn avatar_color_index(name: Seq<char>) -> int {
    let code: int = match first_upper_spec(name) {
        Some(c) => c as u32 as int,
        None => 0,
    };
    code % 7
}

pub fn avatar_color(name: &str) -> (r: u32)
    ensures
        r == AVATAR_COLORS@[avatar_color_index(name@)],
{
    let code: u32 = match first_upper_char(name) {
        Some(c) => c as u32,
        None => 0,
    };
    AVATAR_COLORS[(code % 7) as usize]
}

/// Initials of a name: its upper-case initial, `?` without one.
pub open spec fn initials_spec(name: Seq<char>) -> Seq<char> {
    match first_upper_spec(name) {
        Some(c) => seq![c],
        None => seq!['?'],
    }
}

pub fn name_initials(name: &str) -> (r: String)
    ensures
        r@ == initials_spec(name@),
{
    match first_upper_char(name) {
        Some(c) => string_from_chars(&vec![c]),
        None => string_from_chars(&vec!['?']),
    }
}

/// The Unicode lower-case mapping of a character sequence.
pub uninterp spec fn lowercase_of(s: Seq<char>) -> Seq<char>;

/// `str::to_lowercase` from std.
#[verifier::external_body]
fn lowercase(s: &str) -> (r: String)
    ensures
        r@ == lowercase_of(s@),
{
    s.to_lowercase()
}

/// A friend offered by the friend picker.
pub struct FriendPickRow {
    pub user_id: UserId,
    pub key: String,
    pub name: String,
    pub username: String,
    pub avatar_src: String,
    pub avatar_raw: String,
    /// Lower-cased name the row is searched by.
    pub name_lc: String,
    /// Lower-cased username the row is searched by.
    pub username_lc: String,
}

/// Key of a friend's row: `friend-` and the user id.
pub open spec fn friend_key_spec(id: UserId) -> Seq<char> {
    "friend-"@ + signed_decimal_spec(id.0 as int)
}

impl FriendPickRow {
    /// The row of a friend, with the lower-case name and username it is
    /// searched by.
    pub fn new(user_id: UserId, name: String, username: String, avatar_src: String, avatar_raw: String) -> (r: Self)
        ensures
            r.user_id == user_id,
            r.key@ == friend_key_spec(user_id),
            r.name@ == name@,
            r.username@ == username@,
            r.avatar_src@ == avatar_src@,
            r.avatar_raw@ == avatar_raw@,
            r.name_lc@ == lowercase_of(name@),
            r.username_lc@ == lowercase_of(username@),
    {
        let mut key: Vec<char> = Vec::new();
        push_str_chars(&mut key, "friend-");
        push_str_chars(&mut key, format_i64(user_id.0).as_str());
        let name_lc = lowercase(name.as_str());
        let username_lc = lowercase(username.as_str());
        FriendPickRow {
            user_id,
            key: string_from_chars(&key),
            name,
            username,
            avatar_src,
            avatar_raw,
            name_lc,
            username_lc,
        }
    }

    /// An already lower-cased query matches when empty, or when the
    /// lower-cased name or username contains it.
    pub fn matches_lowercase_query(&self, query: &str) -> (r: bool)
        ensures
            r == (query@.len() == 0 || contains_spec(self.name_lc@, query@) || contains_spec(self.username_lc@, query@)),
    {
        if query.is_empty() {
            return true;
        }
        let needle = chars_of(query);
        find_chars(&chars_of(self.name_lc.as_str()), &needle).is_some()
            || find_chars(&chars_of(self.username_lc.as_str()), &needle).is_some()
    }
}


/// What an avatar shows.
#[derive(Debug, PartialEq, Eq)]
pub enum AvatarContent {
    /// The anonymous silhouette.
    Anonymous,
    /// A picture, and the picture to retry with when it fails (the
    /// initials show while loading and when all pictures fail).
    Image { src: String, retry: Option<String> },
    /// The initials of the name.
    Initials,
}

/// The anonymous silhouette wins; else a picture with its fallback when
/// that is a different, non-empty address; else the initials.
pub open spec fn avatar_content_spec(anonymous: bool, src: Option<Seq<char>>, fallback: Option<Seq<char>>) -> (int, Seq<char>, Option<Seq<char>>) {
    if anonymous {
        (0, Seq::empty(), None)
    } else {
        match src {
            Some(s) => (1, s, match fallback {
                Some(f) => if f.len() > 0 && f != s { Some(f) } else { None },
                None => None,
            }),
            None => (2, Seq::empty(), None),
        }
    }
}

pub open spec fn avatar_content_view(c: AvatarContent) -> (int, Seq<char>, Option<Seq<char>>) {
    match c {
        AvatarContent::Anonymous => (0, Seq::empty(), None),
        AvatarContent::Image { src, retry } => (1, src@, match retry {
            Some(r) => Some(r@),
            None => None,
        }),
        AvatarContent::Initials => (2, Seq::empty(), None),
    }
}

pub fn avatar_content(anonymous: bool, src: Option<&str>, fallback: Option<&str>) -> (r: AvatarContent)
    ensures
        avatar_content_view(r) == avatar_content_spec(
            anonymous,
            match src {
                Some(s) => Some(s@),
                None => None,
            },
            match fallback {
                Some(f) => Some(f@),
                None => None,
            },
        ),
{
    if anonymous {
        return AvatarContent::Anonymous;
    }
    match src {
        Some(s) => {
            let retry = match fallback {
                Some(f) => if !f.is_empty() && !str_eq_chars(f, &chars_of(s)) {
                    Some(f.to_string())
                } else {
                    None
                },
                None => None,
            };
            AvatarContent::Image { src: s.to_string(), retry }
        },
        None => AvatarContent::Initials,
    }
}

} // verus!
