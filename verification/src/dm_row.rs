//! The avatar of a direct-message row: the group icon, or a picture with a
//! fallback, or the initials of the name.

use vstd::prelude::*;

use crate::chars::{chars_of, str_eq_chars};
use crate::records::DirectKind;

verus! {

/// What a direct-message row shows as its avatar.
#[derive(Debug, PartialEq, Eq)]
pub enum DmAvatar {
    /// The stock picture of group conversations.
    GroupIcon,
    /// A named avatar: the picture to load, if any, and a picture to fall
    /// back to when it fails (without a picture the initials show).
    Named { src: Option<String>, fallback: Option<String> },
}

/// A group conversation without a picture shows the group icon; otherwise
/// the (proxied) picture loads, falling back to the original address when
/// that differs, else the original address loads, else the initials show.
pub open spec fn dm_avatar_spec(kind: DirectKind, src: Seq<char>, raw: Seq<char>) -> (bool, Option<Seq<char>>, Option<Seq<char>>) {
    if kind == DirectKind::Group && src.len() == 0 {
        (true, None, None)
    } else if src.len() > 0 {
        (false, Some(src), if raw.len() > 0 && raw != src { Some(raw) } else { None })
    } else if raw.len() > 0 {
        (false, Some(raw), None)
    } else {
        (false, None, None)
    }
}

pub open spec fn opt_view(o: Option<String>) -> Option<Seq<char>> {
    match o {
        Some(s) => Some(s@),
        None => None,
    }
}

pub open spec fn dm_avatar_view(a: DmAvatar) -> (bool, Option<Seq<char>>, Option<Seq<char>>) {
    match a {
        DmAvatar::GroupIcon => (true, None, None),
        DmAvatar::Named { src, fallback } => (false, opt_view(src), opt_view(fallback)),
    }
}

pub fn dm_avatar(kind: DirectKind, avatar_src: &str, avatar_raw: &str) -> (r: DmAvatar)
    ensures
        dm_avatar_view(r) == dm_avatar_spec(kind, avatar_src@, avatar_raw@),
{
    if kind == DirectKind::Group && avatar_src.is_empty() {
        DmAvatar::GroupIcon
    } else if !avatar_src.is_empty() {
        let fallback = if !avatar_raw.is_empty() && !str_eq_chars(avatar_raw, &chars_of(avatar_src)) {
            Some(avatar_raw.to_string())
        } else {
            None
        };
        DmAvatar::Named { src: Some(avatar_src.to_string()), fallback }
    } else if !avatar_raw.is_empty() {
        DmAvatar::Named { src: Some(avatar_raw.to_string()), fallback: None }
    } else {
        DmAvatar::Named { src: None, fallback: None }
    }
}

} // verus!
