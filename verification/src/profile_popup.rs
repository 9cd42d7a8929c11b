//! The status menu of the profile popup: choosing a presence, the duration
//! submenu of the presences that can expire, and how escape closes one
//! layer at a time.

use vstd::prelude::*;

verus! {

/// A user's presence.
#[derive(Clone, Copy, Debug, PartialEq, Eq, Structural)]
pub enum Presence {
    Online,
    Idle,
    Dnd,
    Invisible,
}

/// The presences the menu offers, in order.
pub open spec fn status_options_spec() -> Seq<Presence> {
    seq![Presence::Online, Presence::Idle, Presence::Dnd, Presence::Invisible]
}

pub fn status_options() -> (r: Vec<Presence>)
    ensures
        r@ == status_options_spec(),
{
    vec![Presence::Online, Presence::Idle, Presence::Dnd, Presence::Invisible]
}

/// The durations of the submenu: translation key, minutes, and whether the
/// presence holds until turned off.
pub open spec fn status_durations_spec() -> Seq<(&'static str, i32, bool)> {
    seq![
        ("userProfile.statusProfile.statusDuration.for30Minutes", 30i32, false),
        ("userProfile.statusProfile.statusDuration.for1Hour", 60i32, false),
        ("userProfile.statusProfile.statusDuration.for3Hours", 180i32, false),
        ("userProfile.statusProfile.statusDuration.for8Hours", 480i32, false),
        ("userProfile.statusProfile.statusDuration.for24Hours", 1440i32, false),
        ("userProfile.statusProfile.statusDuration.forever", 0i32, true),
    ]
}

/// What a duration key promises: its minutes (and whether it holds until
/// turned off) are the ones its name says.
pub open spec fn duration_agrees_with_key(key: Seq<char>, minutes: i32, until_turn_on: bool) -> bool {
    &&& key == "userProfile.statusProfile.statusDuration.for30Minutes"@ ==> minutes == 30 && !until_turn_on
    &&& key == "userProfile.statusProfile.statusDuration.for1Hour"@ ==> minutes == 60 && !until_turn_on
    &&& key == "userProfile.statusProfile.statusDuration.for3Hours"@ ==> minutes == 3 * 60 && !until_turn_on
    &&& key == "userProfile.statusProfile.statusDuration.for8Hours"@ ==> minutes == 8 * 60 && !until_turn_on
    &&& key == "userProfile.statusProfile.statusDuration.for24Hours"@ ==> minutes == 24 * 60 && !until_turn_on
    &&& key == "userProfile.statusProfile.statusDuration.forever"@ ==> minutes == 0 && until_turn_on
}

/// Every duration of the submenu gives the minutes its key names.
pub proof fn lemma_durations_agree_with_keys(i: int)
    requires
        0 <= i < status_durations_spec().len(),
    ensures
        duration_agrees_with_key(status_durations_spec()[i].0@, status_durations_spec()[i].1, status_durations_spec()[i].2),
{
    reveal_strlit("userProfile.statusProfile.statusDuration.for30Minutes");
    reveal_strlit("userProfile.statusProfile.statusDuration.for1Hour");
    reveal_strlit("userProfile.statusProfile.statusDuration.for3Hours");
    reveal_strlit("userProfile.statusProfile.statusDuration.for8Hours");
    reveal_strlit("userProfile.statusProfile.statusDuration.for24Hours");
    reveal_strlit("userProfile.statusProfile.statusDuration.forever");
    let k30 = "userProfile.statusProfile.statusDuration.for30Minutes"@;
    let k1 = "userProfile.statusProfile.statusDuration.for1Hour"@;
    let k3 = "userProfile.statusProfile.statusDuration.for3Hours"@;
    let k8 = "userProfile.statusProfile.statusDuration.for8Hours"@;
    let k24 = "userProfile.statusProfile.statusDuration.for24Hours"@;
    let kf = "userProfile.statusProfile.statusDuration.forever"@;
    assert(k30.len() == 53 && k1.len() == 49 && k3.len() == 50 && k8.len() == 50 && k24.len() == 51 && kf.len() == 48);
    assert(k3[44] != k8[44]);
    let d = status_durations_spec();
    if i == 0 {
        assert(d[i].0@ == k30);
    } else if i == 1 {
        assert(d[i].0@ == k1);
    } else if i == 2 {
        assert(d[i].0@ == k3);
    } else if i == 3 {
        assert(d[i].0@ == k8);
    } else if i == 4 {
        assert(d[i].0@ == k24);
    } else {
        assert(d[i].0@ == kf);
    }
}

pub fn status_durations() -> (r: Vec<(&'static str, i32, bool)>)
    ensures
        r@ == status_durations_spec(),
        r@.len() == 6,
        forall|i: int| 0 <= i < r@.len() ==> duration_agrees_with_key(#[trigger] r@[i].0@, r@[i].1, r@[i].2),
{
    let r = vec![
        ("userProfile.statusProfile.statusDuration.for30Minutes", 30, false),
        ("userProfile.statusProfile.statusDuration.for1Hour", 60, false),
        ("userProfile.statusProfile.statusDuration.for3Hours", 180, false),
        ("userProfile.statusProfile.statusDuration.for8Hours", 480, false),
        ("userProfile.statusProfile.statusDuration.for24Hours", 1440, false),
        ("userProfile.statusProfile.statusDuration.forever", 0, true),
    ];
    proof {
        assert forall|i: int| 0 <= i < r@.len() implies duration_agrees_with_key(#[trigger] r@[i].0@, r@[i].1, r@[i].2) by {
            lemma_durations_agree_with_keys(i);
        }
    }
    r
}

/// A presence to send to the account store.
#[derive(Clone, Copy, Debug, PartialEq, Eq, Structural)]
pub struct StatusChange {
    pub status: Presence,
    pub minutes: i32,
    pub until_turn_on: bool,
}

/// The popup's presence and the state of its status menu.
pub struct StatusMenu {
    pub status: Presence,
    pub custom_status: String,
    pub menu_open: bool,
    /// The presence whose duration submenu is expanded.
    pub duration_for: Option<Presence>,
}

/// The menu after escape, and whether escape dismisses the popup: it
/// collapses the duration submenu first, then closes the menu, and only
/// then dismisses.
pub open spec fn cancel_spec(open: bool, duration_for: Option<Presence>) -> (bool, Option<Presence>, bool) {
    if duration_for is Some {
        (open, None, false)
    } else if open {
        (false, None, false)
    } else {
        (false, None, true)
    }
}

impl StatusMenu {
    /// A closed menu showing `status`.
    pub fn new(status: Presence, custom_status: String) -> (r: Self)
        ensures
            r.status == status,
            r.custom_status@ == custom_status@,
            !r.menu_open,
            r.duration_for is None,
    {
        StatusMenu { status, custom_status, menu_open: false, duration_for: None }
    }

    /// Opens or closes the menu; closing also collapses the submenu.
    pub fn toggle_menu(&mut self)
        ensures
            final(self).menu_open == !old(self).menu_open,
            final(self).duration_for == (if final(self).menu_open { old(self).duration_for } else { None }),
            final(self).status == old(self).status,
            final(self).custom_status@ == old(self).custom_status@,
    {
        self.menu_open = !self.menu_open;
        if !self.menu_open {
            self.duration_for = None;
        }
    }

    /// Takes a presence: the menu closes and the change is returned.
    pub fn apply_status(&mut self, status: Presence, minutes: i32, until_turn_on: bool) -> (r: StatusChange)
        ensures
            r == (StatusChange { status, minutes, until_turn_on }),
            final(self).status == status,
            !final(self).menu_open,
            final(self).duration_for is None,
            final(self).custom_status@ == old(self).custom_status@,
    {
        self.status = status;
        self.menu_open = false;
        self.duration_for = None;
        StatusChange { status, minutes, until_turn_on }
    }

    /// A click on a presence of the menu: online applies at once, for
    /// good; another presence expands its duration submenu (or collapses
    /// it when already expanded).
    pub fn pick_status(&mut self, value: Presence) -> (r: Option<StatusChange>)
        ensures
            value == Presence::Online ==> r == Some(StatusChange { status: value, minutes: 0, until_turn_on: true })
                && final(self).status == value && !final(self).menu_open && final(self).duration_for is None,
            value != Presence::Online ==> r is None && final(self).duration_for == (if old(self).duration_for == Some(value) {
                None
            } else {
                Some(value)
            }) && final(self).menu_open == old(self).menu_open && final(self).status == old(self).status,
            final(self).custom_status@ == old(self).custom_status@,
    {
        if value != Presence::Online {
            self.duration_for = if self.duration_for == Some(value) { None } else { Some(value) };
            None
        } else {
            Some(self.apply_status(value, 0, true))
        }
    }

    /// Escape: collapses the submenu, else closes the menu, else asks to
    /// dismiss the popup (returns true).
    pub fn cancel(&mut self) -> (dismiss: bool)
        ensures
            (final(self).menu_open, final(self).duration_for, dismiss) == cancel_spec(old(self).menu_open, old(self).duration_for),
            final(self).status == old(self).status,
            final(self).custom_status@ == old(self).custom_status@,
    {
        if self.duration_for.is_some() {
            self.duration_for = None;
            return false;
        }
        if self.menu_open {
            self.menu_open = false;
            return false;
        }
        true
    }

    /// Takes the presence and custom status the store holds; returns
    /// whether either changed.
    pub fn sync_status(&mut self, presence: Presence, custom_status: String) -> (changed: bool)
        ensures
            changed == !(old(self).status == presence && old(self).custom_status@ == custom_status@),
            final(self).status == presence,
            final(self).custom_status@ == custom_status@,
            final(self).menu_open == old(self).menu_open,
            final(self).duration_for == old(self).duration_for,
    {
        if self.status == presence && self.custom_status == custom_status {
            return false;
        }
        self.status = presence;
        self.custom_status = custom_status;
        true
    }
}

/// Escape never dismisses the popup while a menu is showing, and three
/// presses always reach the dismissal.
pub proof fn lemma_escape_closes_layer_by_layer(open: bool, duration_for: Option<Presence>)
    ensures
        cancel_spec(open, duration_for).2 ==> !open && duration_for is None,
        ({
            let (o1, d1, x1) = cancel_spec(open, duration_for);
            let (o2, d2, x2) = cancel_spec(o1, d1);
            let (o3, d3, x3) = cancel_spec(o2, d2);
            x1 || x2 || x3
        }),
{
}

} // verus!
