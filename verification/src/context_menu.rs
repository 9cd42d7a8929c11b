//! The item list of a context menu as its probe sees it: what each row is,
//! which handler activating a row runs, and when activation is refused.

use vstd::prelude::*;

use crate::chars::{push_str_chars, string_from_chars};
use crate::formatting::{decimal_spec, format_i64, push_decimal, signed_decimal_spec};

verus! {

/// Quick reactions shown at most.
pub const QUICK_REACTION_LIMIT: usize = 4;

/// An option of a submenu.
pub struct SubmenuOption {
    pub value: i32,
    pub label: String,
    pub selected: bool,
    pub disabled: bool,
}

/// A row of a context menu, without its handlers.
pub enum MenuItem {
    Entry { label: String, danger: bool, disabled: bool },
    ReactionSubmenu { label: String },
    Submenu { label: String, options: Vec<SubmenuOption>, danger: bool, parent_clickable: bool },
    Checkbox { label: String, checked: bool },
    Separator,
}

/// What a probe reports of a row.
pub struct ContextMenuProbeItem {
    pub kind: &'static str,
    pub label: String,
    pub disabled: bool,
    pub options: Vec<(i32, String)>,
}

/// The handler that activating a row runs.
#[derive(Clone, Copy, Debug, PartialEq, Eq, Structural)]
pub enum ProbeAction {
    /// The row's click handler.
    Click,
    /// The submenu's open handler.
    Open,
    /// The click handler of a clickable submenu row.
    ParentClick,
    /// The submenu's select handler with an option value.
    Select(i32),
}

/// Why a row cannot be activated.
#[derive(Clone, Debug, PartialEq, Eq)]
pub enum ProbeError {
    NoItem(usize),
    Disabled(usize),
    /// The submenu has no option with this value; its option values follow.
    NoOption { index: usize, value: i32, expected: Vec<i32> },
    Separator(usize),
    ReactionSubmenu(usize),
}

pub open spec fn option_values(options: Seq<SubmenuOption>) -> Seq<i32> {
    options.map_values(|o: SubmenuOption| o.value)
}

pub open spec fn option_pairs(options: Seq<SubmenuOption>) -> Seq<(i32, Seq<char>)> {
    options.map_values(|o: SubmenuOption| (o.value, o.label@))
}

/// Kind, label, disabled flag and options that the probe reports of a row.
pub open spec fn probe_spec(item: MenuItem) -> (&'static str, Seq<char>, bool, Seq<(i32, Seq<char>)>) {
    match item {
        MenuItem::Separator => ("separator", Seq::empty(), false, Seq::empty()),
        MenuItem::Entry { label, danger, disabled } => (if danger { "danger" } else { "item" }, label@, disabled, Seq::empty()),
        MenuItem::Submenu { label, options, danger, .. } => (
            if danger { "danger_submenu" } else { "submenu" },
            label@,
            false,
            option_pairs(options@),
        ),
        MenuItem::Checkbox { label, checked } => (if checked { "checkbox_on" } else { "checkbox_off" }, label@, false, Seq::empty()),
        MenuItem::ReactionSubmenu { label } => ("reaction_submenu", label@, false, Seq::empty()),
    }
}

pub open spec fn probe_view(p: ContextMenuProbeItem) -> (&'static str, Seq<char>, bool, Seq<(i32, Seq<char>)>) {
    (p.kind, p.label@, p.disabled, p.options@.map_values(|o: (i32, String)| (o.0, o.1@)))
}

fn probe_options(options: &Vec<SubmenuOption>) -> (r: Vec<(i32, String)>)
    ensures
        r@.map_values(|o: (i32, String)| (o.0, o.1@)) == option_pairs(options@),
{
    let mut out: Vec<(i32, String)> = Vec::new();
    let mut i: usize = 0;
    while i < options.len()
        invariant
            i <= options@.len(),
            out@.len() == i,
            out@.map_values(|o: (i32, String)| (o.0, o.1@)) == option_pairs(options@.take(i as int)),
        decreases options@.len() - i,
    {
        let ghost before = out@;
        let label = options[i].label.clone();
        out.push((options[i].value, label));
        proof {
            assert(options@.take(i + 1) =~= options@.take(i as int).push(options@[i as int]));
            assert(out@ == before.push(out@[i as int]));
            assert(out@.map_values(|o: (i32, String)| (o.0, o.1@)) =~= before.map_values(|o: (i32, String)| (o.0, o.1@)).push(
                (options@[i as int].value, options@[i as int].label@),
            ));
            assert(option_pairs(options@.take(i + 1)) =~= option_pairs(options@.take(i as int)).push(
                (options@[i as int].value, options@[i as int].label@),
            ));
        }
        i = i + 1;
    }
    assert(options@.take(options@.len() as int) =~= options@);
    out
}

/// What the probe reports of one row.
pub fn probe_item(item: &MenuItem) -> (r: ContextMenuProbeItem)
    ensures
        probe_view(r) == probe_spec(*item),
{
    let r = match item {
        MenuItem::Separator => ContextMenuProbeItem { kind: "separator", label: String::new(), disabled: false, options: Vec::new() },
        MenuItem::Entry { label, danger, disabled } => ContextMenuProbeItem {
            kind: if *danger { "danger" } else { "item" },
            label: label.clone(),
            disabled: *disabled,
            options: Vec::new(),
        },
        MenuItem::Submenu { label, options, danger, .. } => ContextMenuProbeItem {
            kind: if *danger { "danger_submenu" } else { "submenu" },
            label: label.clone(),
            disabled: false,
            options: probe_options(options),
        },
        MenuItem::Checkbox { label, checked } => ContextMenuProbeItem {
            kind: if *checked { "checkbox_on" } else { "checkbox_off" },
            label: label.clone(),
            disabled: false,
            options: Vec::new(),
        },
        MenuItem::ReactionSubmenu { label } => ContextMenuProbeItem {
            kind: "reaction_submenu",
            label: label.clone(),
            disabled: false,
            options: Vec::new(),
        },
    };
    assert(r.options@.map_values(|o: (i32, String)| (o.0, o.1@)) =~= probe_spec(*item).3);
    r
}

/// What the probe reports of every row, in order.
pub fn probe_items(items: &Vec<MenuItem>) -> (r: Vec<ContextMenuProbeItem>)
    ensures
        r@.len() == items@.len(),
        forall|i: int| 0 <= i < items@.len() ==> probe_view(#[trigger] r@[i]) == probe_spec(items@[i]),
{
    let mut out: Vec<ContextMenuProbeItem> = Vec::new();
    let mut i: usize = 0;
    while i < items.len()
        invariant
            i <= items@.len(),
            out@.len() == i,
            forall|k: int| 0 <= k < i ==> probe_view(#[trigger] out@[k]) == probe_spec(items@[k]),
        decreases items@.len() - i,
    {
        out.push(probe_item(&items[i]));
        i = i + 1;
    }
    out
}

/// The outcome of activating a row, as a value.
pub ghost enum ProbeOutcome {
    Run(ProbeAction),
    NoItem(usize),
    Disabled(usize),
    NoOption(usize, i32, Seq<i32>),
    Separator(usize),
    ReactionSubmenu(usize),
}

pub open spec fn outcome_of(r: Result<ProbeAction, ProbeError>) -> ProbeOutcome {
    match r {
        Ok(a) => ProbeOutcome::Run(a),
        Err(ProbeError::NoItem(i)) => ProbeOutcome::NoItem(i),
        Err(ProbeError::Disabled(i)) => ProbeOutcome::Disabled(i),
        Err(ProbeError::NoOption { index, value, expected }) => ProbeOutcome::NoOption(index, value, expected@),
        Err(ProbeError::Separator(i)) => ProbeOutcome::Separator(i),
        Err(ProbeError::ReactionSubmenu(i)) => ProbeOutcome::ReactionSubmenu(i),
    }
}

/// Which handler activating row `index` (with a submenu option `value`)
/// runs, or why it is refused.
pub open spec fn probe_target_spec(items: Seq<MenuItem>, index: usize, value: Option<i32>) -> ProbeOutcome {
    if index >= items.len() {
        ProbeOutcome::NoItem(index)
    } else {
        match items[index as int] {
            MenuItem::Entry { disabled, .. } => if disabled { ProbeOutcome::Disabled(index) } else { ProbeOutcome::Run(ProbeAction::Click) },
            MenuItem::Checkbox { .. } => ProbeOutcome::Run(ProbeAction::Click),
            MenuItem::Submenu { options, parent_clickable, .. } => match value {
                None => ProbeOutcome::Run(if parent_clickable { ProbeAction::ParentClick } else { ProbeAction::Open }),
                Some(v) => if option_values(options@).contains(v) {
                    ProbeOutcome::Run(ProbeAction::Select(v))
                } else {
                    ProbeOutcome::NoOption(index, v, option_values(options@))
                },
            },
            MenuItem::Separator => ProbeOutcome::Separator(index),
            MenuItem::ReactionSubmenu { .. } => ProbeOutcome::ReactionSubmenu(index),
        }
    }
}

fn values_of(options: &Vec<SubmenuOption>) -> (r: Vec<i32>)
    ensures
        r@ == option_values(options@),
{
    let mut out: Vec<i32> = Vec::new();
    let mut i: usize = 0;
    while i < options.len()
        invariant
            i <= options@.len(),
            out@ == option_values(options@.take(i as int)),
        decreases options@.len() - i,
    {
        out.push(options[i].value);
        i = i + 1;
        assert(out@ =~= option_values(options@.take(i as int)));
    }
    assert(options@.take(options@.len() as int) =~= options@);
    out
}

fn contains_value(values: &Vec<i32>, v: i32) -> (r: bool)
    ensures
        r == values@.contains(v),
{
    let mut i: usize = 0;
    while i < values.len()
        invariant
            i <= values@.len(),
            forall|k: int| 0 <= k < i ==> values@[k] != v,
        decreases values@.len() - i,
    {
        if values[i] == v {
            return true;
        }
        i = i + 1;
    }
    false
}

/// Which handler activating row `index` runs: an enabled entry or a
/// checkbox its click; a submenu without an option its parent click (or
/// its open handler), with an option the select handler when the submenu
/// has that option. Missing rows, disabled entries, separators, the
/// reaction submenu and unknown options are refused.
pub fn probe_target(items: &Vec<MenuItem>, index: usize, value: Option<i32>) -> (r: Result<ProbeAction, ProbeError>)
    ensures
        outcome_of(r) == probe_target_spec(items@, index, value),
{
    if index >= items.len() {
        return Err(ProbeError::NoItem(index));
    }
    match &items[index] {
        MenuItem::Entry { disabled, .. } => if *disabled {
            Err(ProbeError::Disabled(index))
        } else {
            Ok(ProbeAction::Click)
        },
        MenuItem::Checkbox { .. } => Ok(ProbeAction::Click),
        MenuItem::Submenu { options, parent_clickable, .. } => match value {
            None => Ok(if *parent_clickable { ProbeAction::ParentClick } else { ProbeAction::Open }),
            Some(v) => {
                let values = values_of(options);
                if contains_value(&values, v) {
                    Ok(ProbeAction::Select(v))
                } else {
                    Err(ProbeError::NoOption { index, value: v, expected: values })
                }
            },
        },
        MenuItem::Separator => Err(ProbeError::Separator(index)),
        MenuItem::ReactionSubmenu { .. } => Err(ProbeError::ReactionSubmenu(index)),
    }
}

/// Sets the disabled flag of the last row when it is an entry.
pub fn set_last_disabled(items: &mut Vec<MenuItem>, disabled: bool)
    ensures
        final(items)@.len() == old(items)@.len(),
        forall|i: int| 0 <= i < old(items)@.len() - 1 ==> #[trigger] final(items)@[i] == old(items)@[i],
        old(items)@.len() > 0 ==> match old(items)@.last() {
            MenuItem::Entry { label, danger, .. } => final(items)@.last() == (MenuItem::Entry { label, danger, disabled }),
            _ => final(items)@.last() == old(items)@.last(),
        },
{
    let n = items.len();
    if n == 0 {
        return;
    }
    let last = items.pop().unwrap();
    let updated = match last {
        MenuItem::Entry { label, danger, .. } => MenuItem::Entry { label, danger, disabled },
        other => other,
    };
    items.push(updated);
}

/// Quick reactions to show: those with an emoji id, the first
/// [`QUICK_REACTION_LIMIT`] of them.
pub open spec fn quick_reactions_spec(emojis: Seq<(String, String)>) -> Seq<(Seq<char>, Seq<char>)> {
    let kept = emojis.filter(|e: (String, String)| e.0@.len() > 0).map_values(|e: (String, String)| (e.0@, e.1@));
    if kept.len() <= QUICK_REACTION_LIMIT { kept } else { kept.take(QUICK_REACTION_LIMIT as int) }
}

pub fn quick_reaction_list(emojis: Vec<(String, String)>) -> (r: Vec<(String, String)>)
    ensures
        r@.map_values(|e: (String, String)| (e.0@, e.1@)) == quick_reactions_spec(emojis@),
{
    let ghost input = emojis@;
    let ghost pred = |e: (String, String)| e.0@.len() > 0;
    let ghost view = |e: (String, String)| (e.0@, e.1@);
    let mut rest = emojis;
    let n = rest.len();
    let mut out: Vec<(String, String)> = Vec::new();
    let mut i: usize = 0;
    while i < n && out.len() < QUICK_REACTION_LIMIT
        invariant
            n == input.len(),
            i <= n,
            pred == (|e: (String, String)| e.0@.len() > 0),
            view == (|e: (String, String)| (e.0@, e.1@)),
            rest@ == input.skip(i as int),
            out@ == input.take(i as int).filter(pred),
            out@.len() <= QUICK_REACTION_LIMIT,
        decreases n - i,
    {
        let e = rest.remove(0);
        proof {
            assert(e == input[i as int]);
            assert(input.take(i + 1).drop_last() =~= input.take(i as int));
            assert(input.skip(i as int).drop_first() =~= input.skip(i + 1));
            reveal(Seq::filter);
        }
        if !e.0.as_str().is_empty() {
            out.push(e);
        }
        i = i + 1;
    }
    proof {
        let kept = input.filter(pred);
        let pre = input.take(i as int).filter(pred);
        assert(input.take(i as int) + input.skip(i as int) =~= input);
        Seq::filter_distributes_over_add(input.take(i as int), input.skip(i as int), pred);
        assert(kept == pre + input.skip(i as int).filter(pred));
        if out@.len() < QUICK_REACTION_LIMIT {
            assert(i == n);
            assert(input.skip(i as int) =~= Seq::<(String, String)>::empty());
            assert(input.skip(i as int).filter(pred) =~= Seq::<(String, String)>::empty()) by {
                reveal(Seq::filter);
            }
            assert(kept =~= pre);
        } else {
            assert(kept.take(QUICK_REACTION_LIMIT as int) =~= pre);
        }
        assert(kept.map_values(view).len() == kept.len());
        if kept.len() > QUICK_REACTION_LIMIT {
            assert(kept.map_values(view).take(QUICK_REACTION_LIMIT as int) =~= pre.map_values(view));
        } else {
            assert(kept =~= pre);
        }
    }
    out
}

/// Option values as a list prints them: decimal, separated by `, `.
pub open spec fn joined_values(vs: Seq<i32>) -> Seq<char>
    decreases vs.len(),
{
    if vs.len() == 0 {
        Seq::empty()
    } else if vs.len() == 1 {
        signed_decimal_spec(vs[0] as int)
    } else {
        joined_values(vs.drop_last()) + ", "@ + signed_decimal_spec(vs.last() as int)
    }
}

impl ProbeError {
    /// The sentence reporting the refusal.
    pub open spec fn message_spec(self) -> Seq<char> {
        match self {
            ProbeError::NoItem(i) => "no menu item at index "@ + decimal_spec(i as nat),
            ProbeError::Disabled(i) => "menu item at index "@ + decimal_spec(i as nat) + " is disabled"@,
            ProbeError::NoOption { index, value, expected } => "submenu at index "@ + decimal_spec(index as nat)
                + " has no option "@ + signed_decimal_spec(value as int) + "; expected one of ["@ + joined_values(expected@)
                + "]"@,
            ProbeError::Separator(i) => "menu item at index "@ + decimal_spec(i as nat) + " is a separator"@,
            ProbeError::ReactionSubmenu(i) => "menu item at index "@ + decimal_spec(i as nat) + " is the reaction submenu"@,
        }
    }

    pub fn message(&self) -> (r: String)
        ensures
            r@ == self.message_spec(),
    {
        let mut out: Vec<char> = Vec::new();
        match self {
            ProbeError::NoItem(i) => {
                push_str_chars(&mut out, "no menu item at index ");
                push_decimal(&mut out, *i as u128);
            },
            ProbeError::Disabled(i) => {
                push_str_chars(&mut out, "menu item at index ");
                push_decimal(&mut out, *i as u128);
                push_str_chars(&mut out, " is disabled");
            },
            ProbeError::NoOption { index, value, expected } => {
                push_str_chars(&mut out, "submenu at index ");
                push_decimal(&mut out, *index as u128);
                push_str_chars(&mut out, " has no option ");
                push_str_chars(&mut out, format_i64(*value as i64).as_str());
                push_str_chars(&mut out, "; expected one of [");
                push_joined_values(&mut out, expected);
                push_str_chars(&mut out, "]");
            },
            ProbeError::Separator(i) => {
                push_str_chars(&mut out, "menu item at index ");
                push_decimal(&mut out, *i as u128);
                push_str_chars(&mut out, " is a separator");
            },
            ProbeError::ReactionSubmenu(i) => {
                push_str_chars(&mut out, "menu item at index ");
                push_decimal(&mut out, *i as u128);
                push_str_chars(&mut out, " is the reaction submenu");
            },
        }
        assert(out@ =~= self.message_spec());
        string_from_chars(&out)
    }
}

fn push_joined_values(out: &mut Vec<char>, vs: &Vec<i32>)
    ensures
        final(out)@ == old(out)@ + joined_values(vs@),
{
    let ghost start = out@;
    let mut i: usize = 0;
    while i < vs.len()
        invariant
            i <= vs@.len(),
            out@ == start + joined_values(vs@.take(i as int)),
        decreases vs@.len() - i,
    {
        if i > 0 {
            push_str_chars(out, ", ");
        }
        push_str_chars(out, format_i64(vs[i] as i64).as_str());
        proof {
            let t = vs@.take(i + 1);
            assert(t.drop_last() =~= vs@.take(i as int));
            if i == 0 {
                assert(vs@.take(0) =~= Seq::<i32>::empty());
            }
        }
        i = i + 1;
    }
    assert(vs@.take(vs@.len() as int) =~= vs@);
}

} // verus!
