//! Sticker and sound grids of the clan settings: who may manage an item,
//! when the grid is rebuilt, and how many rows it takes.

use vstd::prelude::*;

use crate::chars::{chars_of, str_eq_chars};
use crate::formatting::{format_i64, parse_i64, parse_i64_spec, signed_decimal_spec};

verus! {

/// Stickers a clan can hold.
pub const MAX_STICKER_SLOTS: usize = 250;

/// A sticker may be managed with the clan's manage permission, or by its
/// creator (its creator id, read as an `i64`, is the current user's).
pub open spec fn can_manage_sticker_spec(has_manage_clan: bool, creator_id: Seq<char>, current_user: Option<i64>) -> bool {
    has_manage_clan || match current_user {
        Some(u) => parse_i64_spec(creator_id) == Some(u as int),
        None => false,
    }
}

pub fn can_manage_sticker(has_manage_clan: bool, creator_id: &str, current_user: Option<i64>) -> (r: bool)
    ensures
        r == can_manage_sticker_spec(has_manage_clan, creator_id@, current_user),
{
    if has_manage_clan {
        return true;
    }
    let current = match current_user {
        Some(u) => u,
        None => return false,
    };
    match parse_i64(creator_id) {
        Some(id) => id == current,
        None => false,
    }
}

/// A sound may be managed with the clan's manage permission, or by its
/// creator (the current user's id, written in decimal, is its creator id).
pub open spec fn can_manage_sound_spec(has_manage_clan: bool, creator_id: Seq<char>, current_user: Option<i64>) -> bool {
    has_manage_clan || match current_user {
        Some(u) => signed_decimal_spec(u as int) == creator_id,
        None => false,
    }
}

pub fn can_manage_sound(has_manage_clan: bool, creator_id: &str, current_user: Option<i64>) -> (r: bool)
    ensures
        r == can_manage_sound_spec(has_manage_clan, creator_id@, current_user),
{
    if has_manage_clan {
        return true;
    }
    match current_user {
        Some(u) => {
            let text = format_i64(u);
            str_eq_chars(creator_id, &chars_of(text.as_str()))
        },
        None => false,
    }
}

/// Rows of a grid of `cells` cells, `columns` to a row.
pub fn grid_row_count(cells: usize, columns: usize) -> (r: usize)
    requires
        columns > 0,
    ensures
        r == (cells + columns - 1) / columns as int,
{
    let q = cells / columns;
    if cells % columns == 0 {
        proof {
            assert((cells + columns - 1) / columns as int == q) by (nonlinear_arith)
                requires
                    columns > 0,
                    q == cells / columns,
                    cells % columns == 0,
            ;
        }
        q
    } else {
        proof {
            assert(q < usize::MAX) by (nonlinear_arith)
                requires
                    columns > 0,
                    q == cells / columns,
                    cells % columns != 0,
                    cells <= usize::MAX,
            ;
            assert((cells + columns - 1) / columns as int == q + 1) by (nonlinear_arith)
                requires
                    columns > 0,
                    q == cells / columns,
                    cells % columns != 0,
            ;
        }
        q + 1
    }
}

/// What a sticker card shows.
pub struct StickerCardData {
    pub id: String,
    pub shortname: String,
    pub src: String,
    pub creator_name: String,
    pub creator_avatar: Option<String>,
    pub can_manage: bool,
    pub is_for_sale: bool,
}

pub open spec fn opt_text(o: Option<String>) -> Option<Seq<char>> {
    match o {
        Some(s) => Some(s@),
        None => None,
    }
}

impl StickerCardData {
    pub open spec fn same_spec(&self, other: &Self) -> bool {
        &&& self.id@ == other.id@
        &&& self.shortname@ == other.shortname@
        &&& self.src@ == other.src@
        &&& self.creator_name@ == other.creator_name@
        &&& opt_text(self.creator_avatar) == opt_text(other.creator_avatar)
        &&& self.can_manage == other.can_manage
        &&& self.is_for_sale == other.is_for_sale
    }

    /// Whether two cards show the same thing.
    pub fn same_as(&self, other: &Self) -> (r: bool)
        ensures
            r == self.same_spec(other),
    {
        let avatars = match (&self.creator_avatar, &other.creator_avatar) {
            (Some(a), Some(b)) => *a == *b,
            (None, None) => true,
            _ => false,
        };
        self.id == other.id && self.shortname == other.shortname && self.src == other.src
            && self.creator_name == other.creator_name && avatars && self.can_manage == other.can_manage && self.is_for_sale == other.is_for_sale
    }
}

/// A cell of the sticker grid: a sticker, or the card that adds one.
pub enum StickerGridCell {
    Sticker(StickerCardData),
    Add,
}

pub open spec fn same_cell(a: StickerGridCell, b: StickerGridCell) -> bool {
    match (a, b) {
        (StickerGridCell::Sticker(x), StickerGridCell::Sticker(y)) => x.same_spec(&y),
        (StickerGridCell::Add, StickerGridCell::Add) => true,
        _ => false,
    }
}

pub open spec fn same_cells(a: Seq<StickerGridCell>, b: Seq<StickerGridCell>) -> bool {
    a.len() == b.len() && forall|i: int| 0 <= i < a.len() ==> same_cell(#[trigger] a[i], b[i])
}

pub open spec fn is_sticker(c: StickerGridCell) -> bool {
    c is Sticker
}

/// The sticker grid: its column count and cells.
pub struct StickerGrid {
    pub columns: usize,
    pub cells: Vec<StickerGridCell>,
}

fn same_cell_exec(a: &StickerGridCell, b: &StickerGridCell) -> (r: bool)
    ensures
        r == same_cell(*a, *b),
{
    match (a, b) {
        (StickerGridCell::Sticker(x), StickerGridCell::Sticker(y)) => x.same_as(y),
        (StickerGridCell::Add, StickerGridCell::Add) => true,
        _ => false,
    }
}

impl StickerGrid {
    /// Stickers in the grid (the add card not counted).
    pub fn sticker_count(&self) -> (r: usize)
        ensures
            r == self.cells@.filter(|c: StickerGridCell| is_sticker(c)).len(),
    {
        let mut n: usize = 0;
        let mut i: usize = 0;
        while i < self.cells.len()
            invariant
                i <= self.cells@.len(),
                n == self.cells@.take(i as int).filter(|c: StickerGridCell| is_sticker(c)).len(),
                n <= i,
            decreases self.cells@.len() - i,
        {
            proof {
                assert(self.cells@.take(i + 1).drop_last() =~= self.cells@.take(i as int));
                reveal(Seq::filter);
            }
            match &self.cells[i] {
                StickerGridCell::Sticker(_) => n = n + 1,
                StickerGridCell::Add => {},
            }
            i = i + 1;
        }
        assert(self.cells@.take(self.cells@.len() as int) =~= self.cells@);
        n
    }

    /// Takes the new cards (followed by the add card) and column count,
    /// unless they show the same as the grid already does; returns whether
    /// the grid changed.
    pub fn rebuild(&mut self, columns: usize, cards: Vec<StickerCardData>) -> (changed: bool)
        ensures
            ({
                let next = cards@.map_values(|c: StickerCardData| StickerGridCell::Sticker(c)).push(StickerGridCell::Add);
                if old(self).columns == columns && same_cells(old(self).cells@, next) {
                    !changed && final(self).columns == old(self).columns && final(self).cells@ == old(self).cells@
                } else {
                    changed && final(self).columns == columns && final(self).cells@ == next
                }
            }),
    {
        let ghost next_spec = cards@.map_values(|c: StickerCardData| StickerGridCell::Sticker(c)).push(StickerGridCell::Add);
        let mut next: Vec<StickerGridCell> = Vec::new();
        let mut rest = cards;
        let ghost input = rest@;
        let n = rest.len();
        let mut i: usize = 0;
        while i < n
            invariant
                n == input.len(),
                i <= n,
                rest@ == input.skip(i as int),
                next@ == input.take(i as int).map_values(|c: StickerCardData| StickerGridCell::Sticker(c)),
            decreases n - i,
        {
            let card = rest.remove(0);
            proof {
                assert(input.skip(i as int).drop_first() =~= input.skip(i + 1));
            }
            next.push(StickerGridCell::Sticker(card));
            i = i + 1;
            assert(next@ =~= input.take(i as int).map_values(|c: StickerCardData| StickerGridCell::Sticker(c)));
        }
        next.push(StickerGridCell::Add);
        assert(input.take(n as int) =~= input);
        assert(next@ =~= next_spec);
        let mut same = self.columns == columns && self.cells.len() == next.len();
        let mut k: usize = 0;
        while same && k < next.len()
            invariant
                k <= next@.len(),
                next@ == next_spec,
                self.cells@ == old(self).cells@,
                self.columns == old(self).columns,
                same ==> self.cells@.len() == next@.len() && self.columns == columns,
                same ==> forall|j: int| 0 <= j < k ==> same_cell(#[trigger] self.cells@[j], next@[j]),
                !same ==> !(self.columns == columns && same_cells(self.cells@, next@)),
            decreases next@.len() - k,
        {
            if !same_cell_exec(&self.cells[k], &next[k]) {
                same = false;
            }
            k = k + 1;
        }
        if same {
            return false;
        }
        self.columns = columns;
        self.cells = next;
        true
    }
}

/// What a sound card shows.
pub struct SoundCardData {
    pub id: String,
    pub shortname: String,
    pub src: String,
    pub download_name: String,
    pub creator_name: Option<String>,
    pub creator_avatar: Option<String>,
    pub can_manage: bool,
}

/// A sound can be previewed once a file is picked, or from a remote URL
/// (not a local `file://` one).
pub open spec fn can_preview_spec(has_picked_file: bool, preview_url: Option<Seq<char>>) -> bool {
    has_picked_file || match preview_url {
        Some(url) => !(url.len() >= 7 && url.take(7) == "file://"@),
        None => false,
    }
}

pub fn can_preview(has_picked_file: bool, preview_url: Option<&str>) -> (r: bool)
    ensures
        r == can_preview_spec(has_picked_file, match preview_url {
            Some(u) => Some(u@),
            None => None,
        }),
{
    if has_picked_file {
        return true;
    }
    match preview_url {
        Some(url) => {
            let cs = chars_of(url);
            let prefix = chars_of("file://");
            proof {
                reveal_strlit("file://");
            }
            if cs.len() < 7 {
                return true;
            }
            let mut k: usize = 0;
            while k < 7
                invariant
                    k <= 7,
                    cs@.len() >= 7,
                    cs@ == url@,
                    !has_picked_file,
                    preview_url == Some(url),
                    prefix@ == "file://"@,
                    prefix@.len() == 7,
                    forall|j: int| 0 <= j < k ==> cs@[j] == prefix@[j],
                decreases 7 - k,
            {
                if cs[k] != prefix[k] {
                    assert(cs@.take(7)[k as int] != "file://"@[k as int]);
                    return true;
                }
                k = k + 1;
            }
            assert(cs@.take(7) =~= "file://"@);
            false
        },
        None => false,
    }
}

/// Translation key of the message for an upload error code.
pub open spec fn sound_error_key_spec(code: Seq<char>) -> &'static str {
    if code == "size_limit"@ {
        "clanSoundSetting.toast.errorSizeLimit"
    } else if code == "unsupported_type"@ || code == "empty"@ || code == "invalid_file"@ || code == "decode_failed"@ {
        "clanSoundSetting.toast.errorFileType"
    } else if code == "invalid_name"@ {
        "clanSoundSetting.modal.errorName"
    } else {
        "clanSoundSetting.modal.errorUploadFailed"
    }
}

/// [`sound_error_key_spec`] of an error code; the name error's text takes
/// the name length bounds.
pub fn sound_error_key(code: &str) -> (r: &'static str)
    ensures
        r == sound_error_key_spec(code@),
{
    if str_eq_chars(code, &chars_of("size_limit")) {
        "clanSoundSetting.toast.errorSizeLimit"
    } else if str_eq_chars(code, &chars_of("unsupported_type")) || str_eq_chars(code, &chars_of("empty"))
        || str_eq_chars(code, &chars_of("invalid_file")) || str_eq_chars(code, &chars_of("decode_failed")) {
        "clanSoundSetting.toast.errorFileType"
    } else if str_eq_chars(code, &chars_of("invalid_name")) {
        "clanSoundSetting.modal.errorName"
    } else {
        "clanSoundSetting.modal.errorUploadFailed"
    }
}

/// The sound form can be submitted when no upload is running and the
/// trimmed name is a valid shortname; an edit needs a changed name, an
/// upload a picked file.
pub open spec fn can_submit_spec(
    submitting: bool,
    name: Seq<char>,
    name_is_valid: bool,
    editing_shortname: Option<Seq<char>>,
    has_picked_file: bool,
) -> bool {
    !submitting && name_is_valid && match editing_shortname {
        Some(old_name) => old_name != name,
        None => has_picked_file,
    }
}

/// [`can_submit_spec`]; `name` is the trimmed name field and
/// `name_is_valid` says whether it is a valid shortname.
pub fn can_submit(
    submitting: bool,
    name: &str,
    name_is_valid: bool,
    editing_shortname: Option<&str>,
    has_picked_file: bool,
) -> (r: bool)
    ensures
        r == can_submit_spec(submitting, name@, name_is_valid, match editing_shortname {
            Some(s) => Some(s@),
            None => None,
        }, has_picked_file),
{
    if submitting || !name_is_valid {
        return false;
    }
    match editing_shortname {
        Some(old_name) => !str_eq_chars(old_name, &chars_of(name)),
        None => has_picked_file,
    }
}

} // verus!
