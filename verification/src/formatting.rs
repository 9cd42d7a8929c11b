//! Plain-text renderings of numbers: decimal digits, thousands separators,
//! minutes and seconds of a clip, and the file name of a download.

use vstd::prelude::*;

use crate::chars::{chars_of, push_str_chars, string_from_chars};

verus! {

/// The ASCII digit of a value below ten.
pub open spec fn digit_char(d: nat) -> char {
    ((48 + d) as u32) as char
}

/// Decimal digits of a natural number, without leading zeros.
pub open spec fn decimal_spec(n: nat) -> Seq<char>
    decreases n,
{
    if n < 10 {
        seq![digit_char(n)]
    } else {
        decimal_spec(n / 10).push(digit_char(n % 10))
    }
}

/// Decimal digits padded with zeros to at least `width` characters.
pub open spec fn padded_spec(n: nat, width: nat) -> Seq<char> {
    let d = decimal_spec(n);
    if d.len() >= width {
        d
    } else {
        Seq::new((width - d.len()) as nat, |i: int| '0') + d
    }
}

fn digit(d: u128) -> (c: char)
    requires
        d < 10,
    ensures
        c == digit_char(d as nat),
{
    let b: u8 = 48u8 + (d as u8);
    b as char
}

/// Appends the decimal digits of `n`.
pub fn push_decimal(out: &mut Vec<char>, n: u128)
    ensures
        final(out)@ == old(out)@ + decimal_spec(n as nat),
    decreases n,
{
    if n >= 10 {
        push_decimal(out, n / 10);
    }
    out.push(digit(n % 10));
    proof {
        if n >= 10 {
            assert(decimal_spec(n as nat) == decimal_spec((n / 10) as nat).push(digit_char((n % 10) as nat)));
        }
    }
    assert(out@ =~= old(out)@ + decimal_spec(n as nat));
}

/// The decimal digits of `n`.
pub fn decimal_string(n: u128) -> (r: String)
    ensures
        r@ == decimal_spec(n as nat),
{
    let mut out: Vec<char> = Vec::new();
    push_decimal(&mut out, n);
    assert(out@ =~= decimal_spec(n as nat));
    string_from_chars(&out)
}

/// Digits grouped by three from the right, the groups joined by commas.
pub open spec fn group_thousands(d: Seq<char>) -> Seq<char>
    decreases d.len(),
{
    if d.len() <= 3 {
        d
    } else {
        group_thousands(d.take(d.len() - 3)) + seq![','] + d.skip(d.len() - 3)
    }
}

/// Appends the first `end` digits of `d`, grouped by three.
fn push_grouped(out: &mut Vec<char>, d: &Vec<char>, end: usize)
    requires
        end <= d@.len(),
    ensures
        final(out)@ == old(out)@ + group_thousands(d@.take(end as int)),
    decreases end,
{
    let ghost part = d@.take(end as int);
    if end <= 3 {
        let mut i: usize = 0;
        while i < end
            invariant
                i <= end,
                end <= d@.len(),
                part == d@.take(end as int),
                out@ == old(out)@ + part.take(i as int),
            decreases end - i,
        {
            out.push(d[i]);
            i = i + 1;
            assert(out@ =~= old(out)@ + part.take(i as int));
        }
        assert(part.take(end as int) =~= part);
    } else {
        push_grouped(out, d, end - 3);
        out.push(',');
        out.push(d[end - 3]);
        out.push(d[end - 2]);
        out.push(d[end - 1]);
        assert(part.take(part.len() - 3) =~= d@.take(end - 3));
        assert(out@ =~= old(out)@ + group_thousands(part));
    }
}

/// Decimal digits of an integer grouped by three with commas, with a minus
/// sign before negative numbers.
pub open spec fn thousands_spec(n: int) -> Seq<char> {
    let g = group_thousands(decimal_spec(if n < 0 { (-n) as nat } else { n as nat }));
    if n < 0 { seq!['-'] + g } else { g }
}

pub fn format_thousands(n: i128) -> (r: String)
    ensures
        r@ == thousands_spec(n as int),
{
    let magnitude: u128 = if n < 0 {
        if n == i128::MIN {
            170141183460469231731687303715884105728u128
        } else {
            (-n) as u128
        }
    } else {
        n as u128
    };
    let mut digits: Vec<char> = Vec::new();
    push_decimal(&mut digits, magnitude);
    assert(digits@ =~= decimal_spec(magnitude as nat));
    let mut out: Vec<char> = Vec::new();
    if n < 0 {
        out.push('-');
    }
    let len = digits.len();
    push_grouped(&mut out, &digits, len);
    assert(digits@.take(len as int) =~= digits@);
    assert(out@ =~= thousands_spec(n as int));
    string_from_chars(&out)
}

/// `m:ss` of a number of whole seconds: minutes, then the seconds of the
/// last minute on two digits.
pub open spec fn mmss_spec(total: nat) -> Seq<char> {
    decimal_spec(total / 60) + seq![':'] + padded_spec(total % 60, 2)
}

fn push_mmss(out: &mut Vec<char>, total: u64)
    ensures
        final(out)@ == old(out)@ + mmss_spec(total as nat),
{
    let ghost start = out@;
    push_decimal(out, (total / 60) as u128);
    out.push(':');
    let secs = total % 60;
    if secs < 10 {
        out.push('0');
    }
    push_decimal(out, secs as u128);
    proof {
        let d = decimal_spec(secs as nat);
        if secs < 10 {
            assert(d =~= seq![digit_char(secs as nat)]);
            assert(Seq::new(1, |i: int| '0') + d =~= seq!['0'] + d);
        } else {
            assert(decimal_spec((secs / 10) as nat) =~= seq![digit_char((secs / 10) as nat)]);
            assert(d.len() == 2);
        }
    }
    assert(out@ =~= start + mmss_spec(total as nat));
}

/// [`mmss_spec`] of a number of whole seconds.
pub fn format_mmss(total_secs: u64) -> (r: String)
    ensures
        r@ == mmss_spec(total_secs as nat),
{
    let mut out: Vec<char> = Vec::new();
    push_mmss(&mut out, total_secs);
    assert(out@ =~= mmss_spec(total_secs as nat));
    string_from_chars(&out)
}

/// Playback label: the position alone while the length is unknown (zero),
/// else position and length.
pub open spec fn time_label_spec(current: nat, duration: nat) -> Seq<char> {
    if duration == 0 {
        mmss_spec(current)
    } else {
        mmss_spec(current) + " / "@ + mmss_spec(duration)
    }
}

/// [`time_label_spec`] of a position and a length in whole seconds.
pub fn audio_time_label(current_secs: u64, duration_secs: u64) -> (r: String)
    ensures
        r@ == time_label_spec(current_secs as nat, duration_secs as nat),
{
    let mut out: Vec<char> = Vec::new();
    push_mmss(&mut out, current_secs);
    if duration_secs != 0 {
        push_str_chars(&mut out, " / ");
        push_mmss(&mut out, duration_secs);
    }
    assert(out@ =~= time_label_spec(current_secs as nat, duration_secs as nat));
    string_from_chars(&out)
}

/// Position of the last `/` of `s`, if any.
pub open spec fn last_slash(s: Seq<char>) -> Option<int>
    decreases s.len(),
{
    if s.len() == 0 {
        None
    } else if s.last() == '/' {
        Some(s.len() - 1)
    } else {
        last_slash(s.drop_last())
    }
}

/// The text after the last `/` of a URL (all of it without one).
pub open spec fn last_segment(s: Seq<char>) -> Seq<char> {
    match last_slash(s) {
        Some(k) => s.skip(k + 1),
        None => s,
    }
}

/// File name of a downloaded sound: the URL's last segment, or the short
/// name with `.mp3` when that segment is empty.
pub open spec fn download_name_spec(shortname: Seq<char>, url: Seq<char>) -> Seq<char> {
    if last_segment(url).len() > 0 {
        last_segment(url)
    } else {
        shortname + ".mp3"@
    }
}

proof fn lemma_last_slash_scan(s: Seq<char>, k: int)
    requires
        0 <= k <= s.len(),
        forall|j: int| k <= j < s.len() ==> s[j] != '/',
    ensures
        last_slash(s) == last_slash(s.take(k)),
    decreases s.len() - k,
{
    if k < s.len() {
        assert(s.drop_last() =~= s.take(s.len() - 1));
        lemma_last_slash_scan(s.drop_last(), k);
        assert(s.drop_last().take(k) =~= s.take(k));
    } else {
        assert(s.take(k) =~= s);
    }
}

pub fn sound_download_name(shortname: &str, url: &str) -> (r: String)
    ensures
        r@ == download_name_spec(shortname@, url@),
{
    let cs = chars_of(url);
    let mut k: usize = cs.len();
    while k > 0 && cs[k - 1] != '/'
        invariant
            k <= cs@.len(),
            forall|j: int| k <= j < cs@.len() ==> cs@[j] != '/',
        decreases k,
    {
        k = k - 1;
    }
    proof {
        lemma_last_slash_scan(cs@, k as int);
        if k > 0 {
            assert(cs@.take(k as int).drop_last() =~= cs@.take(k - 1));
            assert(last_slash(cs@.take(k as int)) == Some(k - 1));
        } else {
            assert(cs@.take(0) =~= Seq::<char>::empty());
        }
    }
    let mut name: Vec<char> = Vec::new();
    let mut i: usize = k;
    while i < cs.len()
        invariant
            k <= i <= cs@.len(),
            name@ == cs@.subrange(k as int, i as int),
        decreases cs@.len() - i,
    {
        name.push(cs[i]);
        i = i + 1;
        assert(name@ =~= cs@.subrange(k as int, i as int));
    }
    assert(name@ =~= last_segment(url@));
    if name.len() > 0 {
        string_from_chars(&name)
    } else {
        let mut out = chars_of(shortname);
        push_str_chars(&mut out, ".mp3");
        string_from_chars(&out)
    }
}

pub open spec fn not_comma(c: char) -> bool {
    c != ','
}

proof fn lemma_no_commas_kept(s: Seq<char>)
    requires
        forall|i: int| 0 <= i < s.len() ==> s[i] != ',',
    ensures
        s.filter(|c: char| not_comma(c)) == s,
    decreases s.len(),
{
    reveal(Seq::filter);
    if s.len() > 0 {
        lemma_no_commas_kept(s.drop_last());
        assert(s.drop_last().push(s.last()) =~= s);
    }
}

/// Thousands grouping keeps the digits: dropping the commas gives the
/// digits back, and one comma stands between each group of three.
pub proof fn lemma_grouping_keeps_digits(d: Seq<char>)
    requires
        forall|i: int| 0 <= i < d.len() ==> d[i] != ',',
    ensures
        group_thousands(d).filter(|c: char| not_comma(c)) == d,
        group_thousands(d).len() == d.len() + (if d.len() == 0 { 0 } else { (d.len() - 1) / 3 }),
    decreases d.len(),
{
    if d.len() <= 3 {
        lemma_no_commas_kept(d);
    } else {
        let head = d.take(d.len() - 3);
        let tail = d.skip(d.len() - 3);
        lemma_grouping_keeps_digits(head);
        Seq::filter_distributes_over_add(group_thousands(head) + seq![','], tail, |c: char| not_comma(c));
        Seq::filter_distributes_over_add(group_thousands(head), seq![','], |c: char| not_comma(c));
        assert(seq![','].filter(|c: char| not_comma(c)) =~= Seq::<char>::empty()) by {
            reveal_with_fuel(Seq::filter, 2);
            assert(seq![','].drop_last() =~= Seq::<char>::empty());
            assert(not_comma(seq![','].last()) == false);
        }
        lemma_no_commas_kept(tail);
        assert(head + tail =~= d);
    }
}

/// Characters with the Unicode White_Space property.
pub open spec fn is_white_space(c: char) -> bool {
    ('\u{9}' <= c <= '\u{d}') || c == ' ' || c == '\u{85}' || c == '\u{a0}' || c == '\u{1680}' || ('\u{2000}' <= c
        <= '\u{200a}') || c == '\u{2028}' || c == '\u{2029}' || c == '\u{202f}' || c == '\u{205f}' || c == '\u{3000}'
}

fn white_space(c: char) -> (r: bool)
    ensures
        r == is_white_space(c),
{
    ('\u{9}' <= c && c <= '\u{d}') || c == ' ' || c == '\u{85}' || c == '\u{a0}' || c == '\u{1680}' || ('\u{2000}'
        <= c && c <= '\u{200a}') || c == '\u{2028}' || c == '\u{2029}' || c == '\u{202f}' || c == '\u{205f}' || c
        == '\u{3000}'
}

/// The characters of `s` without leading and trailing white space, as
/// `str::trim`: the span from the first to the last other character.
pub open spec fn trimmed(s: Seq<char>, lo: int, hi: int) -> bool {
    &&& 0 <= lo <= hi <= s.len()
    &&& forall|j: int| 0 <= j < lo ==> is_white_space(#[trigger] s[j])
    &&& forall|j: int| hi <= j < s.len() ==> is_white_space(#[trigger] s[j])
    &&& lo < hi ==> !is_white_space(s[lo]) && !is_white_space(s[hi - 1])
    &&& lo == hi ==> lo == 0 && forall|j: int| 0 <= j < s.len() ==> is_white_space(#[trigger] s[j])
}

/// Bounds of the text of `s` without surrounding white space.
fn trim_bounds(s: &Vec<char>) -> (r: (usize, usize))
    ensures
        trimmed(s@, r.0 as int, r.1 as int),
{
    let mut lo: usize = 0;
    while lo < s.len() && white_space(s[lo])
        invariant
            lo <= s@.len(),
            forall|j: int| 0 <= j < lo ==> is_white_space(#[trigger] s@[j]),
        decreases s@.len() - lo,
    {
        lo = lo + 1;
    }
    if lo == s.len() {
        return (0, 0);
    }
    let mut hi: usize = s.len();
    while hi > lo + 1 && white_space(s[hi - 1])
        invariant
            lo < hi <= s@.len(),
            !is_white_space(s@[lo as int]),
            forall|j: int| hi <= j < s@.len() ==> is_white_space(#[trigger] s@[j]),
        decreases hi,
    {
        hi = hi - 1;
    }
    (lo, hi)
}

pub open spec fn is_digit(c: char) -> bool {
    '0' <= c <= '9'
}

/// Value of a string of decimal digits.
pub open spec fn digits_value(d: Seq<char>) -> nat
    decreases d.len(),
{
    if d.len() == 0 {
        0
    } else {
        digits_value(d.drop_last()) * 10 + ((d.last() as u32) - 48) as nat
    }
}

/// The digits after an optional leading sign.
pub open spec fn unsigned_part(s: Seq<char>) -> Seq<char> {
    if s.len() > 0 && (s[0] == '-' || s[0] == '+') { s.skip(1) } else { s }
}

pub open spec fn all_digits(b: Seq<char>) -> bool {
    forall|j: int| 0 <= j < b.len() ==> is_digit(#[trigger] b[j])
}

/// `i128` parsing as `str::parse`: an optional sign, then one or more
/// decimal digits, the value within range; none otherwise.
pub open spec fn parse_i128_spec(s: Seq<char>) -> Option<int> {
    let body = unsigned_part(s);
    let v = if s.len() > 0 && s[0] == '-' { -digits_value(body) } else { digits_value(body) as int };
    if body.len() > 0 && all_digits(body) && i128::MIN <= v <= i128::MAX {
        Some(v)
    } else {
        None
    }
}

/// The value of the trimmed text of `s`, or zero where it is no `i128`.
pub open spec fn scaled_value(s: Seq<char>) -> int {
    let b = choose|b: (int, int)| #[trigger] trimmed(s, b.0, b.1);
    match parse_i128_spec(s.subrange(b.0, b.1)) {
        Some(v) => v,
        None => 0,
    }
}

/// Parses the trimmed text of a scaled token amount, as
/// `str::trim` then `str::parse::<i128>`, zero where that fails.
pub fn parse_scaled(scaled: &str) -> (r: i128)
    ensures
        r == scaled_value(scaled@),
{
    let cs = chars_of(scaled);
    let (lo, hi) = trim_bounds(&cs);
    proof {
        let b = choose|b: (int, int)| #[trigger] trimmed(cs@, b.0, b.1);
        assert(trimmed(cs@, lo as int, hi as int));
        lemma_trimmed_unique(cs@, b.0, b.1, lo as int, hi as int);
    }
    let ghost body_all = cs@.subrange(lo as int, hi as int);
    assert(scaled_value(scaled@) == (match parse_i128_spec(body_all) { Some(v) => v, None => 0 }));
    if lo == hi {
        return 0;
    }
    let neg = cs[lo] == '-';
    let start: usize = if cs[lo] == '-' || cs[lo] == '+' { lo + 1 } else { lo };
    let ghost body = cs@.subrange(start as int, hi as int);
    assert(body =~= unsigned_part(body_all));
    if start == hi {
        return 0;
    }
    let mut j: usize = start;
    while j < hi
        invariant
            lo <= start <= j <= hi <= cs@.len(),
            body == cs@.subrange(start as int, hi as int),
            body_all == cs@.subrange(lo as int, hi as int),
            body == unsigned_part(body_all),
            scaled_value(scaled@) == (match parse_i128_spec(body_all) { Some(v) => v, None => 0 }),
            forall|k: int| start <= k < j ==> is_digit(#[trigger] cs@[k]),
        decreases hi - j,
    {
        if !('0' <= cs[j] && cs[j] <= '9') {
            assert(!is_digit(body[j - start]));
            assert(parse_i128_spec(body_all) is None);
            return 0;
        }
        j = j + 1;
    }
    assert(all_digits(body)) by {
        assert forall|k: int| 0 <= k < body.len() implies is_digit(#[trigger] body[k]) by {
            assert(body[k] == cs@[start + k]);
        }
    }
    let limit: u128 = if neg { 170141183460469231731687303715884105728u128 } else { 170141183460469231731687303715884105727u128 };
    match parse_magnitude(&cs, start, hi, limit) {
        Some(m) => {
            if neg {
                if m == 170141183460469231731687303715884105728u128 {
                    i128::MIN
                } else {
                    -(m as i128)
                }
            } else {
                m as i128
            }
        },
        None => 0,
    }
}

/// Integer division rounding toward zero.
pub open spec fn div_toward_zero(a: int, b: int) -> int {
    if a >= 0 { a / b } else { -((-a) / b) }
}

proof fn lemma_trimmed_unique(s: Seq<char>, lo1: int, hi1: int, lo2: int, hi2: int)
    requires
        trimmed(s, lo1, hi1),
        trimmed(s, lo2, hi2),
    ensures
        lo1 == lo2 && hi1 == hi2,
{
    if lo1 < hi1 {
        if lo2 == hi2 {
            assert(is_white_space(s[lo1]));
        } else {
            if lo1 < lo2 { assert(is_white_space(s[lo1])); }
            if lo2 < lo1 { assert(is_white_space(s[lo2])); }
            if hi1 < hi2 { assert(is_white_space(s[hi2 - 1])); }
            if hi2 < hi1 { assert(is_white_space(s[hi1 - 1])); }
        }
    } else if lo2 < hi2 {
        assert(is_white_space(s[lo2]));
    }
}

proof fn lemma_digits_value_grows(s: Seq<char>, k: int)
    requires
        0 <= k <= s.len(),
    ensures
        digits_value(s.take(k)) <= digits_value(s),
    decreases s.len(),
{
    if k < s.len() {
        lemma_digits_value_grows(s.drop_last(), k);
        assert(s.drop_last().take(k) =~= s.take(k));
    } else {
        assert(s.take(k) =~= s);
    }
}

/// Parses the digits `d[from..to]` (all ASCII digits) into a magnitude,
/// none when it exceeds `limit`.
fn parse_magnitude(d: &Vec<char>, from: usize, to: usize, limit: u128) -> (r: Option<u128>)
    requires
        from <= to <= d@.len(),
        limit >= 9,
        forall|j: int| from <= j < to ==> is_digit(#[trigger] d@[j]),
    ensures
        match r {
            Some(v) => v == digits_value(d@.subrange(from as int, to as int)) && v <= limit,
            None => digits_value(d@.subrange(from as int, to as int)) > limit,
        },
{
    let mut v: u128 = 0;
    let mut i: usize = from;
    while i < to
        invariant
            from <= i <= to <= d@.len(),
            limit >= 9,
            forall|j: int| from <= j < to ==> is_digit(#[trigger] d@[j]),
            v == digits_value(d@.subrange(from as int, i as int)),
            v <= limit,
        decreases to - i,
    {
        let c = d[i];
        assert(is_digit(d@[i as int]));
        let dv: u128 = (c as u32 - 48) as u128;
        assert(d@.subrange(from as int, i + 1).drop_last() =~= d@.subrange(from as int, i as int));
        if v > (limit - dv) / 10 {
            proof {
                lemma_digits_value_grows(d@.subrange(from as int, to as int), (i + 1 - from) as int);
                assert(d@.subrange(from as int, to as int).take((i + 1 - from) as int) =~= d@.subrange(from as int, i + 1));
                assert(v * 10 + dv > limit) by (nonlinear_arith)
                    requires
                        v > (limit - dv) / 10,
                        dv <= 9,
                        limit >= 9,
                ;
            }
            return None;
        }
        proof {
            assert(v * 10 + dv <= limit) by (nonlinear_arith)
                requires
                    v <= (limit - dv) / 10,
                    dv <= 9,
                    limit >= 9,
            ;
        }
        v = v * 10 + dv;
        i = i + 1;
    }
    Some(v)
}

/// A whole-token balance: the trimmed amount in the smallest unit, divided
/// by the unit factor (rounding toward zero), with thousands separators.
pub open spec fn balance_spec(scaled: Seq<char>, decimal_factor: int) -> Seq<char> {
    thousands_spec(div_toward_zero(scaled_value(scaled), decimal_factor))
}

pub fn format_balance(scaled: &str, decimal_factor: i128) -> (r: String)
    requires
        decimal_factor > 0,
    ensures
        r@ == balance_spec(scaled@, decimal_factor as int),
{
    let value = parse_scaled(scaled);
    let f = decimal_factor as u128;
    let whole: i128 = if value >= 0 {
        ((value as u128) / f) as i128
    } else {
        let mag: u128 = if value == i128::MIN { 170141183460469231731687303715884105728u128 } else { (-value) as u128 };
        let q = mag / f;
        if q == 170141183460469231731687303715884105728u128 {
            i128::MIN
        } else {
            -(q as i128)
        }
    };
    format_thousands(whole)
}

/// `i64` parsing as `str::parse`: an optional sign, then one or more
/// decimal digits, the value within range; none otherwise.
pub open spec fn parse_i64_spec(s: Seq<char>) -> Option<int> {
    let body = unsigned_part(s);
    let v = if s.len() > 0 && s[0] == '-' { -digits_value(body) } else { digits_value(body) as int };
    if body.len() > 0 && all_digits(body) && i64::MIN <= v <= i64::MAX {
        Some(v)
    } else {
        None
    }
}

pub fn parse_i64(text: &str) -> (r: Option<i64>)
    ensures
        match parse_i64_spec(text@) {
            Some(v) => r == Some(v as i64),
            None => r is None,
        },
{
    let cs = chars_of(text);
    if cs.len() == 0 {
        return None;
    }
    let neg = cs[0] == '-';
    let start: usize = if cs[0] == '-' || cs[0] == '+' { 1 } else { 0 };
    let ghost body = cs@.subrange(start as int, cs@.len() as int);
    assert(body =~= unsigned_part(text@));
    if start == cs.len() {
        return None;
    }
    let mut j: usize = start;
    while j < cs.len()
        invariant
            start <= j <= cs@.len(),
            cs@ == text@,
            body == cs@.subrange(start as int, cs@.len() as int),
            body == unsigned_part(text@),
            forall|k: int| start <= k < j ==> is_digit(#[trigger] cs@[k]),
        decreases cs@.len() - j,
    {
        if !('0' <= cs[j] && cs[j] <= '9') {
            assert(!is_digit(body[j - start]));
            return None;
        }
        j = j + 1;
    }
    assert(all_digits(body)) by {
        assert forall|k: int| 0 <= k < body.len() implies is_digit(#[trigger] body[k]) by {
            assert(body[k] == cs@[start + k]);
        }
    }
    let limit: u128 = if neg { 9223372036854775808u128 } else { 9223372036854775807u128 };
    match parse_magnitude(&cs, start, cs.len(), limit) {
        Some(m) => {
            if neg {
                if m == 9223372036854775808u128 {
                    Some(i64::MIN)
                } else {
                    Some(-(m as i64))
                }
            } else {
                Some(m as i64)
            }
        },
        None => None,
    }
}

/// Decimal text of an integer, with a minus sign before negative ones.
pub open spec fn signed_decimal_spec(v: int) -> Seq<char> {
    if v < 0 { seq!['-'] + decimal_spec((-v) as nat) } else { decimal_spec(v as nat) }
}

pub fn format_i64(v: i64) -> (r: String)
    ensures
        r@ == signed_decimal_spec(v as int),
{
    let mut out: Vec<char> = Vec::new();
    let magnitude: u128 = if v < 0 {
        out.push('-');
        if v == i64::MIN { 9223372036854775808u128 } else { (-v) as u128 }
    } else {
        v as u128
    };
    push_decimal(&mut out, magnitude);
    assert(out@ =~= signed_decimal_spec(v as int));
    string_from_chars(&out)
}

} // verus!
