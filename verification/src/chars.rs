//! Character-level helpers shared by the text and search logic.

use vstd::prelude::*;

verus! {

broadcast use vstd::string::group_string_axioms;

/// The characters of `s`, in order.
pub fn chars_of(s: &str) -> (r: Vec<char>)
    ensures
        r@ == s@,
{
    let mut out: Vec<char> = Vec::new();
    for c in iter: s.chars()
        invariant
            out@ == iter.seq().take(iter.index() as int),
    {
        out.push(c);
    }
    out
}

/// `String::push` from std: appends one character.
#[verifier::external_body]
pub(crate) fn push_char(s: &mut String, c: char)
    ensures
        final(s)@ == old(s)@.push(c),
{
    s.push(c);
}

/// The string holding exactly the characters of `chars`.
pub fn string_from_chars(chars: &Vec<char>) -> (r: String)
    ensures
        r@ == chars@,
{
    let mut out = String::new();
    let mut i: usize = 0;
    while i < chars.len()
        invariant
            i <= chars@.len(),
            out@ == chars@.take(i as int),
        decreases chars@.len() - i,
    {
        push_char(&mut out, chars[i]);
        i = i + 1;
        assert(out@ =~= chars@.take(i as int));
    }
    assert(chars@.take(chars@.len() as int) =~= chars@);
    out
}

/// Appends the characters of `s` to `out`.
pub fn push_str_chars(out: &mut Vec<char>, s: &str)
    ensures
        final(out)@ == old(out)@ + s@,
{
    let cs = chars_of(s);
    let ghost start = out@;
    let mut i: usize = 0;
    while i < cs.len()
        invariant
            i <= cs@.len(),
            cs@ == s@,
            out@ == start + cs@.take(i as int),
        decreases cs@.len() - i,
    {
        out.push(cs[i]);
        i = i + 1;
        assert(out@ =~= start + cs@.take(i as int));
    }
    assert(cs@.take(cs@.len() as int) =~= cs@);
}

/// ASCII lower-casing of one character, as `char::to_ascii_lowercase`.
pub open spec fn ascii_lower(c: char) -> char {
    if 'A' <= c <= 'Z' { ((c as u32) + 32) as char } else { c }
}

/// Whether two character sequences are equal ignoring ASCII case.
pub open spec fn eq_ignore_ascii_case(a: Seq<char>, b: Seq<char>) -> bool {
    a.len() == b.len() && forall|i: int| 0 <= i < a.len() ==> ascii_lower(#[trigger] a[i]) == ascii_lower(b[i])
}

pub fn to_ascii_lower(c: char) -> (r: char)
    ensures
        r == ascii_lower(c),
{
    if 'A' <= c && c <= 'Z' {
        let v: u32 = c as u32 + 32;
        proof { assert(0x61 <= v <= 0x7a); }
        char_from_ascii(v)
    } else {
        c
    }
}

/// The character of an ASCII code point.
fn char_from_ascii(v: u32) -> (r: char)
    requires
        v < 128,
    ensures
        r == v as char,
{
    let b: u8 = v as u8;
    b as char
}

/// Code points of a character sequence, for code-point order (which is also
/// the byte order of the UTF-8 encodings).
pub open spec fn codes(s: Seq<char>) -> Seq<int> {
    s.map_values(|c: char| c as int)
}

/// One step of a code-point comparison at position `k`.
pub proof fn lemma_codes_step(a: Seq<char>, b: Seq<char>, k: int)
    requires
        0 <= k < a.len(),
        0 <= k < b.len(),
    ensures
        codes(a).skip(k)[0] == a[k] as int,
        codes(b).skip(k)[0] == b[k] as int,
        codes(a).skip(k).len() > 0,
        codes(b).skip(k).len() > 0,
        codes(a).skip(k).drop_first() =~= codes(a).skip(k + 1),
        codes(b).skip(k).drop_first() =~= codes(b).skip(k + 1),
        (a[k] < b[k]) == ((a[k] as int) < (b[k] as int)),
        (a[k] > b[k]) == ((a[k] as int) > (b[k] as int)),
{
}

/// Lengths of the code sequences once a comparison ran out of one side.
pub proof fn lemma_codes_len(a: Seq<char>, b: Seq<char>, k: int)
    requires
        0 <= k <= a.len(),
        0 <= k <= b.len(),
    ensures
        codes(a).skip(k).len() == a.len() - k,
        codes(b).skip(k).len() == b.len() - k,
{
}

/// Whether `needle` occurs in `hay` at character position `k`.
pub open spec fn matches_at(hay: Seq<char>, needle: Seq<char>, k: int) -> bool {
    0 <= k && k + needle.len() <= hay.len() && hay.subrange(k, k + needle.len()) =~= needle
}

/// First character position at or after `k` where `needle` occurs.
pub open spec fn first_match_from(hay: Seq<char>, needle: Seq<char>, k: int) -> Option<int>
    decreases hay.len() - k,
{
    if k < 0 || k + needle.len() > hay.len() {
        None
    } else if matches_at(hay, needle, k) {
        Some(k)
    } else {
        first_match_from(hay, needle, k + 1)
    }
}

pub proof fn lemma_first_match_from_bounds(hay: Seq<char>, needle: Seq<char>, k: int)
    ensures
        first_match_from(hay, needle, k) matches Some(j) ==> k <= j && j + needle.len() <= hay.len()
            && matches_at(hay, needle, j),
    decreases hay.len() - k,
{
    if !(k < 0 || k + needle.len() > hay.len()) && !matches_at(hay, needle, k) {
        lemma_first_match_from_bounds(hay, needle, k + 1);
    }
}

/// Character position of the first occurrence of `needle` in `hay`.
pub open spec fn find_char_spec(hay: Seq<char>, needle: Seq<char>) -> Option<int> {
    first_match_from(hay, needle, 0)
}

/// Whether `needle` occurs in `hay` (`str::contains`).
pub open spec fn contains_spec(hay: Seq<char>, needle: Seq<char>) -> bool {
    find_char_spec(hay, needle) is Some
}

/// Bytes in the UTF-8 encoding of one character (`char::len_utf8`).
pub open spec fn char_utf8_len(c: char) -> nat {
    if (c as u32) < 0x80 { 1 } else if (c as u32) < 0x800 { 2 } else if (c as u32) < 0x10000 { 3 } else { 4 }
}

/// Bytes in the UTF-8 encoding of a character sequence.
pub open spec fn utf8_len(s: Seq<char>) -> nat
    decreases s.len(),
{
    if s.len() == 0 { 0 } else { utf8_len(s.drop_last()) + char_utf8_len(s.last()) }
}

/// Code units in the UTF-16 encoding of one character (`char::len_utf16`).
pub open spec fn char_utf16_len(c: char) -> nat {
    if (c as u32) < 0x10000 { 1 } else { 2 }
}

/// Code units in the UTF-16 encoding of a character sequence.
pub open spec fn utf16_len(s: Seq<char>) -> nat
    decreases s.len(),
{
    if s.len() == 0 { 0 } else { utf16_len(s.drop_last()) + char_utf16_len(s.last()) }
}

/// Byte offset of the first occurrence of `needle` in `hay` (`str::find`).
pub open spec fn find_byte_spec(hay: Seq<char>, needle: Seq<char>) -> Option<nat> {
    match find_char_spec(hay, needle) {
        Some(k) => Some(utf8_len(hay.take(k))),
        None => None,
    }
}

pub fn char_len_utf8(c: char) -> (r: usize)
    ensures
        r == char_utf8_len(c),
{
    let v = c as u32;
    if v < 0x80 { 1 } else if v < 0x800 { 2 } else if v < 0x10000 { 3 } else { 4 }
}

pub fn char_len_utf16(c: char) -> (r: usize)
    ensures
        r == char_utf16_len(c),
{
    let v = c as u32;
    if v < 0x10000 { 1 } else { 2 }
}

pub proof fn lemma_utf8_len_step(s: Seq<char>, i: int)
    requires
        0 <= i < s.len(),
    ensures
        utf8_len(s.take(i + 1)) == utf8_len(s.take(i)) + char_utf8_len(s[i]),
        utf16_len(s.take(i + 1)) == utf16_len(s.take(i)) + char_utf16_len(s[i]),
{
    assert(s.take(i + 1).drop_last() =~= s.take(i));
}

pub proof fn lemma_utf8_len_mono(s: Seq<char>, i: int, j: int)
    requires
        0 <= i <= j <= s.len(),
    ensures
        utf8_len(s.take(i)) <= utf8_len(s.take(j)),
        utf16_len(s.take(i)) <= utf16_len(s.take(j)),
        j - i <= utf8_len(s.take(j)) - utf8_len(s.take(i)),
    decreases j - i,
{
    if i < j {
        lemma_utf8_len_mono(s, i, j - 1);
        lemma_utf8_len_step(s, j - 1);
    }
}

proof fn lemma_encode_utf8_append(a: Seq<char>, b: Seq<char>)
    ensures
        vstd::utf8::encode_utf8(a + b) == vstd::utf8::encode_utf8(a) + vstd::utf8::encode_utf8(b),
    decreases a.len(),
{
    if a.len() > 0 {
        assert((a + b).drop_first() =~= a.drop_first() + b);
        lemma_encode_utf8_append(a.drop_first(), b);
        assert(vstd::utf8::encode_utf8(a + b) =~= vstd::utf8::encode_utf8(a) + vstd::utf8::encode_utf8(b));
    } else {
        assert(a + b =~= b);
        assert(vstd::utf8::encode_utf8(a) =~= Seq::<u8>::empty());
        assert(vstd::utf8::encode_utf8(a) + vstd::utf8::encode_utf8(b) =~= vstd::utf8::encode_utf8(b));
    }
}

/// The byte length of a string is [`utf8_len`] of its characters.
pub proof fn lemma_utf8_len_is_byte_len(s: Seq<char>)
    ensures
        utf8_len(s) == vstd::utf8::encode_utf8(s).len(),
    decreases s.len(),
{
    if s.len() > 0 {
        lemma_utf8_len_is_byte_len(s.drop_last());
        assert(s =~= s.drop_last() + seq![s.last()]);
        lemma_encode_utf8_append(s.drop_last(), seq![s.last()]);
        assert(seq![s.last()].drop_first() =~= Seq::<char>::empty());
        assert(vstd::utf8::encode_utf8(seq![s.last()]) =~= vstd::utf8::encode_scalar(s.last() as u32) + vstd::utf8::encode_utf8(Seq::<char>::empty()));
        lemma_encode_scalar_len(s.last());
    }
}

/// A string held in memory has a UTF-8 length within the address space.
pub fn utf8_len_fits(s: &str)
    ensures
        utf8_len(s@) <= usize::MAX,
{
    let bytes = s.as_bytes();
    let _n = bytes.len();
    proof {
        lemma_utf8_len_is_byte_len(s@);
    }
}

proof fn lemma_encode_scalar_len(c: char)
    ensures
        vstd::utf8::encode_scalar(c as u32).len() == char_utf8_len(c),
{
    let v = c as u32;
    assert(!(0xD800 <= v <= 0xDFFF));
    assert(v <= 0x10FFFF);
}

/// Whether `needle` occurs in `hay` at position `k`.
fn match_at(hay: &Vec<char>, needle: &Vec<char>, k: usize) -> (r: bool)
    requires
        k + needle@.len() <= hay@.len(),
    ensures
        r == matches_at(hay@, needle@, k as int),
{
    let mut j: usize = 0;
    let hl = hay.len();
    while j < needle.len()
        invariant
            k + needle@.len() <= hay@.len(),
            hl == hay@.len(),
            j <= needle@.len(),
            forall|t: int| 0 <= t < j ==> hay@[k + t] == needle@[t],
        decreases needle@.len() - j,
    {
        if hay[k + j] != needle[j] {
            assert(hay@.subrange(k as int, k + needle@.len())[j as int] != needle@[j as int]);
            return false;
        }
        j = j + 1;
    }
    assert(hay@.subrange(k as int, k + needle@.len()) =~= needle@);
    true
}

/// Character position of the first occurrence of `needle` in `hay`.
pub fn find_chars(hay: &Vec<char>, needle: &Vec<char>) -> (r: Option<usize>)
    ensures
        r == (match find_char_spec(hay@, needle@) {
            Some(k) => Some(k as usize),
            None => None::<usize>,
        }),
        r matches Some(k) ==> k + needle@.len() <= hay@.len(),
{
    if needle.len() > hay.len() {
        return None;
    }
    let last = hay.len() - needle.len();
    let mut k: usize = 0;
    while k <= last
        invariant
            last + needle@.len() == hay@.len(),
            k <= last + 1,
            first_match_from(hay@, needle@, 0) == first_match_from(hay@, needle@, k as int),
        decreases last + 1 - k,
    {
        if match_at(hay, needle, k) {
            return Some(k);
        }
        if k == last {
            assert(first_match_from(hay@, needle@, k + 1) is None);
            return None;
        }
        k = k + 1;
    }
    None
}

/// Whether `a` spells exactly `b`.
pub fn str_eq_chars(a: &str, b: &Vec<char>) -> (r: bool)
    ensures
        r == (a@ == b@),
{
    let ac = chars_of(a);
    if ac.len() != b.len() {
        return false;
    }
    let mut i: usize = 0;
    while i < ac.len()
        invariant
            ac@ == a@,
            ac@.len() == b@.len(),
            i <= ac@.len(),
            forall|j: int| 0 <= j < i ==> ac@[j] == b@[j],
        decreases ac@.len() - i,
    {
        if ac[i] != b[i] {
            return false;
        }
        i = i + 1;
    }
    assert(ac@ =~= b@);
    true
}

/// An optional exec offset as a mathematical one.
pub open spec fn opt_nat(o: Option<usize>) -> Option<nat> {
    match o {
        Some(k) => Some(k as nat),
        None => None,
    }
}

/// Byte offset of the first occurrence of `needle` in `hay` (`str::find`),
/// for a haystack whose encoding fits the address space.
pub fn find_byte(hay: &str, needle: &Vec<char>) -> (r: Option<usize>)
    ensures
        opt_nat(r) == find_byte_spec(hay@, needle@),
{
    utf8_len_fits(hay);
    let h = chars_of(hay);
    proof { lemma_first_match_from_bounds(hay@, needle@, 0); }
    match find_chars(&h, needle) {
        Some(k) => Some(utf8_prefix_len(&h, k)),
        None => None,
    }
}

/// Byte length of the UTF-8 encoding of the first `k` characters.
pub fn utf8_prefix_len(s: &Vec<char>, k: usize) -> (r: usize)
    requires
        k <= s@.len(),
        utf8_len(s@) <= usize::MAX,
    ensures
        r == utf8_len(s@.take(k as int)),
{
    let mut i: usize = 0;
    let mut n: usize = 0;
    while i < k
        invariant
            k <= s@.len(),
            utf8_len(s@) <= usize::MAX,
            i <= k,
            n == utf8_len(s@.take(i as int)),
        decreases k - i,
    {
        proof {
            lemma_utf8_len_step(s@, i as int);
            lemma_utf8_len_mono(s@, i + 1, s@.len() as int);
            assert(s@.take(s@.len() as int) =~= s@);
        }
        n = n + char_len_utf8(s[i]);
        i = i + 1;
    }
    n
}

} // verus!
