//! Scanning and rewriting of shader text.
//!
//! Text is modelled as a sequence of characters, and the positions in this
//! module count characters. The one exception is [`end_of_line_idx`], which
//! hands out an offset in bytes, as the string functions of the standard
//! library do.

use vstd::prelude::*;
use vstd::string::StringSliceAdditionalSpecFns;
use vstd::utf8::{encode_scalar, encode_utf8};

verus! {

/// The keyword that opens a directive.
pub open spec fn directive_keyword() -> Seq<char> {
    seq!['@', 'i', 'n', 'c', 'l', 'u', 'd', 'e']
}

/// Number of characters in the keyword.
pub const KEYWORD_LEN: usize = 8;

/// Distance from the start of a directive to the start of its argument: the
/// keyword and the one character that parts it from the argument.
pub const ARGUMENT_OFFSET: usize = 9;

/// A directive starts at position `i` of `text`: the keyword stands there.
pub open spec fn is_directive_at(text: Seq<char>, i: int) -> bool {
    &&& 0 <= i
    &&& i + 8 <= text.len()
    &&& text.subrange(i, i + 8) == directive_keyword()
}

/// No directive starts at any position of `text` from `from` up to, not
/// including, `to`.
pub open spec fn no_directive_between(text: Seq<char>, from: int, to: int) -> bool {
    forall|i: int| from <= i < to ==> !is_directive_at(text, i)
}

/// A directive at `i` is the same as the eight characters of the keyword
/// standing at `i`, one by one.
pub proof fn lemma_directive_chars(text: Seq<char>, i: int)
    ensures
        is_directive_at(text, i) <==> {
            &&& 0 <= i
            &&& i + 8 <= text.len()
            &&& text[i] == '@'
            &&& text[i + 1] == 'i'
            &&& text[i + 2] == 'n'
            &&& text[i + 3] == 'c'
            &&& text[i + 4] == 'l'
            &&& text[i + 5] == 'u'
            &&& text[i + 6] == 'd'
            &&& text[i + 7] == 'e'
        },
{
    if 0 <= i && i + 8 <= text.len() {
        let word = text.subrange(i, i + 8);
        if text[i] == '@' && text[i + 1] == 'i' && text[i + 2] == 'n' && text[i + 3] == 'c'
            && text[i + 4] == 'l' && text[i + 5] == 'u' && text[i + 6] == 'd' && text[i + 7]
            == 'e' {
            assert(word =~= directive_keyword());
        }
    }
}

/// The characters that end a line.
pub open spec fn is_line_end(c: char) -> bool {
    c == '\r' || c == '\n'
}

/// The first position at or after `from` that holds a line end, if any.
pub open spec fn line_end_from(s: Seq<char>, from: int) -> Option<int>
    decreases s.len() - from,
{
    if from < 0 || from >= s.len() {
        None
    } else if is_line_end(s[from]) {
        Some(from)
    } else {
        line_end_from(s, from + 1)
    }
}

/// The position of the first line end in `s`, if it has one.
pub open spec fn first_line_end(s: Seq<char>) -> Option<int> {
    line_end_from(s, 0)
}

/// What `line_end_from` finds is a line end with none between `from` and it;
/// where it finds nothing there is none from `from` on.
pub proof fn lemma_line_end_from(s: Seq<char>, from: int)
    requires
        0 <= from,
    ensures
        match line_end_from(s, from) {
            Some(end) => {
                &&& from <= end < s.len()
                &&& is_line_end(s[end])
                &&& forall|j: int| from <= j < end ==> !is_line_end(s[j])
            },
            None => forall|j: int| from <= j < s.len() ==> !is_line_end(s[j]),
        },
    decreases s.len() - from,
{
    if from < s.len() && !is_line_end(s[from]) {
        lemma_line_end_from(s, from + 1);
    }
}

/// A line end at `end` with none before it is the first line end.
pub proof fn lemma_first_line_end_is(s: Seq<char>, end: int)
    requires
        0 <= end < s.len(),
        is_line_end(s[end]),
        forall|j: int| 0 <= j < end ==> !is_line_end(s[j]),
    ensures
        first_line_end(s) == Some(end),
{
    lemma_line_end_from(s, 0);
}

/// The characters of `s`, in order.
pub fn chars_of(s: &str) -> (chars: Vec<char>)
    ensures
        chars@ == s@,
{
    let mut chars: Vec<char> = Vec::new();
    for c in it: s.chars()
        invariant
            chars@ == it.seq().take(it.index() as int),
            it.seq() == s@,
    {
        chars.push(c);
    }
    chars
}

/// The bytes that end a line: carriage return and line feed.
pub open spec fn is_line_end_byte(byte: u8) -> bool {
    byte == 13 || byte == 10
}

/// One of the bytes of `bytes` ends a line.
pub open spec fn has_line_end_byte(bytes: Seq<u8>) -> bool {
    exists|i: int| 0 <= i < bytes.len() && is_line_end_byte(#[trigger] bytes[i])
}

/// Offset, in bytes, of the first `\r` or `\n` in `s`, whichever comes
/// first. The text must hold one of the two.
pub fn end_of_line_idx(s: &str) -> (idx: usize)
    requires
        has_line_end_byte(s.spec_bytes()),
    ensures
        idx < s.spec_bytes().len(),
        is_line_end_byte(s.spec_bytes()[idx as int]),
        forall|j: int| 0 <= j < idx ==> !is_line_end_byte(#[trigger] s.spec_bytes()[j]),
{
    let bytes = s.as_bytes();
    let n: usize = bytes.len();
    let mut i: usize = 0;
    while i < n && !(bytes[i] == 13 || bytes[i] == 10)
        invariant
            n == bytes@.len(),
            bytes@ == s.spec_bytes(),
            i <= n,
            forall|j: int| 0 <= j < i ==> !is_line_end_byte(#[trigger] bytes@[j]),
        decreases n - i,
    {
        i += 1;
    }
    i
}

/// No character of `s` ends a line.
pub open spec fn no_line_end(s: Seq<char>) -> bool {
    forall|i: int| 0 <= i < s.len() ==> !is_line_end(#[trigger] s[i])
}

/// A character that ends a line is one byte in UTF-8, and that byte ends a
/// line; no byte of any other character does.
pub proof fn lemma_line_end_in_utf8(c: char)
    ensures
        encode_scalar(c as u32).len() >= 1,
        is_line_end(c) ==> encode_scalar(c as u32).len() == 1 && is_line_end_byte(
            encode_scalar(c as u32)[0],
        ),
        !is_line_end(c) ==> forall|j: int|
            0 <= j < encode_scalar(c as u32).len() ==> !is_line_end_byte(
                #[trigger] encode_scalar(c as u32)[j],
            ),
{
    let v = c as u32;
    assert(v <= 0x7F ==> ((v & 0x7F) as u8 == 10u8) == (v == 10u32)) by (bit_vector);
    assert(v <= 0x7F ==> ((v & 0x7F) as u8 == 13u8) == (v == 13u32)) by (bit_vector);
    assert((0xC0u8 | ((v >> 6) & 0x1F) as u8) >= 0x80u8) by (bit_vector);
    assert((0xE0u8 | ((v >> 12) & 0x0F) as u8) >= 0x80u8) by (bit_vector);
    assert((0xF0u8 | ((v >> 18) & 0x7) as u8) >= 0x80u8) by (bit_vector);
    assert((0x80u8 | (v & 0x3F) as u8) >= 0x80u8) by (bit_vector);
    assert((0x80u8 | ((v >> 6) & 0x3F) as u8) >= 0x80u8) by (bit_vector);
    assert((0x80u8 | ((v >> 12) & 0x3F) as u8) >= 0x80u8) by (bit_vector);
}

/// The UTF-8 encoding of two texts in a row is the two encodings in a row.
pub proof fn lemma_utf8_of_concat(a: Seq<char>, b: Seq<char>)
    ensures
        encode_utf8(a + b) == encode_utf8(a) + encode_utf8(b),
    decreases a.len(),
{
    if a.len() == 0 {
        assert(a + b =~= b);
    } else {
        lemma_utf8_of_concat(a.drop_first(), b);
        assert((a + b).drop_first() =~= a.drop_first() + b);
    }
}

/// A text without line ends has no line-end byte in UTF-8.
pub proof fn lemma_no_line_end_in_utf8(s: Seq<char>)
    requires
        no_line_end(s),
    ensures
        !has_line_end_byte(encode_utf8(s)),
    decreases s.len(),
{
    if s.len() > 0 {
        let rest = s.drop_first();
        assert forall|i: int| 0 <= i < rest.len() implies !is_line_end(#[trigger] rest[i]) by {
            assert(rest[i] == s[i + 1]);
        }
        lemma_no_line_end_in_utf8(rest);
        lemma_line_end_in_utf8(s[0]);
        let head = encode_scalar(s[0] as u32);
        let tail = encode_utf8(rest);
        assert forall|i: int| 0 <= i < (head + tail).len() implies !is_line_end_byte(
            #[trigger] (head + tail)[i],
        ) by {
            if i >= head.len() {
                assert((head + tail)[i] == tail[i - head.len()]);
            }
        }
    }
}

/// The position of the first line end, in characters, and its offset, in
/// bytes, name the same place of a text: the offset is the number of bytes
/// that the characters before the position take up in UTF-8. A text without
/// a line end has no line-end byte.
pub proof fn law_line_end_offset(s: Seq<char>)
    ensures
        match first_line_end(s) {
            Some(position) => {
                let offset = encode_utf8(s.take(position)).len() as int;
                &&& offset < encode_utf8(s).len()
                &&& is_line_end_byte(encode_utf8(s)[offset])
                &&& forall|j: int| 0 <= j < offset ==> !is_line_end_byte(#[trigger] encode_utf8(s)[j])
            },
            None => !has_line_end_byte(encode_utf8(s)),
        },
{
    lemma_line_end_from(s, 0);
    match first_line_end(s) {
        Some(position) => {
            let before = s.take(position);
            let here = seq![s[position]];
            let behind = s.skip(position + 1);
            assert(s =~= before + (here + behind));
            lemma_utf8_of_concat(before, here + behind);
            lemma_utf8_of_concat(here, behind);
            assert(encode_utf8(here) =~= encode_scalar(s[position] as u32)) by {
                assert(encode_utf8(here.drop_first()) =~= Seq::<u8>::empty());
            }
            lemma_line_end_in_utf8(s[position]);
            lemma_no_line_end_in_utf8(before);
            let offset = encode_utf8(before).len() as int;
            assert forall|j: int| 0 <= j < offset implies !is_line_end_byte(
                #[trigger] encode_utf8(s)[j],
            ) by {
                assert(encode_utf8(s)[j] == encode_utf8(before)[j]);
            }
        },
        None => {
            lemma_no_line_end_in_utf8(s);
        },
    }
}

/// Position, in characters, of the first `\r` or `\n` in `s`, whichever
/// comes first; `None` where `s` holds neither.
pub fn find_line_end(s: &str) -> (position: Option<usize>)
    ensures
        match position {
            Some(i) => first_line_end(s@) == Some(i as int),
            None => first_line_end(s@) is None,
        },
{
    let chars = chars_of(s);
    let n: usize = chars.len();
    let mut i: usize = 0;
    while i < n
        invariant
            n == chars.len(),
            chars@ == s@,
            i <= n,
            line_end_from(s@, i as int) == first_line_end(s@),
        decreases n - i,
    {
        let c = chars[i];
        if c == '\r' || c == '\n' {
            return Some(i);
        }
        i += 1;
    }
    None
}

/// `positions` lists the positions at which a directive starts in `text`:
/// each of them once, in ascending order, and nothing else.
pub open spec fn lists_directives(text: Seq<char>, positions: Seq<usize>) -> bool {
    &&& forall|k: int|
        0 <= k < positions.len() ==> is_directive_at(text, #[trigger] positions[k] as int)
    &&& forall|j: int, k: int| 0 <= j < k < positions.len() ==> positions[j] < positions[k]
    &&& forall|i: int|
        is_directive_at(text, i) ==> exists|k: int|
            0 <= k < positions.len() && #[trigger] positions[k] == i
}

/// The positions at which a directive starts in `text`, in ascending order.
pub fn directive_positions(text: &Vec<char>) -> (positions: Vec<usize>)
    ensures
        lists_directives(text@, positions@),
{
    let n: usize = text.len();
    let mut positions: Vec<usize> = Vec::new();
    if n < KEYWORD_LEN {
        return positions;
    }
    let last: usize = n - KEYWORD_LEN;
    let mut i: usize = 0;
    while i <= last
        invariant
            n == text.len(),
            last + 8 == n,
            i <= last + 1,
            forall|k: int| 0 <= k < positions.len() ==> is_directive_at(text@, #[trigger] positions[k] as int),
            forall|k: int| 0 <= k < positions.len() ==> #[trigger] positions[k] < i,
            forall|j: int, k: int| 0 <= j < k < positions.len() ==> positions[j] < positions[k],
            forall|p: int|
                0 <= p < i && is_directive_at(text@, p) ==> exists|k: int|
                    0 <= k < positions.len() && #[trigger] positions[k] == p,
        decreases last + 1 - i,
    {
        proof {
            lemma_directive_chars(text@, i as int);
        }
        if text[i] == '@' && text[i + 1] == 'i' && text[i + 2] == 'n' && text[i + 3] == 'c'
            && text[i + 4] == 'l' && text[i + 5] == 'u' && text[i + 6] == 'd' && text[i + 7]
            == 'e' {
            let ghost before = positions@;
            positions.push(i);
            assert(positions[before.len() as int] == i);
            assert forall|p: int| 0 <= p < i + 1 && is_directive_at(text@, p) implies exists|k: int|
                0 <= k < positions.len() && #[trigger] positions[k] == p by {
                if p < i {
                    let k = choose|k: int| 0 <= k < before.len() && #[trigger] before[k] == p;
                    assert(positions[k] == p);
                }
            }
        }
        i += 1;
    }
    positions
}

/// `text` with each `::` taken in turn from the left replaced by `_`.
pub open spec fn replace_separators(text: Seq<char>) -> Seq<char>
    decreases text.len(),
{
    if text.len() < 2 {
        text
    } else if text[0] == ':' && text[1] == ':' {
        seq!['_'] + replace_separators(text.subrange(2, text.len() as int))
    } else {
        seq![text[0]] + replace_separators(text.subrange(1, text.len() as int))
    }
}

/// Two colons stand at positions `i` and `i + 1` of `text`.
pub open spec fn is_separator_at(text: Seq<char>, i: int) -> bool {
    &&& 0 <= i
    &&& i + 1 < text.len()
    &&& text[i] == ':'
    &&& text[i + 1] == ':'
}

/// Text without two colons in a row is left as it is.
pub proof fn lemma_replace_without_separator(text: Seq<char>)
    requires
        forall|i: int| !is_separator_at(text, i),
    ensures
        replace_separators(text) == text,
    decreases text.len(),
{
    if text.len() >= 2 {
        let rest = text.subrange(1, text.len() as int);
        assert(!is_separator_at(text, 0));
        assert forall|i: int| !is_separator_at(rest, i) by {
            assert(!is_separator_at(text, i + 1));
        }
        lemma_replace_without_separator(rest);
    }
}

/// Replaces every `::` of `text` by `_`, going from left to right.
pub fn replace_module_separators(text: &str) -> (replaced: String)
    ensures
        replaced@ == replace_separators(text@),
{
    let chars = chars_of(text);
    let n: usize = chars.len();
    let mut replaced = String::new();
    let mut start: usize = 0;
    let mut i: usize = 0;
    proof {
        assert(text@.subrange(0, n as int) =~= text@);
    }
    while i < n
        invariant
            n == chars.len(),
            chars@ == text@,
            start <= i <= n,
            replace_separators(text@) == replaced@ + text@.subrange(start as int, i as int)
                + replace_separators(text@.subrange(i as int, n as int)),
        decreases n - i,
    {
        let ghost rest = text@.subrange(i as int, n as int);
        if n - i >= 2 && chars[i] == ':' && chars[i + 1] == ':' {
            proof {
                reveal_strlit("_");
                assert(rest.subrange(2, rest.len() as int) =~= text@.subrange(i + 2, n as int));
            }
            replaced.append(text.substring_char(start, i));
            replaced.append("_");
            i += 2;
            start = i;
        } else {
            proof {
                assert(rest.subrange(1, rest.len() as int) =~= text@.subrange(i + 1, n as int));
            }
            i += 1;
        }
    }
    replaced.append(text.substring_char(start, n));
    replaced
}

/// `path` with each backslash turned into a forward slash.
pub open spec fn forward_slashes(path: Seq<char>) -> Seq<char> {
    Seq::new(
        path.len(),
        |i: int|
            if path[i] == '\\' {
                '/'
            } else {
                path[i]
            },
    )
}

/// Turns every backslash of `path` into a forward slash.
pub fn with_forward_slashes(path: &str) -> (shown: String)
    ensures
        shown@ == forward_slashes(path@),
{
    let chars = chars_of(path);
    let n: usize = chars.len();
    let mut shown = String::new();
    let mut start: usize = 0;
    let mut i: usize = 0;
    while i < n
        invariant
            n == chars.len(),
            chars@ == path@,
            start <= i <= n,
            forall|j: int| start <= j < i ==> path@[j] != '\\',
            shown@ == forward_slashes(path@.subrange(0, start as int)),
        decreases n - i,
    {
        if chars[i] == '\\' {
            proof {
                reveal_strlit("/");
            }
            shown.append(path.substring_char(start, i));
            shown.append("/");
            start = i + 1;
        }
        i += 1;
    }
    shown.append(path.substring_char(start, n));
    shown
}

} // verus!
