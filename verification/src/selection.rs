//! Duplicate-selection: finding the next literal occurrence of the
//! selected bytes after the selection. Offsets are byte offsets into the
//! UTF-8 encoding of the content; `byte_offset` and `char_index` go
//! between them and the indices of characters.

use crate::text::{occurs_at, to_chars};
use vstd::prelude::*;
use vstd::string::StringSliceAdditionalSpecFns;
use vstd::utf8::{encode_scalar, encode_utf8};

verus! {

/// A selection that holds at least one byte of the text.
pub open spec fn is_selection(text: Seq<u8>, start: int, end: int) -> bool {
    0 <= start < end <= text.len()
}

/// The selected bytes occur again at `at`, which is at or after the end of
/// the selection, and nowhere between the two.
pub open spec fn is_next_occurrence(text: Seq<u8>, start: int, end: int, at: int) -> bool {
    &&& end <= at
    &&& occurs_at(text, text.subrange(start, end), at)
    &&& forall|p: int| end <= p < at ==> !occurs_at(text, text.subrange(start, end), p)
}

/// The selected bytes occur nowhere at or after the end of the selection.
pub open spec fn no_occurrence_after(text: Seq<u8>, start: int, end: int) -> bool {
    forall|p: int| end <= p ==> !occurs_at(text, text.subrange(start, end), p)
}

/// What duplicate-selection gives for a text and a selection: the bounds
/// of the next occurrence, or nothing where the selection is empty or out
/// of range or its bytes do not occur again. The search never wraps round
/// to the start of the text.
pub open spec fn is_duplicate_of(
    text: Seq<u8>,
    start: int,
    end: int,
    next: Option<(usize, usize)>,
) -> bool {
    if is_selection(text, start, end) {
        match next {
            Some((s, e)) => is_next_occurrence(text, start, end, s as int) && e == s + (end - start),
            None => no_occurrence_after(text, start, end),
        }
    } else {
        next is None
    }
}

/// Whether `text[start..start + len]` and `text[at..at + len]` are equal.
fn window_repeats_at(text: &[u8], start: usize, len: usize, at: usize) -> (found: bool)
    requires
        start + len <= text.len(),
        at + len <= text.len(),
    ensures
        found == occurs_at(text@, text@.subrange(start as int, start + len), at as int),
{
    let ghost selected = text@.subrange(start as int, start + len);
    let mut k: usize = 0;
    while k < len
        invariant
            start + len <= text.len(),
            at + len <= text.len(),
            k <= len,
            selected == text@.subrange(start as int, start + len),
            forall|j: int| 0 <= j < k ==> text@[at + j] == selected[j],
        decreases len - k,
    {
        if text[at + k] != text[start + k] {
            proof {
                let piece = text@.subrange(at as int, at + len);
                assert(piece[k as int] == text@[at + k]);
                assert(selected[k as int] == text@[start + k]);
            }
            return false;
        }
        k += 1;
    }
    assert(text@.subrange(at as int, at + len) =~= selected);
    true
}

/// The selection over the next occurrence of the selected text.
///
/// Gives nothing for an empty selection, for one that does not lie inside
/// the content, and where the selected bytes do not occur again at or
/// after `selection_end`; the text before the selection is never searched.
pub fn duplicate_selection(content: &str, selection_start: usize, selection_end: usize) -> (next:
    Option<(usize, usize)>)
    ensures
        is_duplicate_of(content.spec_bytes(), selection_start as int, selection_end as int, next),
{
    let text = content.as_bytes();
    if selection_start >= selection_end || selection_end > text.len() {
        return None;
    }
    let len: usize = selection_end - selection_start;
    if len > text.len() - selection_end {
        assert forall|p: int| selection_end <= p implies !occurs_at(
            text@,
            text@.subrange(selection_start as int, selection_end as int),
            p,
        ) by {}
        return None;
    }
    let last: usize = text.len() - len;
    let mut at: usize = selection_end;
    loop
        invariant
            selection_start < selection_end <= at <= last,
            len == selection_end - selection_start,
            last == text.len() - len,
            text@ == content.spec_bytes(),
            forall|p: int|
                selection_end <= p < at ==> !occurs_at(
                    text@,
                    text@.subrange(selection_start as int, selection_end as int),
                    p,
                ),
        decreases last - at,
    {
        if window_repeats_at(text, selection_start, len, at) {
            return Some((at, at + len));
        }
        if at == last {
            return None;
        }
        at += 1;
    }
}

/// The byte at which the character with index `index` starts in the
/// UTF-8 encoding of a text: the length of the encoding of the characters
/// before it.
pub open spec fn char_start(text: Seq<char>, index: int) -> nat {
    encode_utf8(text.take(index)).len()
}

pub proof fn lemma_encode_push(chars: Seq<char>, c: char)
    ensures
        encode_utf8(chars.push(c)) == encode_utf8(chars) + encode_scalar(c as u32),
    decreases chars.len(),
{
    if chars.len() == 0 {
        assert(chars.push(c).drop_first() =~= Seq::<char>::empty());
        assert(encode_utf8(Seq::<char>::empty()) =~= Seq::<u8>::empty());
        assert(encode_utf8(chars) =~= Seq::<u8>::empty());
        assert(encode_utf8(chars.push(c)) =~= encode_utf8(chars) + encode_scalar(c as u32));
    } else {
        assert(chars.push(c).drop_first() =~= chars.drop_first().push(c));
        lemma_encode_push(chars.drop_first(), c);
        assert(encode_utf8(chars.push(c)) =~= encode_utf8(chars) + encode_scalar(c as u32));
    }
}

/// Every character takes from one to four bytes.
pub proof fn lemma_scalar_width(c: char)
    ensures
        1 <= encode_scalar(c as u32).len() <= 4,
{
}

/// Each character starts where the one before it ends, and none starts
/// beyond the end of the encoding.
pub proof fn lemma_char_start_step(text: Seq<char>, index: int)
    requires
        0 <= index < text.len(),
    ensures
        char_start(text, index + 1) == char_start(text, index) + encode_scalar(
            text[index] as u32,
        ).len(),
        char_start(text, index) < char_start(text, index + 1),
{
    assert(text.take(index + 1) =~= text.take(index).push(text[index]));
    lemma_encode_push(text.take(index), text[index]);
    lemma_scalar_width(text[index]);
}

/// Later characters start later.
pub proof fn lemma_char_start_increases(text: Seq<char>, from: int, to: int)
    requires
        0 <= from <= to <= text.len(),
    ensures
        char_start(text, from) <= char_start(text, to),
        from < to ==> char_start(text, from) < char_start(text, to),
    decreases to - from,
{
    if from < to {
        lemma_char_start_increases(text, from, to - 1);
        lemma_char_start_step(text, to - 1);
    }
}

/// The number of bytes that a character takes in UTF-8.
fn utf8_width(c: char) -> (width: usize)
    ensures
        width == encode_scalar(c as u32).len(),
        1 <= width <= 4,
{
    proof {
        vstd::utf8::char_is_scalar(c);
    }
    let u: u32 = c as u32;
    if u < 0x80 {
        1
    } else if u < 0x800 {
        2
    } else if u < 0x10000 {
        3
    } else {
        4
    }
}

/// The byte offset at which the character with the given index starts;
/// for an index at or beyond the end, the length of the text in bytes.
pub fn byte_offset(text: &str, char_index: usize) -> (at: usize)
    ensures
        at == char_start(
            text@,
            if char_index <= text@.len() {
                char_index as int
            } else {
                text@.len() as int
            },
        ),
{
    let chars = to_chars(text);
    let total: usize = text.as_bytes().len();
    let n: usize = if char_index < chars.len() {
        char_index
    } else {
        chars.len()
    };
    let mut at: usize = 0;
    let mut i: usize = 0;
    proof {
        assert(chars@.take(0) =~= Seq::<char>::empty());
        assert(encode_utf8(Seq::<char>::empty()) =~= Seq::<u8>::empty());
        assert(chars@.take(chars@.len() as int) =~= chars@);
    }
    while i < n
        invariant
            i <= n <= chars.len(),
            at == char_start(chars@, i as int),
            total == char_start(chars@, chars@.len() as int),
        decreases n - i,
    {
        proof {
            lemma_char_start_step(chars@, i as int);
            lemma_char_start_increases(chars@, i + 1, chars@.len() as int);
        }
        at += utf8_width(chars[i]);
        i += 1;
    }
    at
}

/// The number of characters that start before the given byte offset:
/// exactly the characters with a lower index do.
pub fn char_index(text: &str, byte_offset: usize) -> (n: usize)
    ensures
        n <= text@.len(),
        forall|k: int| 0 <= k < n ==> char_start(text@, k) < byte_offset,
        forall|k: int| n <= k < text@.len() ==> char_start(text@, k) >= byte_offset,
{
    let chars = to_chars(text);
    let total: usize = text.as_bytes().len();
    let mut at: usize = 0;
    let mut i: usize = 0;
    proof {
        assert(chars@.take(0) =~= Seq::<char>::empty());
        assert(encode_utf8(Seq::<char>::empty()) =~= Seq::<u8>::empty());
        assert(chars@.take(chars@.len() as int) =~= chars@);
    }
    while i < chars.len() && at < byte_offset
        invariant
            i <= chars.len(),
            at == char_start(chars@, i as int),
            total == char_start(chars@, chars@.len() as int),
            forall|k: int| 0 <= k < i ==> char_start(chars@, k) < byte_offset,
        decreases chars.len() - i,
    {
        proof {
            lemma_char_start_step(chars@, i as int);
            lemma_char_start_increases(chars@, i + 1, chars@.len() as int);
        }
        at += utf8_width(chars[i]);
        i += 1;
    }
    proof {
        assert forall|k: int| i <= k < chars@.len() implies char_start(chars@, k)
            >= byte_offset by {
            lemma_char_start_increases(chars@, i as int, k);
        }
    }
    i
}

} // verus!
