//! Sequence-level text primitives: literal occurrence, whitespace trimming
//! and line splitting, each with an executable form over `Vec<char>`.

use vstd::prelude::*;

verus! {

/// `needle` occurs in `hay` starting at index `at`.
pub open spec fn occurs_at<T>(hay: Seq<T>, needle: Seq<T>, at: int) -> bool {
    &&& 0 <= at
    &&& at + needle.len() <= hay.len()
    &&& hay.subrange(at, at + needle.len()) == needle
}

/// `needle` occurs somewhere in `hay`.
pub open spec fn contains_seq<T>(hay: Seq<T>, needle: Seq<T>) -> bool {
    exists|at: int| occurs_at(hay, needle, at)
}

/// The characters with the Unicode property `White_Space`.
pub open spec fn is_whitespace(c: char) -> bool {
    let u = c as u32;
    ||| 0x09 <= u <= 0x0D
    ||| u == 0x20
    ||| u == 0x85
    ||| u == 0xA0
    ||| u == 0x1680
    ||| 0x2000 <= u <= 0x200A
    ||| u == 0x2028
    ||| u == 0x2029
    ||| u == 0x202F
    ||| u == 0x205F
    ||| u == 0x3000
}

/// The first index at or after `from` that holds no whitespace, or the
/// length of `s` when only whitespace follows.
pub open spec fn skip_whitespace(s: Seq<char>, from: int) -> int
    decreases s.len() - from,
{
    if 0 <= from < s.len() && is_whitespace(s[from]) {
        skip_whitespace(s, from + 1)
    } else {
        from
    }
}

/// The end of `s[from..to]` once its trailing whitespace is dropped.
pub open spec fn skip_whitespace_back(s: Seq<char>, from: int, to: int) -> int
    decreases to,
{
    if 0 <= from < to <= s.len() && is_whitespace(s[to - 1]) {
        skip_whitespace_back(s, from, to - 1)
    } else {
        to
    }
}

/// `s` without its leading and trailing whitespace.
pub open spec fn trimmed(s: Seq<char>) -> Seq<char> {
    let a = skip_whitespace(s, 0);
    let b = skip_whitespace_back(s, a, s.len() as int);
    s.subrange(a, b)
}

/// The number of characters from `from` up to the next `'\n'` or the end.
pub open spec fn line_len(s: Seq<char>, from: int) -> nat
    decreases s.len() - from,
{
    if 0 <= from < s.len() && s[from] != '\n' {
        1 + line_len(s, from + 1)
    } else {
        0
    }
}

/// A line without the `'\r'` that preceded its `'\n'`.
pub open spec fn strip_cr(line: Seq<char>) -> Seq<char> {
    if line.len() > 0 && line.last() == '\r' {
        line.drop_last()
    } else {
        line
    }
}

/// The lines of `s[from..]`: pieces ended by `"\n"` or `"\r\n"`, given
/// without the ending; a last piece with no ending is given as it stands,
/// and nothing follows a final ending.
pub open spec fn lines_from(s: Seq<char>, from: int) -> Seq<Seq<char>>
    decreases s.len() - from,
{
    if from < 0 || from >= s.len() {
        Seq::empty()
    } else {
        let end = from + line_len(s, from);
        if end >= s.len() {
            seq![s.subrange(from, s.len() as int)]
        } else {
            seq![strip_cr(s.subrange(from, end))] + lines_from(s, end + 1)
        }
    }
}

/// The lines of a text.
pub open spec fn text_lines(s: Seq<char>) -> Seq<Seq<char>> {
    lines_from(s, 0)
}

/// The pieces of `s[from..]` cut after each `'\n'`, endings kept.
pub open spec fn lines_with_endings_from(s: Seq<char>, from: int) -> Seq<Seq<char>>
    decreases s.len() - from,
{
    if from < 0 || from >= s.len() {
        Seq::empty()
    } else {
        let end = from + line_len(s, from);
        if end >= s.len() {
            seq![s.subrange(from, s.len() as int)]
        } else {
            seq![s.subrange(from, end + 1)] + lines_with_endings_from(s, end + 1)
        }
    }
}

/// A text cut after each `'\n'`, endings kept.
pub open spec fn lines_with_endings(s: Seq<char>) -> Seq<Seq<char>> {
    lines_with_endings_from(s, 0)
}

/// The pieces joined end to end.
pub open spec fn concat(pieces: Seq<Seq<char>>) -> Seq<char>
    decreases pieces.len(),
{
    if pieces.len() == 0 {
        Seq::empty()
    } else {
        concat(pieces.drop_last()) + pieces.last()
    }
}

/// A piece holds `'\n'` at most as its last character.
pub open spec fn newline_only_last(piece: Seq<char>) -> bool {
    forall|i: int| 0 <= i < piece.len() - 1 ==> piece[i] != '\n'
}

pub proof fn lemma_line_len_bound(s: Seq<char>, from: int)
    requires
        0 <= from <= s.len(),
    ensures
        from + line_len(s, from) <= s.len(),
        forall|i: int| from <= i < from + line_len(s, from) ==> s[i] != '\n',
        from + line_len(s, from) < s.len() ==> s[from + line_len(s, from)] == '\n',
    decreases s.len() - from,
{
    if from < s.len() && s[from] != '\n' {
        lemma_line_len_bound(s, from + 1);
    }
}

pub proof fn lemma_concat_push(pieces: Seq<Seq<char>>, piece: Seq<char>)
    ensures
        concat(pieces.push(piece)) == concat(pieces) + piece,
{
    assert(pieces.push(piece).drop_last() =~= pieces);
}

pub proof fn lemma_concat_prepend(piece: Seq<char>, pieces: Seq<Seq<char>>)
    ensures
        concat(seq![piece] + pieces) == piece + concat(pieces),
    decreases pieces.len(),
{
    if pieces.len() == 0 {
        assert(seq![piece] + pieces =~= seq![piece]);
        assert(seq![piece].drop_last() =~= Seq::<Seq<char>>::empty());
        assert(concat(Seq::<Seq<char>>::empty()) =~= Seq::<char>::empty());
        assert(concat(seq![piece]) =~= piece);
        assert(piece + concat(pieces) =~= piece);
    } else {
        let all = seq![piece] + pieces;
        assert(all.drop_last() =~= seq![piece] + pieces.drop_last());
        assert(all.last() == pieces.last());
        lemma_concat_prepend(piece, pieces.drop_last());
        assert((piece + concat(pieces.drop_last())) + pieces.last() =~= piece + (concat(
            pieces.drop_last(),
        ) + pieces.last()));
    }
}

/// Cutting a text after each `'\n'` loses nothing: the pieces are not
/// empty, hold `'\n'` at most at their end, and joined give the text back.
pub proof fn lemma_lines_with_endings(s: Seq<char>, from: int)
    requires
        0 <= from <= s.len(),
    ensures
        concat(lines_with_endings_from(s, from)) == s.subrange(from, s.len() as int),
        forall|i: int|
            0 <= i < lines_with_endings_from(s, from).len() ==> {
                &&& (#[trigger] lines_with_endings_from(s, from)[i]).len() > 0
                &&& newline_only_last(lines_with_endings_from(s, from)[i])
            },
    decreases s.len() - from,
{
    let pieces = lines_with_endings_from(s, from);
    if from >= s.len() {
        assert(s.subrange(from, s.len() as int) =~= Seq::<char>::empty());
    } else {
        lemma_line_len_bound(s, from);
        let end = from + line_len(s, from);
        if end >= s.len() {
            let piece = s.subrange(from, s.len() as int);
            lemma_concat_prepend(piece, Seq::empty());
            assert(seq![piece] + Seq::<Seq<char>>::empty() =~= seq![piece]);
            assert(concat(Seq::<Seq<char>>::empty()) =~= Seq::<char>::empty());
            assert(piece + Seq::<char>::empty() =~= piece);
        } else {
            let piece = s.subrange(from, end + 1);
            let rest = lines_with_endings_from(s, end + 1);
            lemma_lines_with_endings(s, end + 1);
            lemma_concat_prepend(piece, rest);
            assert(piece + s.subrange(end + 1, s.len() as int) =~= s.subrange(
                from,
                s.len() as int,
            ));
            assert forall|i: int| 0 <= i < pieces.len() implies {
                &&& (#[trigger] pieces[i]).len() > 0
                &&& newline_only_last(pieces[i])
            } by {
                if i > 0 {
                    assert(pieces[i] == rest[i - 1]);
                }
            }
        }
    }
}

/// Whether `c` has the Unicode property `White_Space`.
pub fn char_is_whitespace(c: char) -> (b: bool)
    ensures
        b == is_whitespace(c),
{
    let u: u32 = c as u32;
    (0x09 <= u && u <= 0x0D) || u == 0x20 || u == 0x85 || u == 0xA0 || u == 0x1680 || (0x2000 <= u
        && u <= 0x200A) || u == 0x2028 || u == 0x2029 || u == 0x202F || u == 0x205F || u == 0x3000
}

/// The characters of a string slice.
pub fn to_chars(s: &str) -> (chars: Vec<char>)
    ensures
        chars@ == s@,
{
    broadcast use vstd::string::axiom_spec_iter;

    let mut chars: Vec<char> = Vec::new();
    let source = s.chars();
    for c in it: source
        invariant
            it.seq() == s@,
            chars@ == it.seq().take(it.index()),
    {
        chars.push(c);
        assert(it.seq().take(it.index() + 1) =~= it.seq().take(it.index()).push(c));
    }
    assert(s@.take(s@.len() as int) =~= s@);
    chars
}

/// `String::push` of the standard library: the string grows by the one
/// character `c` at its end.
#[verifier::external_body]
fn push_char(s: &mut String, c: char)
    ensures
        final(s)@ == old(s)@.push(c),
{
    s.push(c);
}

/// The string made of `chars[from..to]`.
pub fn to_string(chars: &Vec<char>, from: usize, to: usize) -> (s: String)
    requires
        from <= to <= chars.len(),
    ensures
        s@ == chars@.subrange(from as int, to as int),
{
    let mut s = String::new();
    let mut i: usize = from;
    while i < to
        invariant
            from <= i <= to <= chars.len(),
            s@ == chars@.subrange(from as int, i as int),
        decreases to - i,
    {
        push_char(&mut s, chars[i]);
        assert(chars@.subrange(from as int, i + 1) =~= chars@.subrange(from as int, i as int).push(
            chars@[i as int],
        ));
        i += 1;
    }
    s
}

/// The character of a decimal digit.
pub open spec fn digit(d: nat) -> char {
    if d == 0 {
        '0'
    } else if d == 1 {
        '1'
    } else if d == 2 {
        '2'
    } else if d == 3 {
        '3'
    } else if d == 4 {
        '4'
    } else if d == 5 {
        '5'
    } else if d == 6 {
        '6'
    } else if d == 7 {
        '7'
    } else if d == 8 {
        '8'
    } else {
        '9'
    }
}

/// A number written in decimal digits, the highest first, with no
/// leading zero but for zero itself.
pub open spec fn decimal(n: nat) -> Seq<char>
    decreases n,
{
    if n < 10 {
        seq![digit(n)]
    } else {
        decimal(n / 10).push(digit(n % 10))
    }
}

/// The character of a decimal digit.
pub fn digit_char(d: usize) -> (c: char)
    requires
        d < 10,
    ensures
        c == digit(d as nat),
{
    if d == 0 {
        '0'
    } else if d == 1 {
        '1'
    } else if d == 2 {
        '2'
    } else if d == 3 {
        '3'
    } else if d == 4 {
        '4'
    } else if d == 5 {
        '5'
    } else if d == 6 {
        '6'
    } else if d == 7 {
        '7'
    } else if d == 8 {
        '8'
    } else {
        '9'
    }
}

/// Writes `n` in decimal digits at the end of `out`.
pub fn push_decimal(out: &mut String, n: usize)
    ensures
        final(out)@ == old(out)@ + decimal(n as nat),
    decreases n,
{
    if n >= 10 {
        push_decimal(out, n / 10);
    }
    push_char(out, digit_char(n % 10));
    proof {
        if n >= 10 {
            assert((old(out)@ + decimal((n / 10) as nat)).push(digit((n % 10) as nat)) =~= old(
                out,
            )@ + decimal((n / 10) as nat).push(digit((n % 10) as nat)));
        } else {
            assert(old(out)@.push(digit(n as nat)) =~= old(out)@ + seq![digit(n as nat)]);
        }
    }
}

/// Whether two string slices hold the same text.
pub fn same_text(a: &str, b: &str) -> (same: bool)
    ensures
        same == (a@ == b@),
{
    let x = to_chars(a);
    let y = to_chars(b);
    if x.len() != y.len() {
        return false;
    }
    let mut i: usize = 0;
    while i < x.len()
        invariant
            x@ == a@,
            y@ == b@,
            x.len() == y.len(),
            i <= x.len(),
            forall|j: int| 0 <= j < i ==> x@[j] == y@[j],
        decreases x.len() - i,
    {
        if x[i] != y[i] {
            assert(x@[i as int] != y@[i as int]);
            return false;
        }
        i += 1;
    }
    assert(x@ =~= y@);
    true
}

/// Whether `needle` occurs in `hay` at index `at`.
pub fn matches_at(hay: &Vec<char>, needle: &Vec<char>, at: usize) -> (found: bool)
    requires
        at + needle.len() <= hay.len(),
    ensures
        found == occurs_at(hay@, needle@, at as int),
{
    let mut k: usize = 0;
    while k < needle.len()
        invariant
            at + needle.len() <= hay.len(),
            k <= needle.len(),
            forall|j: int| 0 <= j < k ==> hay@[at + j] == needle@[j],
        decreases needle.len() - k,
    {
        if hay[at + k] != needle[k] {
            proof {
                let piece = hay@.subrange(at as int, at + needle.len());
                assert(piece[k as int] == hay@[at + k]);
            }
            return false;
        }
        k += 1;
    }
    assert(hay@.subrange(at as int, at + needle.len()) =~= needle@);
    true
}

/// Whether `needle` occurs in `hay`.
pub fn contains(hay: &Vec<char>, needle: &Vec<char>) -> (found: bool)
    ensures
        found == contains_seq(hay@, needle@),
{
    if needle.len() > hay.len() {
        return false;
    }
    let last: usize = hay.len() - needle.len();
    let mut at: usize = 0;
    loop
        invariant
            last == hay.len() - needle.len(),
            at <= last,
            forall|p: int| 0 <= p < at ==> !occurs_at(hay@, needle@, p),
        decreases last - at,
    {
        if matches_at(hay, needle, at) {
            return true;
        }
        if at == last {
            return false;
        }
        at += 1;
    }
}

/// The part of `line` between its leading and trailing whitespace, as
/// the bounds of a window.
pub fn trim_bounds(line: &Vec<char>) -> (bounds: (usize, usize))
    ensures
        bounds.0 <= bounds.1 <= line.len(),
        bounds.0 == skip_whitespace(line@, 0),
        bounds.1 == skip_whitespace_back(line@, bounds.0 as int, line@.len() as int),
        line@.subrange(bounds.0 as int, bounds.1 as int) == trimmed(line@),
{
    let mut a: usize = 0;
    while a < line.len() && char_is_whitespace(line[a])
        invariant
            a <= line.len(),
            skip_whitespace(line@, a as int) == skip_whitespace(line@, 0),
        decreases line.len() - a,
    {
        a += 1;
    }
    let mut b: usize = line.len();
    while a < b && char_is_whitespace(line[b - 1])
        invariant
            a <= b <= line.len(),
            skip_whitespace_back(line@, a as int, b as int) == skip_whitespace_back(
                line@,
                a as int,
                line@.len() as int,
            ),
        decreases b,
    {
        b -= 1;
    }
    (a, b)
}

/// The lines of a text, each as its own vector.
pub fn split_lines(text: &Vec<char>) -> (lines: Vec<Vec<char>>)
    ensures
        lines@.len() == text_lines(text@).len(),
        forall|i: int| 0 <= i < lines@.len() ==> (#[trigger] lines@[i])@ == text_lines(text@)[i],
{
    let mut lines: Vec<Vec<char>> = Vec::new();
    let mut current: Vec<char> = Vec::new();
    let mut start: usize = 0;
    let mut i: usize = 0;
    let ghost mut done: Seq<Seq<char>> = Seq::empty();
    while i < text.len()
        invariant
            start <= i <= text.len(),
            line_len(text@, start as int) == (i - start) + line_len(text@, i as int),
            current@ == text@.subrange(start as int, i as int),
            lines@.len() == done.len(),
            forall|k: int| 0 <= k < lines@.len() ==> (#[trigger] lines@[k])@ == done[k],
            done + lines_from(text@, start as int) == text_lines(text@),
        decreases text.len() - i,
    {
        let c = text[i];
        if c == '\n' {
            proof {
                assert(line_len(text@, i as int) == 0);
                assert(text@.subrange(start as int, i as int) =~= current@);
            }
            let ghost raw = current@;
            let n = current.len();
            if n > 0 && current[n - 1] == '\r' {
                current.pop();
                assert(current@ =~= raw.drop_last());
            }
            assert(current@ == strip_cr(raw));
            proof {
                let rest = lines_from(text@, i + 1);
                assert(lines_from(text@, start as int) == seq![strip_cr(raw)] + rest);
                assert(done.push(current@) + rest =~= done + (seq![strip_cr(raw)] + rest));
                done = done.push(current@);
            }
            lines.push(current);
            current = Vec::new();
            start = i + 1;
            assert(text@.subrange(start as int, start as int) =~= current@);
        } else {
            current.push(c);
            assert(text@.subrange(start as int, i + 1) =~= text@.subrange(
                start as int,
                i as int,
            ).push(c));
        }
        i += 1;
    }
    if start < text.len() {
        proof {
            assert(line_len(text@, i as int) == 0);
            assert(lines_from(text@, start as int) == seq![current@]);
            assert(done + seq![current@] =~= done.push(current@));
            done = done.push(current@);
        }
        lines.push(current);
    } else {
        assert(lines_from(text@, start as int) =~= Seq::<Seq<char>>::empty());
        assert(done + Seq::<Seq<char>>::empty() =~= done);
    }
    assert(done == text_lines(text@));
    lines
}

} // verus!
