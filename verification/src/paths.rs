//! What the editor reads off a path: the file name, the extension, the
//! language tag that the extension stands for, and which paths the file
//! listings leave out. A path is a text with `'/'` between its components.

use crate::text::{contains, contains_seq, matches_at, to_chars, to_string};
use vstd::prelude::*;
use vstd::string::StringExecFns;

verus! {

/// The index of the last `c` in `s`, or -1 where there is none.
pub open spec fn last_index_of(s: Seq<char>, c: char) -> int
    decreases s.len(),
{
    if s.len() == 0 {
        -1
    } else if s.last() == c {
        s.len() - 1
    } else {
        last_index_of(s.drop_last(), c)
    }
}

/// What follows the last `'/'` of a path: the whole path where it has none.
pub open spec fn file_name(path: Seq<char>) -> Seq<char> {
    path.subrange(last_index_of(path, '/') + 1, path.len() as int)
}

/// The path names a file: its last component is neither empty nor `".."`.
pub open spec fn has_file_name(path: Seq<char>) -> bool {
    file_name(path).len() > 0 && file_name(path) != seq!['.', '.']
}

/// The part of the file name after its last `'.'`. There is none where the
/// path names no file, where the name has no `'.'`, and where its only
/// `'.'` is its first character.
pub open spec fn extension(path: Seq<char>) -> Option<Seq<char>> {
    let name = file_name(path);
    let dot = last_index_of(name, '.');
    if has_file_name(path) && dot > 0 {
        Some(name.subrange(dot + 1, name.len() as int))
    } else {
        None
    }
}

/// The language tag of an extension: `rs` is Rust, `py` is Python, `md` is
/// Markdown, anything else and no extension at all are plain text.
pub open spec fn language_of_extension(ext: Option<Seq<char>>) -> Seq<char> {
    match ext {
        Some(e) => if e == seq!['r', 's'] {
            "Rust"@
        } else if e == seq!['p', 'y'] {
            "Python"@
        } else if e == seq!['m', 'd'] {
            "Markdown"@
        } else {
            "Plain Text"@
        },
        None => "Plain Text"@,
    }
}

/// The language tag of a document with the given origin.
pub open spec fn language_of_origin(origin: Option<Seq<char>>) -> Seq<char> {
    match origin {
        Some(path) => language_of_extension(extension(path)),
        None => "Plain Text"@,
    }
}

/// The name under which a document with the given origin is shown.
pub open spec fn display_name(origin: Option<Seq<char>>) -> Seq<char> {
    match origin {
        Some(path) => if has_file_name(path) {
            file_name(path)
        } else {
            "Untitled"@
        },
        None => "Untitled"@,
    }
}

/// The file name starts with `'.'`.
pub open spec fn is_hidden(path: Seq<char>) -> bool {
    file_name(path).len() > 0 && file_name(path)[0] == '.'
}

/// The file listing beside the editor leaves the path out: a file whose
/// name starts with `'.'`, the settings file, and any path that holds the
/// letters `target` anywhere.
pub open spec fn listing_excludes(path: Seq<char>) -> bool {
    ||| is_hidden(path)
    ||| file_name(path) == "settings.json"@
    ||| contains_seq(path, "target"@)
}

/// The number of characters from `from` up to the next `'/'` or the end.
pub open spec fn component_len(path: Seq<char>, from: int) -> nat
    decreases path.len() - from,
{
    if 0 <= from < path.len() && path[from] != '/' {
        1 + component_len(path, from + 1)
    } else {
        0
    }
}

/// A component of the path starts at `at`: at the start of the path or
/// right after a `'/'`.
pub open spec fn starts_component(path: Seq<char>, at: int) -> bool {
    0 <= at < path.len() && (at == 0 || path[at - 1] == '/')
}

/// The component that starts at `at`: the characters up to the next `'/'`.
pub open spec fn component_at(path: Seq<char>, at: int) -> Seq<char> {
    path.subrange(at, at + component_len(path, at))
}

/// The component that starts at `at` is not the last: a `'/'` follows it.
pub open spec fn is_directory_at(path: Seq<char>, at: int) -> bool {
    at + component_len(path, at) < path.len()
}

/// A name that marks a hidden entry: it starts with `'.'` and is neither
/// `"."` nor `".."`.
pub open spec fn is_hidden_name(name: Seq<char>) -> bool {
    name.len() > 0 && name[0] == '.' && name != seq!['.'] && name != seq!['.', '.']
}

/// Some component of the path, directory or file, is hidden.
pub open spec fn has_hidden_component(path: Seq<char>) -> bool {
    exists|at: int| starts_component(path, at) && is_hidden_name(#[trigger] component_at(path, at))
}

/// The path leads through a directory called `name`: a component before
/// the last is that name.
pub open spec fn has_directory(path: Seq<char>, name: Seq<char>) -> bool {
    exists|at: int|
        starts_component(path, at) && #[trigger] component_at(path, at) == name && is_directory_at(
            path,
            at,
        )
}

/// The search leaves the path out: a hidden entry or anything below one,
/// the settings file, and anything below a build-output directory
/// `target` or a version-control directory `.git`. A file that is merely
/// named like one of these directories is searched.
pub open spec fn search_excludes(path: Seq<char>) -> bool {
    ||| has_hidden_component(path)
    ||| file_name(path) == "settings.json"@
    ||| has_directory(path, "target"@)
    ||| has_directory(path, ".git"@)
}

pub proof fn lemma_component_len(path: Seq<char>, from: int)
    requires
        0 <= from <= path.len(),
    ensures
        from + component_len(path, from) <= path.len(),
        forall|i: int| from <= i < from + component_len(path, from) ==> path[i] != '/',
        from + component_len(path, from) < path.len() ==> path[from + component_len(path, from)]
            == '/',
    decreases path.len() - from,
{
    if from < path.len() && path[from] != '/' {
        lemma_component_len(path, from + 1);
    }
}

/// One past the index of the last `c` in `s`, or 0 where there is none.
fn after_last(s: &Vec<char>, c: char) -> (at: usize)
    ensures
        at == last_index_of(s@, c) + 1,
        at <= s.len(),
{
    let mut n: usize = s.len();
    assert(s@.take(n as int) =~= s@);
    while n > 0
        invariant
            n <= s.len(),
            last_index_of(s@, c) == last_index_of(s@.take(n as int), c),
        decreases n,
    {
        if s[n - 1] == c {
            return n;
        }
        assert(s@.take(n as int).drop_last() =~= s@.take(n - 1));
        n -= 1;
    }
    0
}

/// The characters of the file name of a path.
pub fn file_name_chars(path: &Vec<char>) -> (name: Vec<char>)
    ensures
        name@ == file_name(path@),
{
    let from = after_last(path, '/');
    let mut name: Vec<char> = Vec::new();
    let mut i: usize = from;
    while i < path.len()
        invariant
            from <= i <= path.len(),
            name@ == path@.subrange(from as int, i as int),
        decreases path.len() - i,
    {
        name.push(path[i]);
        assert(path@.subrange(from as int, i + 1) =~= path@.subrange(from as int, i as int).push(
            path@[i as int],
        ));
        i += 1;
    }
    name
}

/// Whether `name` is a file name at all.
fn names_a_file(name: &Vec<char>) -> (yes: bool)
    ensures
        yes == (name@.len() > 0 && name@ != seq!['.', '.']),
{
    if name.len() == 0 {
        return false;
    }
    if name.len() == 2 && name[0] == '.' && name[1] == '.' {
        assert(name@ =~= seq!['.', '.']);
        return false;
    }
    proof {
        if name@ == seq!['.', '.'] {
            assert(seq!['.', '.'].len() == 2);
            assert(seq!['.', '.'][0] == '.');
            assert(seq!['.', '.'][1] == '.');
        }
    }
    true
}

/// Whether `chars[from..]` is exactly the two characters `a`, `b`.
fn tail_is(chars: &Vec<char>, from: usize, a: char, b: char) -> (yes: bool)
    requires
        from <= chars.len(),
    ensures
        yes == (chars@.subrange(from as int, chars@.len() as int) == seq![a, b]),
{
    let ghost tail = chars@.subrange(from as int, chars@.len() as int);
    if chars.len() - from == 2 && chars[from] == a && chars[from + 1] == b {
        assert(tail =~= seq![a, b]);
        true
    } else {
        proof {
            if tail == seq![a, b] {
                assert(seq![a, b].len() == 2);
                assert(seq![a, b][0] == a);
                assert(seq![a, b][1] == b);
                assert(tail[0] == chars@[from as int]);
                assert(tail[1] == chars@[from + 1]);
            }
        }
        false
    }
}

/// The language tag for a path, by its extension.
pub fn language_for_path(path: &str) -> (language: String)
    ensures
        language@ == language_of_origin(Some(path@)),
{
    let name = file_name_chars(&to_chars(path));
    let after_dot = after_last(&name, '.');
    if !names_a_file(&name) || after_dot <= 1 {
        return String::from_str("Plain Text");
    }
    assert(extension(path@) == Some(name@.subrange(after_dot as int, name@.len() as int)));
    if tail_is(&name, after_dot, 'r', 's') {
        String::from_str("Rust")
    } else if tail_is(&name, after_dot, 'p', 'y') {
        String::from_str("Python")
    } else if tail_is(&name, after_dot, 'm', 'd') {
        String::from_str("Markdown")
    } else {
        String::from_str("Plain Text")
    }
}

/// The name under which a document at `path` is shown.
pub fn display_name_for_path(path: &str) -> (name: String)
    ensures
        name@ == display_name(Some(path@)),
{
    let chars = file_name_chars(&to_chars(path));
    if names_a_file(&chars) {
        let n = chars.len();
        let name = to_string(&chars, 0, n);
        assert(chars@.subrange(0, n as int) =~= chars@);
        name
    } else {
        String::from_str("Untitled")
    }
}

/// Whether `name` is the name of the settings file.
fn is_settings_name(name: &Vec<char>) -> (yes: bool)
    ensures
        yes == (name@ == "settings.json"@),
{
    let settings = to_chars("settings.json");
    if name.len() == settings.len() && matches_at(name, &settings, 0) {
        assert(name@.subrange(0, settings@.len() as int) =~= name@);
        true
    } else {
        proof {
            if name@ == settings@ {
                assert(name@.subrange(0, settings@.len() as int) =~= settings@);
            }
        }
        false
    }
}

/// Whether the file listing beside the editor leaves `path` out.
pub fn is_listing_excluded(path: &str) -> (excluded: bool)
    ensures
        excluded == listing_excludes(path@),
{
    let chars = to_chars(path);
    let name = file_name_chars(&chars);
    if name.len() > 0 && name[0] == '.' {
        return true;
    }
    if is_settings_name(&name) {
        return true;
    }
    contains(&chars, &to_chars("target"))
}

/// The end of the component that starts at `start`.
fn component_end(path: &Vec<char>, start: usize) -> (end: usize)
    requires
        start <= path.len(),
    ensures
        end == start + component_len(path@, start as int),
        start <= end <= path.len(),
{
    let mut end: usize = start;
    while end < path.len() && path[end] != '/'
        invariant
            start <= end <= path.len(),
            component_len(path@, start as int) == (end - start) + component_len(path@, end as int),
        decreases path.len() - end,
    {
        end += 1;
    }
    end
}

/// Whether the component `path[start..end]` is a hidden name.
fn is_hidden_component(path: &Vec<char>, start: usize, end: usize) -> (hidden: bool)
    requires
        start <= end <= path.len(),
    ensures
        hidden == is_hidden_name(path@.subrange(start as int, end as int)),
{
    let ghost name = path@.subrange(start as int, end as int);
    let n: usize = end - start;
    if n == 0 || path[start] != '.' {
        proof {
            if n > 0 {
                assert(name[0] == path@[start as int]);
            }
        }
        return false;
    }
    assert(name[0] == path@[start as int]);
    if n == 1 {
        assert(name =~= seq!['.']);
        return false;
    }
    if n == 2 && path[start + 1] == '.' {
        assert(name[1] == path@[start + 1]);
        assert(name =~= seq!['.', '.']);
        return false;
    }
    proof {
        assert(seq!['.'].len() == 1);
        assert(seq!['.', '.'].len() == 2);
        if name == seq!['.', '.'] {
            assert(name[1] == path@[start + 1]);
            assert(seq!['.', '.'][1] == '.');
        }
    }
    true
}

/// Whether the component `path[start..end]` is `name`.
fn component_is(path: &Vec<char>, start: usize, end: usize, name: &Vec<char>) -> (same: bool)
    requires
        start <= end <= path.len(),
    ensures
        same == (path@.subrange(start as int, end as int) == name@),
{
    if end - start == name.len() && matches_at(path, name, start) {
        true
    } else {
        false
    }
}

/// What the search holds against the component that starts at `at`: it
/// is hidden, or it is a directory called `target` or `.git`.
pub open spec fn component_excludes(path: Seq<char>, at: int) -> bool {
    ||| is_hidden_name(component_at(path, at))
    ||| component_at(path, at) == "target"@ && is_directory_at(path, at)
    ||| component_at(path, at) == ".git"@ && is_directory_at(path, at)
}

/// A path none of whose components the search holds anything against
/// has no hidden component and leads through neither directory.
pub proof fn lemma_nothing_excluded(path: Seq<char>)
    requires
        forall|at: int| starts_component(path, at) ==> !component_excludes(path, at),
    ensures
        !has_hidden_component(path),
        !has_directory(path, "target"@),
        !has_directory(path, ".git"@),
{
    assert forall|at: int| starts_component(path, at) implies !is_hidden_name(
        #[trigger] component_at(path, at),
    ) && !(component_at(path, at) == "target"@ && is_directory_at(path, at)) && !(component_at(
        path,
        at,
    ) == ".git"@ && is_directory_at(path, at)) by {
        assert(!component_excludes(path, at));
    }
}

/// Whether the search leaves `path` out.
pub fn is_search_excluded(path: &str) -> (excluded: bool)
    ensures
        excluded == search_excludes(path@),
{
    let chars = to_chars(path);
    if is_settings_name(&file_name_chars(&chars)) {
        return true;
    }
    let target = to_chars("target");
    let git = to_chars(".git");
    let mut start: usize = 0;
    loop
        invariant
            chars@ == path@,
            file_name(path@) != "settings.json"@,
            target@ == "target"@,
            git@ == ".git"@,
            start <= chars.len(),
            start == 0 || chars@[start - 1] == '/',
            forall|at: int|
                0 <= at < start && starts_component(chars@, at) ==> !component_excludes(
                    chars@,
                    at,
                ),
        decreases chars.len() - start,
    {
        if start >= chars.len() {
            proof {
                lemma_nothing_excluded(chars@);
            }
            return false;
        }
        let end = component_end(&chars, start);
        proof {
            lemma_component_len(chars@, start as int);
        }
        let is_directory = end < chars.len();
        if is_hidden_component(&chars, start, end) || (is_directory && (component_is(
            &chars,
            start,
            end,
            &target,
        ) || component_is(&chars, start, end, &git))) {
            assert(starts_component(chars@, start as int));
            assert(component_excludes(chars@, start as int));
            return true;
        }
        assert(!component_excludes(chars@, start as int));
        assert forall|at: int| 0 <= at <= end && starts_component(chars@, at) implies 
            !component_excludes(chars@, at) by {
            if start < at {
                assert(chars@[at - 1] != '/');
            }
        }
        if !is_directory {
            proof {
                lemma_nothing_excluded(chars@);
            }
            return false;
        }
        start = end + 1;
    }
}

} // verus!
