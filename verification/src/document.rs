//! A text buffer: the canonical content of one document, held in a rope,
//! with its origin, its language tag and its dirty flag.

use crate::paths::{display_name, display_name_for_path, language_for_path, language_of_origin};
use ropey::Rope;
use vstd::prelude::*;
use vstd::string::StringExecFns;

verus! {

#[verifier::external_type_specification]
#[verifier::external_body]
pub struct ExRope(ropey::Rope);

/// The text that a rope holds.
pub uninterp spec fn rope_text(rope: Rope) -> Seq<char>;

/// The characters that `ropey` counts as line breaks, `"\r\n"` apart.
pub open spec fn is_line_break(c: char) -> bool {
    let u = c as u32;
    0x0A <= u <= 0x0D || u == 0x85 || u == 0x2028 || u == 0x2029
}

/// The number of line breaks in a text; `"\r\n"` is one break.
pub open spec fn line_break_count(s: Seq<char>) -> nat
    decreases s.len(),
{
    if s.len() == 0 {
        0
    } else {
        let before = s.drop_last();
        let joins_cr = s.last() == '\n' && before.len() > 0 && before.last() == '\r';
        if is_line_break(s.last()) && !joins_cr {
            line_break_count(before) + 1
        } else {
            line_break_count(before)
        }
    }
}

/// `Rope::from_str` of `ropey`: the rope holds exactly the given text.
pub assume_specification[ ropey::Rope::from_str ](text: &str) -> (rope: Rope)
    ensures
        rope_text(rope) == text@,
;

/// `Rope::len_chars` of `ropey`: the number of characters held.
pub assume_specification[ ropey::Rope::len_chars ](rope: &Rope) -> (n: usize)
    ensures
        n == rope_text(*rope).len(),
;

/// `Rope::len_lines` of `ropey`: one more than the number of line breaks
/// held, by the crate's rules with its default features: LF, VT, FF, CR,
/// NEL, LS and PS each break a line, and CR LF together break it once.
pub assume_specification[ ropey::Rope::len_lines ](rope: &Rope) -> (n: usize)
    ensures
        n == line_break_count(rope_text(*rope)) + 1,
;

/// The `==` of `ropey` between a rope and a string slice: true exactly
/// where both hold the same text.
#[verifier::external_body]
fn rope_holds(rope: &Rope, text: &str) -> (same: bool)
    ensures
        same == (rope_text(*rope) == text@),
{
    *rope == text
}

/// The conversion of `ropey` from a rope to a `String`: the string holds
/// the rope's text.
#[verifier::external_body]
fn rope_to_string(rope: &Rope) -> (text: String)
    ensures
        text@ == rope_text(*rope),
{
    String::from(rope)
}

/// Why a document could not be written.
#[derive(Clone, Debug)]
pub struct WriteFailure {
    pub message: String,
}

/// Why a file could not be read as text.
#[derive(Clone, Debug)]
pub struct ReadFailure {
    pub message: String,
}

/// One document's text with its state.
pub struct TextBuffer {
    rope: Rope,
    origin: Option<String>,
    dirty: bool,
    language: String,
    cursors: Vec<usize>,
    saved: Ghost<Seq<char>>,
}

/// What a text buffer stands for.
pub struct TextBufferView {
    /// The canonical text.
    pub content: Seq<char>,
    /// The backing file, if the document has one.
    pub origin: Option<Seq<char>>,
    /// Set when the content was changed since it was created or saved.
    pub dirty: bool,
    /// The language tag, which selects the syntax for highlighting.
    pub language: Seq<char>,
    /// Byte offsets of additional cursors.
    pub cursors: Seq<usize>,
    /// The content as it was created or last saved.
    pub saved: Seq<char>,
}

impl TextBufferView {
    /// The language tag goes with the origin, and a buffer that is not
    /// dirty holds what was created or last saved.
    pub open spec fn wf(self) -> bool {
        &&& self.language == language_of_origin(self.origin)
        &&& !self.dirty ==> self.content == self.saved
    }

    /// A new buffer.
    pub open spec fn create(content: Seq<char>, origin: Option<Seq<char>>) -> TextBufferView {
        TextBufferView {
            content,
            origin,
            dirty: false,
            language: language_of_origin(origin),
            cursors: Seq::empty(),
            saved: content,
        }
    }

    /// The buffer after a text was handed in: unchanged where the text is
    /// its content, else holding the text and dirty.
    pub open spec fn replace_content(self, text: Seq<char>) -> TextBufferView {
        if text == self.content {
            self
        } else {
            TextBufferView { content: text, dirty: true, ..self }
        }
    }

    /// The buffer after its content was written.
    pub open spec fn mark_saved(self) -> TextBufferView {
        TextBufferView { dirty: false, saved: self.content, ..self }
    }

    /// The buffer under a new origin.
    pub open spec fn rename(self, path: Seq<char>) -> TextBufferView {
        TextBufferView { origin: Some(path), language: language_of_origin(Some(path)), ..self }
    }

    /// The label of the buffer's tab: its name, after `"* "` where dirty.
    pub open spec fn tab_label(self) -> Seq<char> {
        if self.dirty {
            "* "@ + display_name(self.origin)
        } else {
            display_name(self.origin)
        }
    }
}

/// Handing in the same text twice is handing it in once: the second call
/// changes nothing, the dirty flag least of all.
pub proof fn lemma_replace_content_idempotent(buffer: TextBufferView, text: Seq<char>)
    ensures
        buffer.replace_content(text).replace_content(text) == buffer.replace_content(text),
        buffer.replace_content(text).replace_content(text).dirty == buffer.replace_content(
            text,
        ).dirty,
{
}

/// Handing in the content that a buffer already holds changes nothing.
pub proof fn lemma_replace_content_same(buffer: TextBufferView)
    ensures
        buffer.replace_content(buffer.content) == buffer,
{
}

impl View for TextBuffer {
    type V = TextBufferView;

    closed spec fn view(&self) -> TextBufferView {
        TextBufferView {
            content: rope_text(self.rope),
            origin: match self.origin {
                Some(path) => Some(path@),
                None => None,
            },
            dirty: self.dirty,
            language: self.language@,
            cursors: self.cursors@,
            saved: self.saved@,
        }
    }
}

impl TextBuffer {
    /// A buffer over `content`, backed by the file at `path` if one is
    /// given. The language tag is read off the path; the buffer is clean.
    pub fn new(content: String, path: Option<String>) -> (buffer: TextBuffer)
        ensures
            buffer@ == TextBufferView::create(
                content@,
                match path {
                    Some(p) => Some(p@),
                    None => None,
                },
            ),
            buffer@.wf(),
    {
        let language = match &path {
            Some(p) => language_for_path(p.as_str()),
            None => String::from_str("Plain Text"),
        };
        TextBuffer {
            rope: Rope::from_str(content.as_str()),
            origin: path,
            dirty: false,
            language,
            cursors: Vec::new(),
            saved: Ghost(content@),
        }
    }

    /// An empty buffer with no backing file.
    pub fn untitled() -> (buffer: TextBuffer)
        ensures
            buffer@ == TextBufferView::create(Seq::empty(), None),
            buffer@.wf(),
    {
        TextBuffer::new(String::new(), None)
    }

    /// Takes in the text as edited outside the buffer. Where it differs
    /// from the content the buffer holds it from now on and is dirty; where
    /// it does not, nothing changes.
    pub fn replace_content(&mut self, new_content: &str)
        ensures
            final(self)@ == old(self)@.replace_content(new_content@),
            old(self)@.wf() ==> final(self)@.wf(),
    {
        if !rope_holds(&self.rope, new_content) {
            self.rope = Rope::from_str(new_content);
            self.dirty = true;
        }
    }

    /// Records how writing the content went. After a write that succeeded
    /// the buffer is clean; after one that failed nothing has changed, and
    /// the failure is handed on.
    pub fn finish_save(&mut self, outcome: Result<(), WriteFailure>) -> (result: Result<
        (),
        WriteFailure,
    >)
        ensures
            result == outcome,
            outcome is Ok ==> final(self)@ == old(self)@.mark_saved(),
            outcome is Err ==> final(self)@ == old(self)@,
            old(self)@.wf() ==> final(self)@.wf(),
    {
        if outcome.is_ok() {
            self.dirty = false;
            self.saved = Ghost(rope_text(self.rope));
        }
        outcome
    }

    /// Moves the buffer to a new origin and reads the language tag off it.
    /// Content and dirty flag stay.
    pub fn rename(&mut self, new_origin: String)
        ensures
            final(self)@ == old(self)@.rename(new_origin@),
            old(self)@.wf() ==> final(self)@.wf(),
    {
        self.language = language_for_path(new_origin.as_str());
        self.origin = Some(new_origin);
    }

    /// Records how writing the content to a newly chosen path went. After
    /// a write that succeeded the buffer has that origin, the language tag
    /// that goes with it, and is clean; after one that failed nothing has
    /// changed, and the failure is handed on.
    pub fn finish_save_as(&mut self, path: String, outcome: Result<(), WriteFailure>) -> (result:
        Result<(), WriteFailure>)
        ensures
            result == outcome,
            outcome is Ok ==> final(self)@ == old(self)@.rename(path@).mark_saved(),
            outcome is Err ==> final(self)@ == old(self)@,
            old(self)@.wf() ==> final(self)@.wf(),
    {
        if outcome.is_ok() {
            self.rename(path);
            self.dirty = false;
            self.saved = Ghost(rope_text(self.rope));
        }
        outcome
    }

    /// The content.
    pub fn content(&self) -> (text: String)
        ensures
            text@ == self@.content,
    {
        rope_to_string(&self.rope)
    }

    /// Whether the content was changed since it was created or saved.
    pub fn is_dirty(&self) -> (dirty: bool)
        ensures
            dirty == self@.dirty,
    {
        self.dirty
    }

    /// The language tag.
    pub fn language(&self) -> (language: &String)
        ensures
            language@ == self@.language,
    {
        &self.language
    }

    /// The backing file, if there is one.
    pub fn origin(&self) -> (origin: Option<&String>)
        ensures
            match origin {
                Some(path) => self@.origin == Some(path@),
                None => self@.origin is None,
            },
    {
        match &self.origin {
            Some(path) => Some(path),
            None => None,
        }
    }

    /// Whether the buffer is backed by the file at `path`.
    pub fn has_origin(&self, path: &str) -> (yes: bool)
        ensures
            yes == (self@.origin == Some(path@)),
    {
        match &self.origin {
            Some(own) => crate::text::same_text(own.as_str(), path),
            None => false,
        }
    }

    /// The byte offsets of the additional cursors.
    pub fn cursors(&self) -> (cursors: &Vec<usize>)
        ensures
            cursors@ == self@.cursors,
    {
        &self.cursors
    }

    /// The number of characters of the content.
    pub fn len_chars(&self) -> (n: usize)
        ensures
            n == self@.content.len(),
    {
        self.rope.len_chars()
    }

    /// The number of lines of the content: one more than its line breaks.
    pub fn len_lines(&self) -> (n: usize)
        ensures
            n == line_break_count(self@.content) + 1,
    {
        self.rope.len_lines()
    }

    /// Whether the document has a rendered preview: Markdown has one.
    pub fn has_preview(&self) -> (yes: bool)
        ensures
            yes == (self@.language == "Markdown"@),
    {
        crate::text::same_text(self.language.as_str(), "Markdown")
    }

    /// The name under which the document is shown: the file name of its
    /// origin, or `"Untitled"`.
    pub fn name(&self) -> (name: String)
        ensures
            name@ == display_name(self@.origin),
    {
        match &self.origin {
            Some(path) => display_name_for_path(path.as_str()),
            None => String::from_str("Untitled"),
        }
    }

    /// The label of the document's tab: its name, after `"* "` where the
    /// buffer is dirty.
    pub fn tab_label(&self) -> (label: String)
        ensures
            label@ == self@.tab_label(),
    {
        let name = self.name();
        if self.dirty {
            String::from_str("* ").concat(name.as_str())
        } else {
            name
        }
    }
}

} // verus!
