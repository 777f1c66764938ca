//! The open documents, in tab order, and which of them is active. A set
//! always holds at least one document.

use crate::document::{ReadFailure, TextBuffer, TextBufferView, WriteFailure};
use vstd::prelude::*;
use vstd::string::StringExecFns;

verus! {

/// The open documents and the active one.
pub struct DocumentSet {
    documents: Vec<TextBuffer>,
    active_index: usize,
}

/// What a document set stands for.
pub struct DocumentSetView {
    /// The documents in tab order.
    pub documents: Seq<TextBufferView>,
    /// The index of the active document.
    pub active: int,
}

/// How opening a file went.
#[derive(PartialEq, Eq, Structural, Clone, Copy, Debug)]
pub enum OpenOutcome {
    /// The file was open already; its document is now active.
    AlreadyOpen,
    /// A document was added for the file and is now active.
    Opened,
    /// The file could not be read; nothing has changed.
    Unavailable,
}

/// The index of the first of `documents` that is backed by `path`, or the
/// number of documents where none is.
pub open spec fn first_with_origin(documents: Seq<TextBufferView>, path: Seq<char>) -> int
    decreases documents.len(),
{
    if documents.len() == 0 {
        0
    } else if documents[0].origin == Some(path) {
        0
    } else {
        1 + first_with_origin(documents.drop_first(), path)
    }
}

pub proof fn lemma_first_with_origin(documents: Seq<TextBufferView>, path: Seq<char>)
    ensures
        0 <= first_with_origin(documents, path) <= documents.len(),
        first_with_origin(documents, path) < documents.len() ==> documents[first_with_origin(
            documents,
            path,
        )].origin == Some(path),
        forall|i: int|
            0 <= i < first_with_origin(documents, path) ==> (#[trigger] documents[i]).origin
                != Some(path),
    decreases documents.len(),
{
    if documents.len() > 0 && documents[0].origin != Some(path) {
        let rest = documents.drop_first();
        lemma_first_with_origin(rest, path);
        assert forall|i: int| 0 <= i < first_with_origin(documents, path) implies (
        #[trigger] documents[i]).origin != Some(path) by {
            if i > 0 {
                assert(documents[i] == rest[i - 1]);
            }
        }
    }
}

impl DocumentSetView {
    /// There is a document, the active index points at one, and every
    /// document is well formed.
    pub open spec fn wf(self) -> bool {
        &&& self.documents.len() >= 1
        &&& 0 <= self.active < self.documents.len()
        &&& forall|i: int| 0 <= i < self.documents.len() ==> (#[trigger] self.documents[i]).wf()
    }

    /// The active document.
    pub open spec fn active_document(self) -> TextBufferView {
        self.documents[self.active]
    }

    /// The set with `document` added at the end and active.
    pub open spec fn with_new(self, document: TextBufferView) -> DocumentSetView {
        DocumentSetView {
            documents: self.documents.push(document),
            active: self.documents.len() as int,
        }
    }

    /// The set with the active document replaced.
    pub open spec fn with_active(self, document: TextBufferView) -> DocumentSetView {
        DocumentSetView { documents: self.documents.update(self.active, document), ..self }
    }

    /// Whether the document at `index` can be closed: it exists and is
    /// not the only one.
    pub open spec fn can_close(self, index: int) -> bool {
        self.documents.len() > 1 && 0 <= index < self.documents.len()
    }

    /// The set after the document at `index` was asked to close. The last
    /// remaining document stays; otherwise the document leaves, and an
    /// active index that fell off the end moves to the last document.
    pub open spec fn close(self, index: int) -> DocumentSetView {
        if self.can_close(index) {
            let rest = self.documents.remove(index);
            DocumentSetView {
                documents: rest,
                active: if self.active >= rest.len() {
                    rest.len() - 1
                } else {
                    self.active
                },
            }
        } else {
            self
        }
    }

    /// Whether a document backed by `path` is open.
    pub open spec fn is_open(self, path: Seq<char>) -> bool {
        first_with_origin(self.documents, path) < self.documents.len()
    }

    /// The set with the first document backed by `path` active.
    pub open spec fn focused_on(self, path: Seq<char>) -> DocumentSetView {
        if self.is_open(path) {
            DocumentSetView { active: first_with_origin(self.documents, path), ..self }
        } else {
            self
        }
    }

    /// The set after a file was opened whose reading gave `content`, or
    /// failed where `content` is nothing.
    pub open spec fn open_file(self, path: Seq<char>, content: Option<Seq<char>>) -> DocumentSetView {
        if self.is_open(path) {
            self.focused_on(path)
        } else {
            match content {
                Some(text) => self.with_new(TextBufferView::create(text, Some(path))),
                None => self,
            }
        }
    }
}

/// No request to close a document empties a set: closing keeps a well
/// formed set well formed, so at least one document always remains.
pub proof fn lemma_close_keeps_a_document(set: DocumentSetView, index: int)
    requires
        set.wf(),
    ensures
        set.close(index).wf(),
        set.close(index).documents.len() >= 1,
        set.documents.len() == 1 ==> set.close(index) == set,
{
    if set.can_close(index) {
        let rest = set.documents.remove(index);
        assert forall|i: int| 0 <= i < rest.len() implies (#[trigger] rest[i]).wf() by {
            if i < index {
                assert(rest[i] == set.documents[i]);
            } else {
                assert(rest[i] == set.documents[i + 1]);
            }
        }
    }
}

/// Opening a file keeps a well formed set well formed.
pub proof fn lemma_open_file_wf(set: DocumentSetView, path: Seq<char>, content: Option<Seq<char>>)
    requires
        set.wf(),
    ensures
        set.open_file(path, content).wf(),
{
    lemma_first_with_origin(set.documents, path);
}

impl View for DocumentSet {
    type V = DocumentSetView;

    closed spec fn view(&self) -> DocumentSetView {
        DocumentSetView {
            documents: Seq::new(self.documents@.len(), |i: int| self.documents@[i]@),
            active: self.active_index as int,
        }
    }
}

impl DocumentSet {
    /// A set with one untitled document, which is active.
    pub fn new() -> (set: DocumentSet)
        ensures
            set@.documents == seq![TextBufferView::create(Seq::empty(), None)],
            set@.active == 0,
            set@.wf(),
    {
        let mut documents: Vec<TextBuffer> = Vec::new();
        documents.push(TextBuffer::untitled());
        let set = DocumentSet { documents, active_index: 0 };
        assert(set@.documents =~= seq![TextBufferView::create(Seq::empty(), None)]);
        set
    }

    /// The number of open documents.
    pub fn len(&self) -> (n: usize)
        ensures
            n == self@.documents.len(),
    {
        self.documents.len()
    }

    /// The index of the active document.
    pub fn active_index(&self) -> (index: usize)
        ensures
            index == self@.active,
    {
        self.active_index
    }

    /// The document at `index`, if there is one.
    pub fn document(&self, index: usize) -> (document: Option<&TextBuffer>)
        ensures
            match document {
                Some(d) => index < self@.documents.len() && d@ == self@.documents[index as int],
                None => index >= self@.documents.len(),
            },
    {
        if index < self.documents.len() {
            Some(&self.documents[index])
        } else {
            None
        }
    }

    /// The active document.
    pub fn active_doc(&self) -> (document: &TextBuffer)
        requires
            self@.wf(),
        ensures
            document@ == self@.active_document(),
    {
        &self.documents[self.active_index]
    }

    /// Makes the document at `index` active, if there is one.
    pub fn set_active(&mut self, index: usize) -> (done: bool)
        requires
            old(self)@.wf(),
        ensures
            done == (index < old(self)@.documents.len()),
            done ==> final(self)@ == (DocumentSetView { active: index as int, ..old(self)@ }),
            !done ==> final(self)@ == old(self)@,
            final(self)@.wf(),
    {
        if index < self.documents.len() {
            self.active_index = index;
            true
        } else {
            false
        }
    }

    /// Adds an untitled document at the end and makes it active.
    pub fn new_tab(&mut self)
        requires
            old(self)@.wf(),
        ensures
            final(self)@ == old(self)@.with_new(TextBufferView::create(Seq::empty(), None)),
            final(self)@.wf(),
    {
        self.push_active(TextBuffer::untitled());
    }

    fn push_active(&mut self, document: TextBuffer)
        requires
            old(self)@.wf(),
            document@.wf(),
        ensures
            final(self)@ == old(self)@.with_new(document@),
            final(self)@.wf(),
    {
        self.documents.push(document);
        self.active_index = self.documents.len() - 1;
        assert(self@.documents =~= old(self)@.documents.push(document@));
    }

    /// Closes the document at `index`, unless it is the only one or does
    /// not exist. Says whether a document was closed.
    pub fn close(&mut self, index: usize) -> (closed: bool)
        requires
            old(self)@.wf(),
        ensures
            closed == old(self)@.can_close(index as int),
            final(self)@ == old(self)@.close(index as int),
            final(self)@.wf(),
            final(self)@.documents.len() >= 1,
    {
        proof {
            lemma_close_keeps_a_document(self@, index as int);
        }
        if self.documents.len() > 1 && index < self.documents.len() {
            self.documents.remove(index);
            if self.active_index >= self.documents.len() {
                self.active_index = self.documents.len() - 1;
            }
            assert(self@.documents =~= old(self)@.documents.remove(index as int));
            true
        } else {
            false
        }
    }

    /// The index of the first document backed by `path`, if one is open.
    pub fn position_of(&self, path: &str) -> (position: Option<usize>)
        ensures
            match position {
                Some(i) => self@.is_open(path@) && i == first_with_origin(self@.documents, path@),
                None => !self@.is_open(path@),
            },
    {
        let mut i: usize = 0;
        while i < self.documents.len()
            invariant
                i <= self.documents.len(),
                forall|j: int| 0 <= j < i ==> (#[trigger] self@.documents[j]).origin != Some(path@),
            decreases self.documents.len() - i,
        {
            if self.documents[i].has_origin(path) {
                proof {
                    lemma_first_with_origin(self@.documents, path@);
                    let first = first_with_origin(self@.documents, path@);
                    assert(self@.documents[i as int].origin == Some(path@));
                    if first < i {
                        assert(self@.documents[first].origin != Some(path@));
                    }
                }
                return Some(i);
            }
            i += 1;
        }
        proof {
            lemma_first_with_origin(self@.documents, path@);
            let first = first_with_origin(self@.documents, path@);
            if first < self@.documents.len() {
                assert(self@.documents[first].origin != Some(path@));
            }
        }
        None
    }

    /// Makes the first document backed by `path` active, if one is open.
    /// Says whether one was.
    pub fn focus_path(&mut self, path: &str) -> (found: bool)
        requires
            old(self)@.wf(),
        ensures
            found == old(self)@.is_open(path@),
            final(self)@ == old(self)@.focused_on(path@),
            final(self)@.wf(),
    {
        match self.position_of(path) {
            Some(i) => {
                self.active_index = i;
                true
            },
            None => false,
        }
    }

    /// Opens the file at `path`, given how reading it went. A file that is
    /// open already only becomes active, whatever the reading gave;
    /// otherwise a document is added for the text read and becomes active,
    /// and a file that could not be read changes nothing.
    pub fn open_file(&mut self, path: &str, read: Result<String, ReadFailure>) -> (outcome:
        OpenOutcome)
        requires
            old(self)@.wf(),
        ensures
            final(self)@ == old(self)@.open_file(
                path@,
                match read {
                    Ok(text) => Some(text@),
                    Err(_) => None,
                },
            ),
            outcome == (if old(self)@.is_open(path@) {
                OpenOutcome::AlreadyOpen
            } else if read is Ok {
                OpenOutcome::Opened
            } else {
                OpenOutcome::Unavailable
            }),
            final(self)@.wf(),
    {
        if self.focus_path(path) {
            return OpenOutcome::AlreadyOpen;
        }
        match read {
            Ok(text) => {
                self.push_active(TextBuffer::new(text, Some(String::from_str(path))));
                OpenOutcome::Opened
            },
            Err(_) => OpenOutcome::Unavailable,
        }
    }

    /// Takes the text as edited outside into the active document.
    pub fn replace_active_content(&mut self, new_content: &str)
        requires
            old(self)@.wf(),
        ensures
            final(self)@ == old(self)@.with_active(
                old(self)@.active_document().replace_content(new_content@),
            ),
            final(self)@.wf(),
    {
        self.documents[self.active_index].replace_content(new_content);
        assert(self@.documents =~= old(self)@.documents.update(
            old(self)@.active,
            old(self)@.active_document().replace_content(new_content@),
        ));
    }

    /// Records how writing the active document to its origin went.
    pub fn finish_save_active(&mut self, outcome: Result<(), WriteFailure>) -> (result: Result<
        (),
        WriteFailure,
    >)
        requires
            old(self)@.wf(),
        ensures
            result == outcome,
            outcome is Ok ==> final(self)@ == old(self)@.with_active(
                old(self)@.active_document().mark_saved(),
            ),
            outcome is Err ==> final(self)@ == old(self)@,
            final(self)@.wf(),
    {
        let result = self.documents[self.active_index].finish_save(outcome);
        assert(self@.documents =~= old(self)@.documents.update(
            old(self)@.active,
            self@.documents[old(self)@.active],
        ));
        assert(outcome is Err ==> self@.documents =~= old(self)@.documents);
        result
    }

    /// Records how writing the active document to a newly chosen path
    /// went.
    pub fn finish_save_active_as(&mut self, path: String, outcome: Result<(), WriteFailure>) -> (result:
        Result<(), WriteFailure>)
        requires
            old(self)@.wf(),
        ensures
            result == outcome,
            outcome is Ok ==> final(self)@ == old(self)@.with_active(
                old(self)@.active_document().rename(path@).mark_saved(),
            ),
            outcome is Err ==> final(self)@ == old(self)@,
            final(self)@.wf(),
    {
        let result = self.documents[self.active_index].finish_save_as(path, outcome);
        assert(self@.documents =~= old(self)@.documents.update(
            old(self)@.active,
            self@.documents[old(self)@.active],
        ));
        assert(outcome is Err ==> self@.documents =~= old(self)@.documents);
        result
    }
}

} // verus!
