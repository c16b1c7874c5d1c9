//! Notes: free text with a title, content and shared metadata.

use vstd::prelude::*;
use crate::time::Timestamp;
use crate::ident::Uuid;
use crate::meta::{Idable, Meta};

verus! {

/// The fields a note request may carry; absent fields leave the note
/// unchanged (or empty, at creation).
#[derive(Clone, Debug)]
pub struct NoteQuery {
    pub title: Option<String>,
    pub content: Option<String>,
}

impl NoteQuery {
    /// An empty request.
    pub fn new() -> (r: NoteQuery)
        ensures
            r.title is None,
            r.content is None,
    {
        NoteQuery { title: None, content: None }
    }
}

impl Default for NoteQuery {
    fn default() -> (r: NoteQuery)
        ensures
            r.title is None,
            r.content is None,
    {
        NoteQuery::new()
    }
}

/// A note: a title (possibly empty), its content, and the shared metadata.
#[derive(Debug)]
pub struct Note {
    pub title: String,
    pub content: String,
    pub(crate) meta: Meta,
}

/// The mathematical value of a note.
#[verifier::ext_equal]
pub ghost struct NoteV {
    pub title: Seq<char>,
    pub content: Seq<char>,
    pub meta: Meta,
}

impl NoteV {
    pub open spec fn wf(self) -> bool {
        self.meta.wf()
    }
}

impl View for Note {
    type V = NoteV;

    open(crate) spec fn view(&self) -> NoteV {
        NoteV { title: self.title@, content: self.content@, meta: self.meta }
    }
}

impl Note {
    /// A new note holding `content`, with an empty title, fresh metadata.
    pub fn new(content: String) -> (r: Note)
        ensures
            r@.content == content@,
            r@.title.len() == 0,
            r@.wf(),
            r@.meta.created_on == r@.meta.last_modified,
    {
        Note { title: String::new(), content, meta: Meta::new() }
    }

    /// A new note holding `content` under `title`, with fresh metadata.
    pub fn with_title(content: String, title: String) -> (r: Note)
        ensures
            r@.content == content@,
            r@.title == title@,
            r@.wf(),
            r@.meta.created_on == r@.meta.last_modified,
    {
        Note { title, content, meta: Meta::new() }
    }

    /// Assemble a note from already-validated parts (the codec's entry).
    pub(crate) fn from_parts(title: String, content: String, meta: Meta) -> (r: Note)
        ensures
            r@ == (NoteV { title: title@, content: content@, meta }),
    {
        Note { title, content, meta }
    }

    /// The creation moment.
    pub fn created_at(&self) -> (r: Timestamp)
        ensures
            r == self@.meta.created_on,
    {
        self.meta.created_on
    }

    /// The last-modified moment.
    pub fn last_modified_at(&self) -> (r: Timestamp)
        ensures
            r == self@.meta.last_modified,
    {
        self.meta.last_modified
    }

    /// Record a content mutation: the identifier and creation moment stay,
    /// the last-modified moment moves forward to now.
    pub fn update_modified_date(&mut self)
        ensures
            final(self)@.title == old(self)@.title,
            final(self)@.content == old(self)@.content,
            final(self)@.meta.uuid == old(self)@.meta.uuid,
            final(self)@.meta.created_on == old(self)@.meta.created_on,
            old(self)@.meta.last_modified.le_spec(final(self)@.meta.last_modified),
            old(self)@.wf() ==> final(self)@.wf(),
    {
        self.meta.update_modified_date();
    }
}

impl Idable for Note {
    open spec fn uuid_spec(&self) -> Uuid {
        self@.meta.uuid
    }

    fn get_uuid(&self) -> (r: Uuid) {
        self.meta.uuid
    }
}

} // verus!
