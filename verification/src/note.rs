//! Notes and their mathematical view.

use vstd::prelude::*;

verus! {

/// What a note is, independent of how its text is stored.
pub struct NoteView {
    pub title: Seq<char>,
    pub content: Seq<char>,
}

/// A note: a title and a content, both free text.
#[derive(Debug)]
pub struct Note {
    pub title: String,
    pub content: String,
}

impl View for Note {
    type V = NoteView;

    open spec fn view(&self) -> NoteView {
        NoteView { title: self.title@, content: self.content@ }
    }
}

impl DeepView for Note {
    type V = NoteView;

    open spec fn deep_view(&self) -> NoteView {
        self@
    }
}

impl Clone for Note {
    fn clone(&self) -> (copy: Note)
        ensures
            copy == *self,
    {
        Note { title: self.title.clone(), content: self.content.clone() }
    }
}

impl PartialEq for Note {
    fn eq(&self, other: &Note) -> (equal: bool) {
        self.title == other.title && self.content == other.content
    }
}

impl Eq for Note {}

impl vstd::std_specs::cmp::PartialEqSpecImpl for Note {
    open spec fn obeys_eq_spec() -> bool {
        true
    }

    open spec fn eq_spec(&self, other: &Note) -> bool {
        self@ == other@
    }
}

} // verus!
