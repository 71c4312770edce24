//! The executable store, kept as one entry per principal and proved against
//! the [`StoreModel`].

use vstd::prelude::*;
use crate::model::StoreModel;
use crate::note::{Note, NoteView};
use crate::principal::Principal;

verus! {

/// The notes of one principal.
struct Entry {
    owner: Principal,
    notes: Vec<Note>,
}

/// A note store: for each principal that ever added a note, that principal's
/// notes in insertion order.
///
/// The store performs no I/O and learns the caller from its argument. Writes
/// take `&mut self`, so each one runs to completion before the next begins;
/// reads hand out copies, which the caller may change without reaching the
/// store.
pub struct NoteStore {
    entries: Vec<Entry>,
}

/// Whether some entry belongs to `caller`.
spec fn has_entry(entries: Seq<Entry>, caller: Seq<u8>) -> bool {
    exists|at: int| 0 <= at < entries.len() && #[trigger] entries[at].owner@ == caller
}

/// The position of an entry of `caller`, where there is one.
spec fn entry_of(entries: Seq<Entry>, caller: Seq<u8>) -> int {
    choose|at: int| 0 <= at < entries.len() && #[trigger] entries[at].owner@ == caller
}

/// No two entries have the same owner.
spec fn owners_differ(entries: Seq<Entry>) -> bool {
    forall|one: int, other: int|
        0 <= one < other < entries.len() ==> #[trigger] entries[one].owner@
            != #[trigger] entries[other].owner@
}

/// The model that a sequence of entries stands for.
spec fn model_of(entries: Seq<Entry>) -> StoreModel {
    StoreModel {
        sequences: Map::new(
            |caller: Seq<u8>| has_entry(entries, caller),
            |caller: Seq<u8>| entries[entry_of(entries, caller)].notes.deep_view(),
        ),
    }
}

/// With distinct owners, the entry at `at` is the one that the model shows for
/// its owner.
proof fn lemma_entry_is_found(entries: Seq<Entry>, at: int)
    requires
        owners_differ(entries),
        0 <= at < entries.len(),
    ensures
        has_entry(entries, entries[at].owner@),
        entry_of(entries, entries[at].owner@) == at,
        model_of(entries).sequences.contains_key(entries[at].owner@),
        model_of(entries).sequences[entries[at].owner@] == entries[at].notes.deep_view(),
{
}

/// Replacing the notes of the entry at `at`, and nothing else, stores the new
/// notes under that entry's owner.
proof fn lemma_model_after_rewrite(before: Seq<Entry>, after: Seq<Entry>, at: int)
    requires
        owners_differ(before),
        0 <= at < before.len(),
        after.len() == before.len(),
        forall|each: int| 0 <= each < before.len() ==> after[each].owner@ == before[each].owner@,
        forall|each: int|
            0 <= each < before.len() && each != at ==> after[each].notes.deep_view()
                == before[each].notes.deep_view(),
    ensures
        owners_differ(after),
        model_of(after).sequences == model_of(before).sequences.insert(
            before[at].owner@,
            after[at].notes.deep_view(),
        ),
{
    let changed = model_of(after).sequences;
    let expected = model_of(before).sequences.insert(
        before[at].owner@,
        after[at].notes.deep_view(),
    );
    assert forall|caller: Seq<u8>| changed.contains_key(caller) == expected.contains_key(
        caller,
    ) by {
        if has_entry(after, caller) {
            let found = entry_of(after, caller);
            assert(before[found].owner@ == caller);
        }
        if has_entry(before, caller) {
            let found = entry_of(before, caller);
            assert(after[found].owner@ == caller);
        }
        assert(after[at].owner@ == before[at].owner@);
    }
    assert forall|caller: Seq<u8>| changed.contains_key(caller) implies changed[caller]
        == expected[caller] by {
        let found = entry_of(after, caller);
        lemma_entry_is_found(after, found);
        lemma_entry_is_found(before, found);
    }
    assert(changed =~= expected);
}

/// Appending an entry whose owner had none stores its notes under that owner.
proof fn lemma_model_after_push(before: Seq<Entry>, entry: Entry)
    requires
        owners_differ(before),
        !has_entry(before, entry.owner@),
    ensures
        owners_differ(before.push(entry)),
        model_of(before.push(entry)).sequences == model_of(before).sequences.insert(
            entry.owner@,
            entry.notes.deep_view(),
        ),
{
    let after = before.push(entry);
    let changed = model_of(after).sequences;
    let expected = model_of(before).sequences.insert(entry.owner@, entry.notes.deep_view());
    assert forall|one: int, other: int| 0 <= one < other < after.len() implies after[one].owner@
        != after[other].owner@ by {
        if other == before.len() {
            assert(before[one].owner@ != entry.owner@);
        }
    }
    assert forall|caller: Seq<u8>| changed.contains_key(caller) == expected.contains_key(
        caller,
    ) by {
        if has_entry(after, caller) {
            let found = entry_of(after, caller);
            if found < before.len() {
                assert(before[found].owner@ == caller);
            }
        }
        if has_entry(before, caller) {
            let found = entry_of(before, caller);
            assert(after[found].owner@ == caller);
        }
        assert(after[before.len() as int].owner@ == entry.owner@);
    }
    assert forall|caller: Seq<u8>| changed.contains_key(caller) implies changed[caller]
        == expected[caller] by {
        let found = entry_of(after, caller);
        lemma_entry_is_found(after, found);
        if found < before.len() {
            assert(before[found].owner@ == caller);
            lemma_entry_is_found(before, found);
        }
    }
    assert(changed =~= expected);
}

impl View for NoteStore {
    type V = StoreModel;

    closed spec fn view(&self) -> StoreModel {
        model_of(self.entries@)
    }
}

impl NoteStore {
    #[verifier::type_invariant]
    spec fn well_formed(self) -> bool {
        owners_differ(self.entries@)
    }

    /// A store in which no principal has a sequence.
    pub fn new() -> (store: NoteStore)
        ensures
            store@ == StoreModel::empty(),
    {
        let store = NoteStore { entries: Vec::new() };
        assert(store@.sequences =~= Map::empty());
        store
    }

    /// The position of the entry of `caller`, if it has one.
    fn position(&self, caller: &Principal) -> (found: Option<usize>)
        ensures
            match found {
                Some(at) => at < self.entries.len() && self.entries[at as int].owner@ == caller@,
                None => !has_entry(self.entries@, caller@),
            },
    {
        let mut at: usize = 0;
        while at < self.entries.len()
            invariant
                at <= self.entries.len(),
                forall|seen: int| 0 <= seen < at ==> self.entries[seen].owner@ != caller@,
            decreases self.entries.len() - at,
        {
            if self.entries[at].owner == *caller {
                return Some(at);
            }
            at += 1;
        }
        None
    }

    /// Appends the note `title`, `content` to the notes of `caller`, creating
    /// the caller's sequence if it has none. Always returns `true`.
    pub fn add_note(&mut self, caller: &Principal, title: String, content: String) -> (added: bool)
        ensures
            added,
            final(self)@ == old(self)@.add(
                caller@,
                NoteView { title: title@, content: content@ },
            ),
            final(self)@.notes_of(caller@) == old(self)@.notes_of(caller@).push(
                NoteView { title: title@, content: content@ },
            ),
            forall|other: Seq<u8>|
                other != caller@ ==> #[trigger] final(self)@.notes_of(other) == old(self)@.notes_of(
                    other,
                ),
    {
        proof {
            use_type_invariant(&*self);
        }
        let note = Note { title, content };
        let found = self.position(caller);
        let mut entries: Vec<Entry> = Vec::new();
        std::mem::swap(&mut entries, &mut self.entries);
        let ghost before = entries@;
        match found {
            Some(at) => {
                entries[at].notes.push(note);
                proof {
                    lemma_entry_is_found(before, at as int);
                    lemma_model_after_rewrite(before, entries@, at as int);
                    assert(entries[at as int].notes.deep_view()
                        =~= before[at as int].notes.deep_view().push(note@));
                }
            },
            None => {
                let mut notes: Vec<Note> = Vec::new();
                notes.push(note);
                let entry = Entry { owner: caller.clone(), notes };
                proof {
                    lemma_model_after_push(before, entry);
                    assert(entry.notes.deep_view() =~= Seq::<NoteView>::empty().push(note@));
                }
                entries.push(entry);
            },
        }
        self.entries = entries;
        assert(self@.sequences =~= old(self)@.add(caller@, note@).sequences);
        true
    }

    /// A copy of the notes of `caller`, in insertion order; empty if the
    /// caller has no sequence.
    pub fn get_notes(&self, caller: &Principal) -> (notes: Vec<Note>)
        ensures
            notes.deep_view() == self@.notes_of(caller@),
            notes.len() == self@.notes_of(caller@).len(),
    {
        proof {
            use_type_invariant(self);
        }
        match self.position(caller) {
            Some(at) => {
                proof {
                    lemma_entry_is_found(self.entries@, at as int);
                }
                let notes = self.entries[at].notes.clone();
                assert(notes@ =~= self.entries[at as int].notes@);
                notes
            },
            None => {
                let notes: Vec<Note> = Vec::new();
                assert(notes.deep_view() =~= Seq::<NoteView>::empty());
                notes
            },
        }
    }

    /// A copy of the note of `caller` at `index`; `None` if the caller has no
    /// sequence or `index` is out of range.
    pub fn get_note_by_index(&self, caller: &Principal, index: usize) -> (found: Option<Note>)
        ensures
            found.deep_view() == self@.get(caller@, index as nat),
            found is Some <==> index < self@.notes_of(caller@).len(),
            found matches Some(note) ==> note@ == self@.notes_of(caller@)[index as int],
    {
        proof {
            use_type_invariant(self);
        }
        if let Some(at) = self.position(caller) {
            proof {
                lemma_entry_is_found(self.entries@, at as int);
            }
            let notes = &self.entries[at].notes;
            if index < notes.len() {
                return Some(notes[index].clone());
            }
        }
        None
    }

    /// Removes the note of `caller` at `index`, moving later notes down by one,
    /// and returns `true`; changes nothing and returns `false` if the caller
    /// has no sequence or `index` is out of range.
    pub fn delete_note(&mut self, caller: &Principal, index: usize) -> (removed: bool)
        ensures
            removed <==> index < old(self)@.notes_of(caller@).len(),
            final(self)@ == old(self)@.delete(caller@, index as nat),
            removed ==> final(self)@.notes_of(caller@) == old(self)@.notes_of(caller@).remove(
                index as int,
            ),
            !removed ==> final(self)@ == old(self)@,
            forall|other: Seq<u8>|
                other != caller@ ==> #[trigger] final(self)@.notes_of(other) == old(self)@.notes_of(
                    other,
                ),
    {
        proof {
            use_type_invariant(&*self);
        }
        if let Some(at) = self.position(caller) {
            proof {
                lemma_entry_is_found(self.entries@, at as int);
            }
            if index < self.entries[at].notes.len() {
                let mut entries: Vec<Entry> = Vec::new();
                std::mem::swap(&mut entries, &mut self.entries);
                let ghost before = entries@;
                entries[at].notes.remove(index);
                proof {
                    lemma_model_after_rewrite(before, entries@, at as int);
                    assert(entries[at as int].notes.deep_view()
                        =~= before[at as int].notes.deep_view().remove(index as int));
                }
                self.entries = entries;
                return true;
            }
        }
        false
    }

    /// Replaces both fields of the note of `caller` at `index` and returns a
    /// copy of the new note; changes nothing and returns `None` if the caller
    /// has no sequence or `index` is out of range.
    pub fn edit_note(
        &mut self,
        caller: &Principal,
        index: usize,
        new_title: String,
        new_content: String,
    ) -> (edited: Option<Note>)
        ensures
            edited is Some <==> index < old(self)@.notes_of(caller@).len(),
            edited matches Some(note) ==> note@ == (NoteView {
                title: new_title@,
                content: new_content@,
            }),
            final(self)@ == old(self)@.edit(
                caller@,
                index as nat,
                NoteView { title: new_title@, content: new_content@ },
            ),
            edited is Some ==> final(self)@.notes_of(caller@) == old(self)@.notes_of(
                caller@,
            ).update(index as int, NoteView { title: new_title@, content: new_content@ }),
            edited is None ==> final(self)@ == old(self)@,
            forall|other: Seq<u8>|
                other != caller@ ==> #[trigger] final(self)@.notes_of(other) == old(self)@.notes_of(
                    other,
                ),
    {
        proof {
            use_type_invariant(&*self);
        }
        if let Some(at) = self.position(caller) {
            proof {
                lemma_entry_is_found(self.entries@, at as int);
            }
            if index < self.entries[at].notes.len() {
                let mut entries: Vec<Entry> = Vec::new();
                std::mem::swap(&mut entries, &mut self.entries);
                let ghost before = entries@;
                entries[at].notes[index].title = new_title;
                entries[at].notes[index].content = new_content;
                let edited = entries[at].notes[index].clone();
                proof {
                    lemma_model_after_rewrite(before, entries@, at as int);
                    assert(entries[at as int].notes.deep_view()
                        =~= before[at as int].notes.deep_view().update(index as int, edited@));
                }
                self.entries = entries;
                return Some(edited);
            }
        }
        None
    }
}

} // verus!
