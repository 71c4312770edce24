//! The mathematical model of the store: a map from a principal's bytes to that
//! principal's sequence of notes, with the write operations as functions on it.

use vstd::prelude::*;
use crate::note::NoteView;

verus! {

/// The abstract state of a note store.
///
/// A principal with no entry has never added a note. A principal whose entry is
/// the empty sequence has deleted every note it added. No read tells the two
/// apart: see [`StoreModel::notes_of`].
#[verifier::ext_equal]
pub struct StoreModel {
    pub sequences: Map<Seq<u8>, Seq<NoteView>>,
}

impl StoreModel {
    /// The store in which no principal has a sequence.
    pub open spec fn empty() -> StoreModel {
        StoreModel { sequences: Map::empty() }
    }

    /// The notes of `caller` in insertion order; empty if `caller` has no
    /// sequence.
    pub open spec fn notes_of(self, caller: Seq<u8>) -> Seq<NoteView> {
        if self.sequences.contains_key(caller) {
            self.sequences[caller]
        } else {
            Seq::empty()
        }
    }

    /// Whether `index` names a note of `caller`: the caller has a sequence and
    /// the index lies below its length.
    pub open spec fn in_range(self, caller: Seq<u8>, index: nat) -> bool {
        self.sequences.contains_key(caller) && index < self.sequences[caller].len()
    }

    /// The note of `caller` at `index`, if there is one.
    pub open spec fn get(self, caller: Seq<u8>, index: nat) -> Option<NoteView> {
        if self.in_range(caller, index) {
            Some(self.sequences[caller][index as int])
        } else {
            None
        }
    }

    /// The store after `caller` appends `note`. A caller without a sequence
    /// gets one.
    pub open spec fn add(self, caller: Seq<u8>, note: NoteView) -> StoreModel {
        StoreModel { sequences: self.sequences.insert(caller, self.notes_of(caller).push(note)) }
    }

    /// The store after `caller` deletes the note at `index`: later notes move
    /// down by one. Unchanged if `index` is not in range.
    pub open spec fn delete(self, caller: Seq<u8>, index: nat) -> StoreModel {
        if self.in_range(caller, index) {
            StoreModel {
                sequences: self.sequences.insert(
                    caller,
                    self.sequences[caller].remove(index as int),
                ),
            }
        } else {
            self
        }
    }

    /// The store after `caller` replaces the note at `index` by `note`.
    /// Unchanged if `index` is not in range.
    pub open spec fn edit(self, caller: Seq<u8>, index: nat, note: NoteView) -> StoreModel {
        if self.in_range(caller, index) {
            StoreModel {
                sequences: self.sequences.insert(
                    caller,
                    self.sequences[caller].update(index as int, note),
                ),
            }
        } else {
            self
        }
    }
}

/// An index is in range exactly when it lies below the length of the caller's
/// list, whether or not the caller has a sequence.
pub proof fn lemma_in_range_is_below_length(store: StoreModel, caller: Seq<u8>, index: nat)
    ensures
        store.in_range(caller, index) <==> index < store.notes_of(caller).len(),
{
}

/// After an append, the caller's list ends in the new note and its prefix is
/// the list before the append.
pub proof fn lemma_add_appends_at_end(store: StoreModel, caller: Seq<u8>, note: NoteView)
    ensures
        store.add(caller, note).notes_of(caller) == store.notes_of(caller).push(note),
        store.add(caller, note).notes_of(caller).len() == store.notes_of(caller).len() + 1,
        store.add(caller, note).notes_of(caller).last() == note,
        store.add(caller, note).notes_of(caller).drop_last() == store.notes_of(caller),
{
    let before = store.notes_of(caller);
    assert(before.push(note).drop_last() =~= before);
}

/// Fetching by position agrees with the list: an index below the length of the
/// list yields the element of the list at that index, any other index yields
/// nothing.
pub proof fn lemma_get_agrees_with_list(store: StoreModel, caller: Seq<u8>, index: nat)
    ensures
        index < store.notes_of(caller).len() ==> store.get(caller, index) == Some(
            store.notes_of(caller)[index as int],
        ),
        index >= store.notes_of(caller).len() ==> store.get(caller, index) is None,
{
}

/// An edit in range keeps the length of the list, puts the new note at the
/// edited position and leaves every other position as it was.
pub proof fn lemma_edit_replaces_one_note(
    store: StoreModel,
    caller: Seq<u8>,
    index: nat,
    note: NoteView,
)
    requires
        index < store.notes_of(caller).len(),
    ensures
        store.edit(caller, index, note).notes_of(caller) == store.notes_of(caller).update(
            index as int,
            note,
        ),
        store.edit(caller, index, note).notes_of(caller).len() == store.notes_of(caller).len(),
        store.edit(caller, index, note).notes_of(caller)[index as int] == note,
        forall|other: int|
            0 <= other < store.notes_of(caller).len() && other != index ==> store.edit(
                caller,
                index,
                note,
            ).notes_of(caller)[other] == store.notes_of(caller)[other],
{
}

/// A deletion in range yields the list without the deleted position: one note
/// fewer, the notes below the index in place, the notes above it moved down by
/// one.
pub proof fn lemma_delete_shifts_down(store: StoreModel, caller: Seq<u8>, index: nat)
    requires
        index < store.notes_of(caller).len(),
    ensures
        store.delete(caller, index).notes_of(caller) == store.notes_of(caller).remove(
            index as int,
        ),
        store.delete(caller, index).notes_of(caller).len() == store.notes_of(caller).len() - 1,
        forall|below: int|
            0 <= below < index ==> store.delete(caller, index).notes_of(caller)[below]
                == store.notes_of(caller)[below],
        forall|above: int|
            index <= above < store.notes_of(caller).len() - 1 ==> store.delete(
                caller,
                index,
            ).notes_of(caller)[above] == store.notes_of(caller)[above + 1],
{
}

/// A deletion or an edit at an index that is not in range changes nothing, and
/// nothing is found at that index.
pub proof fn lemma_out_of_range_changes_nothing(
    store: StoreModel,
    caller: Seq<u8>,
    index: nat,
    note: NoteView,
)
    requires
        index >= store.notes_of(caller).len(),
    ensures
        !store.in_range(caller, index),
        store.delete(caller, index) == store,
        store.edit(caller, index, note) == store,
        store.get(caller, index) is None,
{
}

/// A note that was just appended is found at the index that was the length of
/// the list before the append.
pub proof fn lemma_add_then_get(store: StoreModel, caller: Seq<u8>, note: NoteView)
    ensures
        store.add(caller, note).get(caller, store.notes_of(caller).len()) == Some(note),
{
}

/// A note that was just edited in range is found at the edited index.
pub proof fn lemma_edit_then_get(store: StoreModel, caller: Seq<u8>, index: nat, note: NoteView)
    requires
        index < store.notes_of(caller).len(),
    ensures
        store.edit(caller, index, note).get(caller, index) == Some(note),
{
}

/// No write by one principal changes the list, or any fetch, of another.
pub proof fn lemma_writes_are_private(store: StoreModel, writer: Seq<u8>, reader: Seq<u8>)
    requires
        writer != reader,
    ensures
        forall|note: NoteView| #[trigger]
            store.add(writer, note).notes_of(reader) == store.notes_of(reader),
        forall|index: nat| #[trigger]
            store.delete(writer, index).notes_of(reader) == store.notes_of(reader),
        forall|index: nat, note: NoteView| #[trigger]
            store.edit(writer, index, note).notes_of(reader) == store.notes_of(reader),
        forall|note: NoteView, at: nat| #[trigger]
            store.add(writer, note).get(reader, at) == store.get(reader, at),
        forall|index: nat, at: nat| #[trigger]
            store.delete(writer, index).get(reader, at) == store.get(reader, at),
        forall|index: nat, note: NoteView, at: nat| #[trigger]
            store.edit(writer, index, note).get(reader, at) == store.get(reader, at),
{
}

} // verus!
