//! Histories: what a store becomes, and what each caller sees, when calls from
//! many principals arrive one after another.

use vstd::prelude::*;
use crate::model::StoreModel;
use crate::note::NoteView;

verus! {

/// One of the five requests that a principal can make.
pub enum Request {
    Add { note: NoteView },
    List,
    Get { index: nat },
    Delete { index: nat },
    Edit { index: nat, note: NoteView },
}

/// What the store answers to a request.
pub enum Reply {
    Added(bool),
    Listed(Seq<NoteView>),
    Got(Option<NoteView>),
    Deleted(bool),
    Edited(Option<NoteView>),
}

/// A request together with the principal that makes it.
pub struct Call {
    pub caller: Seq<u8>,
    pub request: Request,
}

impl StoreModel {
    /// The store after one call.
    pub open spec fn step(self, call: Call) -> StoreModel {
        match call.request {
            Request::Add { note } => self.add(call.caller, note),
            Request::List => self,
            Request::Get { index } => self,
            Request::Delete { index } => self.delete(call.caller, index),
            Request::Edit { index, note } => self.edit(call.caller, index, note),
        }
    }

    /// The answer to one call.
    pub open spec fn reply(self, call: Call) -> Reply {
        match call.request {
            Request::Add { note } => Reply::Added(true),
            Request::List => Reply::Listed(self.notes_of(call.caller)),
            Request::Get { index } => Reply::Got(self.get(call.caller, index)),
            Request::Delete { index } => Reply::Deleted(self.in_range(call.caller, index)),
            Request::Edit { index, note } => Reply::Edited(
                if self.in_range(call.caller, index) {
                    Some(note)
                } else {
                    None
                },
            ),
        }
    }

    /// The store after a history of calls, served in order.
    pub open spec fn run(self, calls: Seq<Call>) -> StoreModel
        decreases calls.len(),
    {
        if calls.len() == 0 {
            self
        } else {
            self.run(calls.drop_last()).step(calls.last())
        }
    }
}

/// The requests that `caller` made in a history, in order.
pub open spec fn requests_of(calls: Seq<Call>, caller: Seq<u8>) -> Seq<Request>
    decreases calls.len(),
{
    if calls.len() == 0 {
        Seq::empty()
    } else if calls.last().caller == caller {
        requests_of(calls.drop_last(), caller).push(calls.last().request)
    } else {
        requests_of(calls.drop_last(), caller)
    }
}

/// What one request does to the list of the principal that makes it.
pub open spec fn apply(notes: Seq<NoteView>, request: Request) -> Seq<NoteView> {
    match request {
        Request::Add { note } => notes.push(note),
        Request::List => notes,
        Request::Get { index } => notes,
        Request::Delete { index } => if index < notes.len() {
            notes.remove(index as int)
        } else {
            notes
        },
        Request::Edit { index, note } => if index < notes.len() {
            notes.update(index as int, note)
        } else {
            notes
        },
    }
}

/// What a sequence of requests, all by one principal, does to its list.
pub open spec fn replay(notes: Seq<NoteView>, requests: Seq<Request>) -> Seq<NoteView>
    decreases requests.len(),
{
    if requests.len() == 0 {
        notes
    } else {
        apply(replay(notes, requests.drop_last()), requests.last())
    }
}

/// The number of notes that `caller` added in a history.
pub open spec fn additions_by(calls: Seq<Call>, caller: Seq<u8>) -> nat
    decreases calls.len(),
{
    if calls.len() == 0 {
        0
    } else {
        let earlier = additions_by(calls.drop_last(), caller);
        if calls.last().caller == caller && calls.last().request is Add {
            earlier + 1
        } else {
            earlier
        }
    }
}

/// The number of deletions by `caller` that removed a note, in a history
/// served from `store`.
pub open spec fn deletions_by(store: StoreModel, calls: Seq<Call>, caller: Seq<u8>) -> nat
    decreases calls.len(),
{
    if calls.len() == 0 {
        0
    } else {
        let earlier = deletions_by(store, calls.drop_last(), caller);
        if calls.last().caller == caller && store.run(calls.drop_last()).reply(calls.last())
            == Reply::Deleted(true) {
            earlier + 1
        } else {
            earlier
        }
    }
}

/// One call changes the caller's list as [`apply`] says and no other list.
pub proof fn lemma_step_touches_only_the_caller(store: StoreModel, call: Call, reader: Seq<u8>)
    ensures
        store.step(call).notes_of(reader) == if call.caller == reader {
            apply(store.notes_of(reader), call.request)
        } else {
            store.notes_of(reader)
        },
{
}

/// After any history, a principal's list is what its own requests alone make
/// of the list it started with.
pub proof fn lemma_list_depends_on_own_requests(
    store: StoreModel,
    calls: Seq<Call>,
    caller: Seq<u8>,
)
    ensures
        store.run(calls).notes_of(caller) == replay(
            store.notes_of(caller),
            requests_of(calls, caller),
        ),
    decreases calls.len(),
{
    if calls.len() > 0 {
        let earlier = calls.drop_last();
        lemma_list_depends_on_own_requests(store, earlier, caller);
        lemma_step_touches_only_the_caller(store.run(earlier), calls.last(), caller);
        if calls.last().caller == caller {
            let own = requests_of(earlier, caller);
            assert(own.push(calls.last().request).drop_last() =~= own);
        }
    }
}

/// Isolation. Take two stores in which `caller` has the same list, and two
/// histories in which `caller` makes the same requests in the same order,
/// interleaved in any way with any calls of other principals. Then `caller`
/// ends with the same list in both, and gets the same answer to any further
/// request.
pub proof fn lemma_isolation(
    one: StoreModel,
    other: StoreModel,
    one_calls: Seq<Call>,
    other_calls: Seq<Call>,
    caller: Seq<u8>,
    next: Request,
)
    requires
        one.notes_of(caller) == other.notes_of(caller),
        requests_of(one_calls, caller) == requests_of(other_calls, caller),
    ensures
        one.run(one_calls).notes_of(caller) == other.run(other_calls).notes_of(caller),
        one.run(one_calls).reply(Call { caller, request: next }) == other.run(other_calls).reply(
            Call { caller, request: next },
        ),
{
    lemma_list_depends_on_own_requests(one, one_calls, caller);
    lemma_list_depends_on_own_requests(other, other_calls, caller);
}

/// Length accounting. After any history, the length of a principal's list is
/// the length it started with, plus the notes it added, minus the deletions it
/// made that removed a note.
pub proof fn lemma_length_counts_additions_and_deletions(
    store: StoreModel,
    calls: Seq<Call>,
    caller: Seq<u8>,
)
    ensures
        store.run(calls).notes_of(caller).len() + deletions_by(store, calls, caller)
            == store.notes_of(caller).len() + additions_by(calls, caller),
    decreases calls.len(),
{
    if calls.len() > 0 {
        let earlier = calls.drop_last();
        lemma_length_counts_additions_and_deletions(store, earlier, caller);
        lemma_step_touches_only_the_caller(store.run(earlier), calls.last(), caller);
    }
}

/// Starting from the empty store, a principal never removes more notes than it
/// added, and its list has as many notes as it added minus those it removed.
pub proof fn lemma_length_from_empty(calls: Seq<Call>, caller: Seq<u8>)
    ensures
        additions_by(calls, caller) >= deletions_by(StoreModel::empty(), calls, caller),
        StoreModel::empty().run(calls).notes_of(caller).len() == additions_by(calls, caller)
            - deletions_by(StoreModel::empty(), calls, caller),
{
    lemma_length_counts_additions_and_deletions(StoreModel::empty(), calls, caller);
}

} // verus!
