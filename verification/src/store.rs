//! The snippet store: an ordered collection of snippets with distinct ids.

use vstd::prelude::*;

verus! {

/// A stored piece of text, with the id it was given when it was captured and
/// the nickname the user may have attached to it.
pub struct ClipboardEntry {
    pub uuid: String,
    pub content: String,
    pub nickname: Option<String>,
}

/// What a `ClipboardEntry` holds, as plain text.
pub struct EntryView {
    pub uuid: Seq<char>,
    pub content: Seq<char>,
    pub nickname: Option<Seq<char>>,
}

/// The characters of an optional string.
pub open spec fn text_of(text: Option<String>) -> Option<Seq<char>> {
    match text {
        Some(t) => Some(t@),
        None => None,
    }
}

impl View for ClipboardEntry {
    type V = EntryView;

    open spec fn view(&self) -> EntryView {
        EntryView { uuid: self.uuid@, content: self.content@, nickname: text_of(self.nickname) }
    }
}

impl Clone for ClipboardEntry {
    /// A copy that holds the same id, content and nickname.
    fn clone(&self) -> (copy: Self)
        ensures
            copy@ == self@,
    {
        let nickname = match &self.nickname {
            Some(text) => Some(text.clone()),
            None => None,
        };
        ClipboardEntry { uuid: self.uuid.clone(), content: self.content.clone(), nickname }
    }
}

/// The views of a run of entries, in order.
pub open spec fn views_of(entries: Seq<ClipboardEntry>) -> Seq<EntryView> {
    entries.map_values(|e: ClipboardEntry| e@)
}

/// No two entries carry the same id.
pub open spec fn ids_distinct(entries: Seq<EntryView>) -> bool {
    forall|i: int, j: int|
        0 <= i < j < entries.len() ==> (#[trigger] entries[i]).uuid != (#[trigger] entries[j]).uuid
}

/// Some entry carries the id `uuid`.
pub open spec fn has_id(entries: Seq<EntryView>, uuid: Seq<char>) -> bool {
    exists|i: int| 0 <= i < entries.len() && (#[trigger] entries[i]).uuid == uuid
}

/// How many characters a drawn id has.
pub const DRAWN_ID_CHARS: usize = 36;

/// Some entry carries an id that has the length of a drawn one. Only in
/// such a store can a freshly drawn id be in use already.
pub open spec fn holds_drawn_id(entries: Seq<EntryView>) -> bool {
    exists|id: Seq<char>| id.len() == DRAWN_ID_CHARS && #[trigger] has_id(entries, id)
}

/// Why a store operation failed.
#[derive(Debug, Clone, Copy, PartialEq, Eq, Structural)]
pub enum StoreError {
    /// Durable storage could not be read as a store, or could not be
    /// written.
    Storage,
    /// The position is not that of an entry.
    IndexOutOfRange,
    /// The id is already in use by another entry.
    DuplicateId,
}

/// What reading the durable file gave.
pub enum Durable {
    /// There is no file yet.
    Absent,
    /// There is a file, and it cannot be read as a list of entries.
    Corrupt,
    /// The entries that the file holds, in its order.
    Entries(Vec<ClipboardEntry>),
}

/// The store that durable storage stands for, if it stands for one: no file
/// is the empty store; a file that cannot be read, or that holds an id
/// twice, is no store.
pub open spec fn loaded(found: Durable) -> Option<Seq<EntryView>> {
    match found {
        Durable::Absent => Some(Seq::empty()),
        Durable::Corrupt => None,
        Durable::Entries(entries) => if ids_distinct(views_of(entries@)) {
            Some(views_of(entries@))
        } else {
            None
        },
    }
}

/// Draws a random id: calls `uuid::Uuid::new_v4` and formats the result with
/// `to_string`, which writes the hyphenated form, 36 characters long. Which
/// id comes back is left open, and nothing here is proved. `new_v4` panics
/// where the operating system hands out no random bytes.
#[verifier::external_body]
pub(crate) fn fresh_uuid() -> (id: String)
    ensures
        id@.len() == DRAWN_ID_CHARS,
{
    uuid::Uuid::new_v4().to_string()
}

/// Whether no two of `entries` carry the same id.
fn all_ids_distinct(entries: &Vec<ClipboardEntry>) -> (distinct: bool)
    ensures
        distinct == ids_distinct(views_of(entries@)),
{
    let ghost views = views_of(entries@);
    let mut j: usize = 0;
    while j < entries.len()
        invariant
            j <= entries.len(),
            views == views_of(entries@),
            ids_distinct(views.take(j as int)),
        decreases entries.len() - j,
    {
        let mut i: usize = 0;
        while i < j
            invariant
                i <= j < entries.len(),
                views == views_of(entries@),
                forall|k: int| 0 <= k < i ==> (#[trigger] views[k]).uuid != views[j as int].uuid,
            decreases j - i,
        {
            if entries[i].uuid == entries[j].uuid {
                assert(views[i as int].uuid == views[j as int].uuid);
                return false;
            }
            i += 1;
        }
        proof {
            let grown = views.take(j + 1);
            assert forall|a: int, b: int| 0 <= a < b < grown.len() implies (#[trigger] grown[a]).uuid
                != (#[trigger] grown[b]).uuid by {
                if b < j {
                    assert(views.take(j as int)[a] == views[a]);
                    assert(views.take(j as int)[b] == views[b]);
                }
            }
        }
        j += 1;
    }
    assert(views.take(j as int) =~= views);
    true
}

/// The ordered collection of snippets. Insertion order is kept.
pub struct ClipboardStorage {
    entries: Vec<ClipboardEntry>,
}

impl View for ClipboardStorage {
    type V = Seq<EntryView>;

    closed spec fn view(&self) -> Seq<EntryView> {
        views_of(self.entries@)
    }
}

impl Clone for ClipboardStorage {
    /// A store of its own that holds copies of the same entries in the same
    /// order.
    fn clone(&self) -> (copy: Self)
        ensures
            copy@ == self@,
    {
        let mut entries: Vec<ClipboardEntry> = Vec::new();
        let mut i: usize = 0;
        while i < self.entries.len()
            invariant
                i <= self.entries.len(),
                views_of(entries@) == self@.take(i as int),
            decreases self.entries.len() - i,
        {
            let ghost before = views_of(entries@);
            entries.push(self.entries[i].clone());
            assert(views_of(entries@) =~= before.push(self@[i as int]));
            assert(self@.take(i + 1) =~= self@.take(i as int).push(self@[i as int]));
            i += 1;
        }
        assert(self@.take(i as int) =~= self@);
        ClipboardStorage { entries }
    }
}

impl Default for ClipboardStorage {
    /// The empty store.
    fn default() -> (store: Self)
        ensures
            store@ == Seq::<EntryView>::empty(),
            store.wf(),
    {
        ClipboardStorage::new()
    }
}

impl ClipboardStorage {
    /// The store's invariant: ids are pairwise distinct.
    pub open spec fn wf(&self) -> bool {
        ids_distinct(self@)
    }

    /// The empty store.
    pub fn new() -> (store: Self)
        ensures
            store@ == Seq::<EntryView>::empty(),
            store.wf(),
    {
        let store = ClipboardStorage { entries: Vec::new() };
        assert(store@ =~= Seq::<EntryView>::empty());
        store
    }

    /// The store that holds `entries`, in their order. Refused with
    /// `DuplicateId` exactly when two of them carry the same id.
    pub fn from_entries(entries: Vec<ClipboardEntry>) -> (made: Result<Self, StoreError>)
        ensures
            match made {
                Ok(store) => store.wf() && store@ == views_of(entries@),
                Err(e) => e == StoreError::DuplicateId && !ids_distinct(views_of(entries@)),
            },
    {
        if all_ids_distinct(&entries) {
            Ok(ClipboardStorage { entries })
        } else {
            Err(StoreError::DuplicateId)
        }
    }

    /// The store as durable storage holds it. A missing file gives the empty
    /// store. A file that is there and is no valid store fails with
    /// `Storage`, so that what it holds is never taken for empty.
    pub fn load(found: Durable) -> (store: Result<Self, StoreError>)
        ensures
            match store {
                Ok(store) => store.wf() && loaded(found) == Some(store@),
                Err(e) => e == StoreError::Storage && loaded(found) is None,
            },
    {
        match found {
            Durable::Absent => Ok(ClipboardStorage::new()),
            Durable::Corrupt => Err(StoreError::Storage),
            Durable::Entries(entries) => match ClipboardStorage::from_entries(entries) {
                Ok(store) => Ok(store),
                Err(_) => Err(StoreError::Storage),
            },
        }
    }

    /// The number of entries.
    pub fn len(&self) -> (n: usize)
        ensures
            n == self@.len(),
    {
        self.entries.len()
    }

    /// The entries, in insertion order.
    pub fn get_entries(&self) -> (entries: &[ClipboardEntry])
        ensures
            views_of(entries@) == self@,
    {
        self.entries.as_slice()
    }

    /// Whether some entry carries the id `uuid`.
    pub fn contains_id(&self, uuid: &str) -> (found: bool)
        ensures
            found == has_id(self@, uuid@),
    {
        let wanted = uuid.to_owned();
        let mut i: usize = 0;
        while i < self.entries.len()
            invariant
                i <= self.entries.len(),
                wanted@ == uuid@,
                forall|k: int| 0 <= k < i ==> (#[trigger] self@[k]).uuid != uuid@,
            decreases self.entries.len() - i,
        {
            if self.entries[i].uuid == wanted {
                assert(self@[i as int].uuid == uuid@);
                return true;
            }
            i += 1;
        }
        false
    }

    /// Appends an entry that carries the given id. Refused with `DuplicateId`,
    /// the store unchanged, exactly when the id is already in use.
    pub fn insert_entry(&mut self, uuid: String, content: String, nickname: Option<String>) -> (done:
        Result<(), StoreError>)
        requires
            old(self).wf(),
        ensures
            final(self).wf(),
            match done {
                Ok(()) => !has_id(old(self)@, uuid@) && final(self)@ == old(self)@.push(
                    (EntryView { uuid: uuid@, content: content@, nickname: text_of(nickname) }),
                ),
                Err(e) => e == StoreError::DuplicateId && has_id(old(self)@, uuid@) && final(self)@
                    == old(self)@,
            },
    {
        if self.contains_id(uuid.as_str()) {
            return Err(StoreError::DuplicateId);
        }
        let ghost before = self@;
        let ghost added = EntryView { uuid: uuid@, content: content@, nickname: text_of(nickname) };
        self.entries.push(ClipboardEntry { uuid, content, nickname });
        proof {
            assert(self@ =~= before.push(added));
            lemma_push_keeps_ids_distinct(before, added);
        }
        Ok(())
    }

    /// Appends a new entry under a freshly drawn random id and returns that
    /// id. The append is refused only when the drawn id is already in use:
    /// then the store is left unchanged and `DuplicateId` is returned. So a
    /// store in which no entry carries an id of the drawn form, the empty
    /// store among them, always takes the entry.
    pub fn add_entry(&mut self, content: String, nickname: Option<String>) -> (added: Result<
        String,
        StoreError,
    >)
        requires
            old(self).wf(),
        ensures
            final(self).wf(),
            match added {
                Ok(id) => id@.len() == DRAWN_ID_CHARS && !has_id(old(self)@, id@) && final(self)@
                    == old(self)@.push(
                    (EntryView { uuid: id@, content: content@, nickname: text_of(nickname) }),
                ),
                Err(e) => e == StoreError::DuplicateId && final(self)@ == old(self)@
                    && holds_drawn_id(old(self)@),
            },
            !holds_drawn_id(old(self)@) ==> added is Ok,
    {
        let id = fresh_uuid();
        let ghost drawn = id@;
        match self.insert_entry(id.clone(), content, nickname) {
            Ok(()) => Ok(id),
            Err(e) => {
                assert(drawn.len() == DRAWN_ID_CHARS && has_id(old(self)@, drawn));
                Err(e)
            },
        }
    }

    /// Takes out the entry at `index` and returns it; the entries behind it
    /// move up by one. Refused with `IndexOutOfRange`, the store unchanged,
    /// exactly when `index` is not the position of an entry.
    pub fn remove_entry(&mut self, index: usize) -> (removed: Result<ClipboardEntry, StoreError>)
        requires
            old(self).wf(),
        ensures
            final(self).wf(),
            match removed {
                Ok(entry) => index < old(self)@.len() && entry@ == old(self)@[index as int]
                    && final(self)@ == old(self)@.remove(index as int),
                Err(e) => e == StoreError::IndexOutOfRange && index >= old(self)@.len()
                    && final(self)@ == old(self)@,
            },
    {
        if index >= self.entries.len() {
            return Err(StoreError::IndexOutOfRange);
        }
        let ghost before = self@;
        let entry = self.entries.remove(index);
        proof {
            assert(self@ =~= before.remove(index as int));
            lemma_remove_keeps_ids_distinct(before, index as int);
        }
        Ok(entry)
    }
}

/// The empty store holds no id at all, so none of the drawn form.
pub proof fn lemma_empty_store_holds_no_drawn_id()
    ensures
        !holds_drawn_id(Seq::<EntryView>::empty()),
{
}

/// Appending an entry under an unused id keeps the ids distinct.
pub proof fn lemma_push_keeps_ids_distinct(entries: Seq<EntryView>, added: EntryView)
    requires
        ids_distinct(entries),
        !has_id(entries, added.uuid),
    ensures
        ids_distinct(entries.push(added)),
{
    let grown = entries.push(added);
    assert forall|i: int, j: int| 0 <= i < j < grown.len() implies (#[trigger] grown[i]).uuid != (
    #[trigger] grown[j]).uuid by {
        assert(grown[i] == entries[i]);
        if j < entries.len() {
            assert(grown[j] == entries[j]);
        }
    }
}

/// Removing an entry keeps the ids distinct, and frees the id it carried.
pub proof fn lemma_remove_keeps_ids_distinct(entries: Seq<EntryView>, index: int)
    requires
        ids_distinct(entries),
        0 <= index < entries.len(),
    ensures
        ids_distinct(entries.remove(index)),
        !has_id(entries.remove(index), entries[index].uuid),
{
    let rest = entries.remove(index);
    assert forall|i: int, j: int| 0 <= i < j < rest.len() implies (#[trigger] rest[i]).uuid != (
    #[trigger] rest[j]).uuid by {
        let from_i = if i < index { i } else { i + 1 };
        let from_j = if j < index { j } else { j + 1 };
        assert(rest[i] == entries[from_i]);
        assert(rest[j] == entries[from_j]);
    }
    assert forall|i: int| 0 <= i < rest.len() implies (#[trigger] rest[i]).uuid
        != entries[index].uuid by {
        let from_i = if i < index { i } else { i + 1 };
        assert(rest[i] == entries[from_i]);
    }
}

} // verus!
