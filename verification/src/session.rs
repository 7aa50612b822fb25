//! The interaction state machine: the query buffer and its edit cursor, the
//! filtered view and the selection cursor on it, the two modes, and the
//! outcome that ends a session.
//!
//! The machine never touches durable storage. When an event changes the
//! store it stages the store as it would become and answers
//! `Action::Persist`; the driver writes the staged store and reports with
//! `settle` whether the write succeeded. Only then is the change taken over,
//! or dropped.

use crate::filter::{as_positions, filtered_view, lemma_filtered_view_is_ranked, refilter};
use crate::store::{
    fresh_uuid, has_id, ids_distinct, lemma_push_keeps_ids_distinct,
    lemma_remove_keeps_ids_distinct, text_of, views_of, ClipboardEntry, ClipboardStorage,
    EntryView, StoreError, DRAWN_ID_CHARS,
};
use crate::text::{insert_char, remove_char};
use vstd::prelude::*;
use vstd::string::StrSliceExecFns;

verus! {

/// How many rows of the filtered view one page shows.
pub const PAGE_SIZE: usize = 5;

/// What the session is for.
pub enum Mode {
    /// Browsing the stored snippets to pick one.
    Idle,
    /// Typing a nickname for the captured text, which is held here until it
    /// is stored.
    Capturing(String),
}

/// An input event, as the driver hands it to the machine.
#[derive(Clone, Copy, Debug, PartialEq, Eq)]
pub enum Event {
    Cancel,
    Insert(char),
    Backspace,
    CursorLeft,
    CursorRight,
    SelectUp,
    SelectDown,
    RemoveSelected,
    Confirm,
}

/// How a session ended.
pub enum Outcome {
    /// Given up; nothing is handed back.
    Cancelled,
    /// The captured text was stored as a new snippet.
    Captured,
    /// The content of the chosen snippet, to be handed back to the caller.
    Pasted(String),
}

/// An `Outcome`, with its text as plain characters.
pub enum OutcomeView {
    Cancelled,
    Captured,
    Pasted(Seq<char>),
}

impl View for Outcome {
    type V = OutcomeView;

    open spec fn view(&self) -> OutcomeView {
        match self {
            Outcome::Cancelled => OutcomeView::Cancelled,
            Outcome::Captured => OutcomeView::Captured,
            Outcome::Pasted(content) => OutcomeView::Pasted(content@),
        }
    }
}

/// What the driver owes the machine after an event.
#[derive(Clone, Copy, Debug, PartialEq, Eq)]
pub enum Action {
    /// Nothing: go on with the next event.
    Continue,
    /// Write the staged store to durable storage, then call `settle`.
    Persist,
}

/// The state of a session as plain values.
pub struct SessionView {
    /// The entries of the store, as last written.
    pub store: Seq<EntryView>,
    /// The entries as they will be once the pending write succeeds.
    pub staged: Option<Seq<EntryView>>,
    /// The text typed so far.
    pub query: Seq<char>,
    /// Where in `query` the next character goes.
    pub edit_cursor: int,
    /// Which row of `filtered` is selected.
    pub selection: int,
    /// The store positions on offer, in display order.
    pub filtered: Seq<int>,
    /// The captured text, in capturing mode.
    pub capture: Option<Seq<char>>,
    /// Whether `filtered` may be out of date.
    pub dirty: bool,
    /// How the session ended, once it has.
    pub outcome: Option<OutcomeView>,
}

/// The selection cursor brought back into a view of `count` rows.
pub open spec fn clamped(selection: int, count: int) -> int {
    if count <= 0 {
        0
    } else if selection < count {
        selection
    } else {
        count - 1
    }
}

/// The selection cursor after a move up in a view of `count` rows.
pub open spec fn moved_up(selection: int, count: int) -> int {
    if count <= 0 {
        selection
    } else if selection <= 0 {
        count - 1
    } else {
        selection - 1
    }
}

/// The selection cursor after a move down in a view of `count` rows.
pub open spec fn moved_down(selection: int, count: int) -> int {
    if count <= 0 {
        selection
    } else if selection < count - 1 {
        selection + 1
    } else {
        0
    }
}

/// The first row of the page that holds row `selection`.
pub open spec fn page_start(selection: int) -> int {
    (selection / PAGE_SIZE as int) * PAGE_SIZE as int
}

/// One past the last row of that page in a view of `count` rows.
pub open spec fn page_end(selection: int, count: int) -> int {
    if page_start(selection) + PAGE_SIZE < count {
        page_start(selection) + PAGE_SIZE
    } else {
        count
    }
}

/// The state's invariant.
pub open spec fn valid(s: SessionView) -> bool {
    &&& ids_distinct(s.store)
    &&& s.staged matches Some(next) ==> ids_distinct(next)
    &&& 0 <= s.edit_cursor <= s.query.len()
    &&& 0 <= s.selection
    &&& !s.dirty ==> s.filtered == filtered_view(s.store, s.query) && s.selection == clamped(
        s.selection,
        s.filtered.len() as int,
    )
}

/// The state a session starts from, before its first recomputation.
pub open spec fn starting(store: Seq<EntryView>, capture: Option<Seq<char>>) -> SessionView {
    SessionView {
        store,
        staged: None,
        query: Seq::empty(),
        edit_cursor: 0,
        selection: 0,
        filtered: Seq::empty(),
        capture,
        dirty: true,
        outcome: None,
    }
}

/// The state with its filtered view brought up to date: a stale view is
/// computed anew and the selection cursor clamped to it.
pub open spec fn refreshed(s: SessionView) -> SessionView {
    if s.dirty {
        let view = filtered_view(s.store, s.query);
        SessionView {
            filtered: view,
            selection: clamped(s.selection, view.len() as int),
            dirty: false,
            ..s
        }
    } else {
        s
    }
}

/// Whether the machine takes events: it has not ended and no write is
/// pending.
pub open spec fn listening(s: SessionView) -> bool {
    s.outcome is None && s.staged is None
}

/// Whether the event looks at the filtered view.
pub open spec fn reads_view(event: Event) -> bool {
    event is SelectUp || event is SelectDown || event is RemoveSelected || event is Confirm
}

/// Whether the event needs a fresh id: a confirmation in capturing mode.
pub open spec fn draws_id(s: SessionView, event: Event) -> bool {
    listening(s) && event is Confirm && s.capture is Some
}

/// The effect of one event on a state that takes events and whose view is
/// up to date where the event reads it. `id` is the id for a new snippet.
pub open spec fn react(s: SessionView, event: Event, id: Seq<char>) -> SessionView {
    match event {
        Event::Cancel => SessionView { outcome: Some(OutcomeView::Cancelled), ..s },
        Event::Insert(ch) => if s.query.len() < usize::MAX {
            SessionView {
                query: s.query.insert(s.edit_cursor, ch),
                edit_cursor: s.edit_cursor + 1,
                dirty: true,
                ..s
            }
        } else {
            s
        },
        Event::Backspace => if s.edit_cursor > 0 {
            SessionView {
                query: s.query.remove(s.edit_cursor - 1),
                edit_cursor: s.edit_cursor - 1,
                dirty: true,
                ..s
            }
        } else {
            s
        },
        Event::CursorLeft => if s.edit_cursor > 0 {
            SessionView { edit_cursor: s.edit_cursor - 1, ..s }
        } else {
            s
        },
        Event::CursorRight => if s.edit_cursor < s.query.len() {
            SessionView { edit_cursor: s.edit_cursor + 1, ..s }
        } else {
            s
        },
        Event::SelectUp => if s.capture is None {
            SessionView { selection: moved_up(s.selection, s.filtered.len() as int), ..s }
        } else {
            s
        },
        Event::SelectDown => if s.capture is None {
            SessionView { selection: moved_down(s.selection, s.filtered.len() as int), ..s }
        } else {
            s
        },
        Event::RemoveSelected => if s.capture is None && s.filtered.len() > 0 {
            SessionView { staged: Some(s.store.remove(s.filtered[s.selection])), ..s }
        } else {
            s
        },
        Event::Confirm => match s.capture {
            Some(content) => if has_id(s.store, id) {
                s
            } else {
                SessionView {
                    staged: Some(
                        s.store.push(EntryView { uuid: id, content, nickname: Some(s.query) }),
                    ),
                    ..s
                }
            },
            None => if s.filtered.len() > 0 {
                SessionView {
                    outcome: Some(OutcomeView::Pasted(s.store[s.filtered[s.selection]].content)),
                    ..s
                }
            } else {
                s
            },
        },
    }
}

/// What the machine answers to the event in that state.
pub open spec fn answer(s: SessionView, event: Event, id: Seq<char>) -> Result<Action, StoreError> {
    match event {
        Event::RemoveSelected => if s.capture is None && s.filtered.len() > 0 {
            Ok(Action::Persist)
        } else {
            Ok(Action::Continue)
        },
        Event::Confirm => if s.capture is Some {
            if has_id(s.store, id) {
                Err(StoreError::DuplicateId)
            } else {
                Ok(Action::Persist)
            }
        } else {
            Ok(Action::Continue)
        },
        _ => Ok(Action::Continue),
    }
}

/// The state in which the event is looked at: brought up to date first
/// where the event reads the filtered view.
pub open spec fn prepared(s: SessionView, event: Event) -> SessionView {
    if reads_view(event) {
        refreshed(s)
    } else {
        s
    }
}

/// The state after one event. A session that has ended, or that waits for a
/// write to be settled, ignores events.
pub open spec fn step(s: SessionView, event: Event, id: Seq<char>) -> SessionView {
    if listening(s) {
        react(prepared(s, event), event, id)
    } else {
        s
    }
}

/// The answer to one event.
pub open spec fn step_answer(s: SessionView, event: Event, id: Seq<char>) -> Result<
    Action,
    StoreError,
> {
    if listening(s) {
        answer(prepared(s, event), event, id)
    } else {
        Ok(Action::Continue)
    }
}

/// The state after the driver reported on the pending write: a staged store
/// that was written replaces the store, the view goes stale, and a capturing
/// session ends as `Captured`; one that was not written is dropped, which
/// leaves the state as it was before the event that staged it.
pub open spec fn settled(s: SessionView, written: bool) -> SessionView {
    match s.staged {
        Some(next) => if written {
            SessionView {
                store: next,
                staged: None,
                dirty: true,
                outcome: if s.capture is Some {
                    Some(OutcomeView::Captured)
                } else {
                    s.outcome
                },
                ..s
            }
        } else {
            SessionView { staged: None, ..s }
        },
        None => s,
    }
}

/// What the machine answers to the report: a staged store that could not be
/// written is a failure of storage.
pub open spec fn settle_answer(s: SessionView, written: bool) -> Result<(), StoreError> {
    if s.staged is Some && !written {
        Err(StoreError::Storage)
    } else {
        Ok(())
    }
}

/// The rows of the page that holds the selected row: each with the entry it
/// shows and whether it is the selected one.
pub open spec fn visible_rows(s: SessionView) -> Seq<(EntryView, bool)> {
    let start = page_start(s.selection);
    let end = page_end(s.selection, s.filtered.len() as int);
    Seq::new(
        if start < end {
            (end - start) as nat
        } else {
            0
        },
        |k: int| (s.store[s.filtered[start + k]], start + k == s.selection),
    )
}

/// Rows as `visible_page` hands them out, read as plain values.
pub open spec fn rows_of(page: Seq<(&ClipboardEntry, bool)>) -> Seq<(EntryView, bool)> {
    page.map_values(|row: (&ClipboardEntry, bool)| (row.0@, row.1))
}

/// Every event keeps the invariant.
pub proof fn lemma_step_keeps_valid(s: SessionView, event: Event, id: Seq<char>)
    requires
        valid(s),
    ensures
        valid(step(s, event, id)),
{
    if listening(s) {
        let p = prepared(s, event);
        lemma_filtered_view_is_ranked(p.store, p.query);
        match event {
            Event::RemoveSelected => {
                if p.capture is None && p.filtered.len() > 0 {
                    lemma_remove_keeps_ids_distinct(p.store, p.filtered[p.selection]);
                }
            },
            Event::Confirm => {
                if p.capture is Some && !has_id(p.store, id) {
                    lemma_push_keeps_ids_distinct(
                        p.store,
                        EntryView { uuid: id, content: p.capture->0, nickname: Some(p.query) },
                    );
                }
            },
            _ => {},
        }
    }
}

/// Every report on a write keeps the invariant.
pub proof fn lemma_settle_keeps_valid(s: SessionView, written: bool)
    requires
        valid(s),
    ensures
        valid(settled(s, written)),
{
}

/// A session that has ended stays as it is, whatever event comes.
pub proof fn lemma_ended_session_ignores_events(s: SessionView, event: Event, id: Seq<char>)
    requires
        s.outcome is Some,
    ensures
        step(s, event, id) == s,
        step_answer(s, event, id) == Ok::<Action, StoreError>(Action::Continue),
{
}

/// Only a confirmation in capturing mode looks at the id.
pub proof fn lemma_step_ignores_unused_id(
    s: SessionView,
    event: Event,
    one: Seq<char>,
    other: Seq<char>,
)
    requires
        !draws_id(s, event),
    ensures
        step(s, event, one) == step(s, event, other),
        step_answer(s, event, one) == step_answer(s, event, other),
{
}

/// A write that failed undoes the event that asked for it: the state is the
/// one in which the event was looked at.
pub proof fn lemma_failed_write_undoes_event(s: SessionView, event: Event, id: Seq<char>)
    requires
        listening(s),
        step_answer(s, event, id) == Ok::<Action, StoreError>(Action::Persist),
    ensures
        settled(step(s, event, id), false) == prepared(s, event),
{
}

/// A write that succeeded after a removal leaves the store without the entry
/// that the selected row showed, and no other entry is touched.
pub proof fn lemma_removal_takes_selected_entry(s: SessionView, id: Seq<char>)
    requires
        valid(s),
        listening(s),
        s.capture is None,
        refreshed(s).filtered.len() > 0,
    ensures
        settled(step(s, Event::RemoveSelected, id), true).store == s.store.remove(
            refreshed(s).filtered[refreshed(s).selection],
        ),
        0 <= refreshed(s).filtered[refreshed(s).selection] < s.store.len(),
{
    lemma_filtered_view_is_ranked(s.store, s.query);
}

/// The selection wraps around: in a view of `count > 0` rows, a move up from
/// the first row selects the last, and a move down from the last row selects
/// the first. In an empty view neither move changes anything.
pub proof fn lemma_selection_wraps_around(s: SessionView, id: Seq<char>)
    requires
        valid(s),
        listening(s),
        s.capture is None,
        !s.dirty,
    ensures
        s.filtered.len() > 0 && s.selection == 0 ==> step(s, Event::SelectUp, id).selection
            == s.filtered.len() - 1,
        s.filtered.len() > 0 && s.selection == s.filtered.len() - 1 ==> step(
            s,
            Event::SelectDown,
            id,
        ).selection == 0,
        s.filtered.len() == 0 ==> step(s, Event::SelectUp, id) == s && step(
            s,
            Event::SelectDown,
            id,
        ) == s,
{
}

/// Moving down undoes moving up, and the other way round, wherever the
/// cursor points at a row.
pub proof fn lemma_moves_are_inverse(selection: int, count: int)
    requires
        0 <= selection < count,
    ensures
        moved_down(moved_up(selection, count), count) == selection,
        moved_up(moved_down(selection, count), count) == selection,
        0 <= moved_up(selection, count) < count,
        0 <= moved_down(selection, count) < count,
{
}

/// Recomputing a stale view clamps the selection cursor: it stays where it
/// still points at a row, else goes to the last row, or to 0 in an empty
/// view.
pub proof fn lemma_refresh_clamps_selection(s: SessionView)
    requires
        s.dirty,
        0 <= s.selection,
    ensures
        refreshed(s).filtered == filtered_view(s.store, s.query),
        refreshed(s).filtered.len() == 0 ==> refreshed(s).selection == 0,
        refreshed(s).filtered.len() > 0 ==> refreshed(s).selection == if s.selection
            < refreshed(s).filtered.len() {
            s.selection
        } else {
            refreshed(s).filtered.len() - 1
        },
        !refreshed(s).dirty,
{
}

/// Recomputing twice is recomputing once.
pub proof fn lemma_refresh_is_idempotent(s: SessionView)
    ensures
        refreshed(refreshed(s)) == refreshed(s),
{
}

/// On an up-to-date view that is not empty, the selected row is on the
/// visible page, and it is the only row marked as selected.
pub proof fn lemma_selected_row_is_visible(s: SessionView)
    requires
        valid(s),
        !s.dirty,
        s.filtered.len() > 0,
    ensures
        page_start(s.selection) <= s.selection < page_end(s.selection, s.filtered.len() as int),
        0 < visible_rows(s).len() <= PAGE_SIZE,
        forall|k: int|
            0 <= k < visible_rows(s).len() ==> ((#[trigger] visible_rows(s)[k]).1 <==> k
                == s.selection - page_start(s.selection)),
{
}

/// The selection cursor brought back into a view of `count` rows: unchanged
/// where it points at a row, else the last row, or 0 in an empty view.
pub fn clamp_selection(selection: usize, count: usize) -> (kept: usize)
    ensures
        kept == clamped(selection as int, count as int),
        count > 0 ==> kept < count,
{
    if count == 0 {
        0
    } else if selection < count {
        selection
    } else {
        count - 1
    }
}

/// The selection cursor after a move up: one row up, and from the first row
/// round to the last. In an empty view it stays.
pub fn select_up(selection: usize, count: usize) -> (moved: usize)
    ensures
        moved == moved_up(selection as int, count as int),
        count > 0 && selection == 0 ==> moved == count - 1,
{
    if count == 0 {
        selection
    } else if selection == 0 {
        count - 1
    } else {
        selection - 1
    }
}

/// The selection cursor after a move down: one row down, and from the last
/// row round to the first. In an empty view it stays.
pub fn select_down(selection: usize, count: usize) -> (moved: usize)
    ensures
        moved == moved_down(selection as int, count as int),
        count > 0 && selection == count - 1 ==> moved == 0,
{
    if count == 0 {
        selection
    } else if selection < count - 1 {
        selection + 1
    } else {
        0
    }
}

/// The rows `[start, end)` of the page that holds row `selection` in a view
/// of `count` rows.
pub fn page_bounds(selection: usize, count: usize) -> (bounds: (usize, usize))
    ensures
        bounds.0 == page_start(selection as int),
        bounds.1 == page_end(selection as int, count as int),
{
    let start = selection / PAGE_SIZE * PAGE_SIZE;
    if count > start && count - start > PAGE_SIZE {
        (start, start + PAGE_SIZE)
    } else {
        (start, count)
    }
}

/// A running session: the store it works on and the interaction state.
pub struct Session {
    store: ClipboardStorage,
    staged: Option<ClipboardStorage>,
    query_buffer: String,
    edit_cursor: usize,
    selection_cursor: usize,
    filtered_snippets: Vec<usize>,
    mode: Mode,
    needs_update: bool,
    outcome: Option<Outcome>,
}

impl View for Session {
    type V = SessionView;

    closed spec fn view(&self) -> SessionView {
        SessionView {
            store: self.store@,
            staged: match self.staged {
                Some(next) => Some(next@),
                None => None,
            },
            query: self.query_buffer@,
            edit_cursor: self.edit_cursor as int,
            selection: self.selection_cursor as int,
            filtered: as_positions(self.filtered_snippets@),
            capture: match self.mode {
                Mode::Capturing(content) => Some(content@),
                Mode::Idle => None,
            },
            dirty: self.needs_update,
            outcome: match self.outcome {
                Some(outcome) => Some(outcome@),
                None => None,
            },
        }
    }
}

impl Session {
    /// The session's invariant.
    pub open spec fn wf(&self) -> bool {
        valid(self@)
    }

    /// Starts a session on `store`: in capturing mode when a captured text
    /// is handed in, else idle; with the empty query, which every entry
    /// matches, so that the view holds all entries, those with a nickname
    /// first.
    pub fn initialize(store: ClipboardStorage, pending_capture: Option<String>) -> (session: Self)
        requires
            store.wf(),
        ensures
            session.wf(),
            session@ == refreshed(starting(store@, text_of(pending_capture))),
    {
        let mode = match pending_capture {
            Some(content) => Mode::Capturing(content),
            None => Mode::Idle,
        };
        let mut session = Session {
            store,
            staged: None,
            query_buffer: String::new(),
            edit_cursor: 0,
            selection_cursor: 0,
            filtered_snippets: Vec::new(),
            mode,
            needs_update: true,
            outcome: None,
        };
        assert(session@ =~= starting(store@, text_of(pending_capture))) by {
            assert(as_positions(session.filtered_snippets@) =~= Seq::<int>::empty());
        }
        session.refresh();
        session
    }

    /// Brings the filtered view up to date: where it is stale, it is
    /// computed anew from the store and the query, and the selection cursor
    /// is clamped to it. A view that is up to date is left alone.
    pub fn refresh(&mut self)
        requires
            old(self).wf(),
        ensures
            final(self).wf(),
            final(self)@ == refreshed(old(self)@),
            !final(self)@.dirty,
    {
        if self.needs_update {
            self.filtered_snippets = refilter(&self.store, self.query_buffer.as_str());
            self.selection_cursor =
            clamp_selection(self.selection_cursor, self.filtered_snippets.len());
            self.needs_update = false;
            assert(as_positions(self.filtered_snippets@).len() == self.filtered_snippets@.len());
        }
    }

    /// Takes one event, with `fresh_id` as the id of the snippet that a
    /// confirmation in capturing mode stages; no other event looks at it.
    pub fn apply_event(&mut self, event: Event, fresh_id: String) -> (answered: Result<
        Action,
        StoreError,
    >)
        requires
            old(self).wf(),
        ensures
            final(self).wf(),
            final(self)@ == step(old(self)@, event, fresh_id@),
            answered == step_answer(old(self)@, event, fresh_id@),
    {
        if self.outcome.is_some() || self.staged.is_some() {
            return Ok(Action::Continue);
        }
        match event {
            Event::Cancel => {
                self.outcome = Some(Outcome::Cancelled);
                Ok(Action::Continue)
            },
            Event::Insert(ch) => {
                if self.query_buffer.as_str().unicode_len() < usize::MAX {
                    self.query_buffer = insert_char(self.query_buffer.as_str(), self.edit_cursor, ch);
                    self.edit_cursor = self.edit_cursor + 1;
                    self.needs_update = true;
                }
                Ok(Action::Continue)
            },
            Event::Backspace => {
                if self.edit_cursor > 0 {
                    self.edit_cursor = self.edit_cursor - 1;
                    self.query_buffer = remove_char(self.query_buffer.as_str(), self.edit_cursor);
                    self.needs_update = true;
                }
                Ok(Action::Continue)
            },
            Event::CursorLeft => {
                if self.edit_cursor > 0 {
                    self.edit_cursor = self.edit_cursor - 1;
                }
                Ok(Action::Continue)
            },
            Event::CursorRight => {
                if self.edit_cursor < self.query_buffer.as_str().unicode_len() {
                    self.edit_cursor = self.edit_cursor + 1;
                }
                Ok(Action::Continue)
            },
            Event::SelectUp => {
                self.refresh();
                if self.is_idle() {
                    self.selection_cursor =
                    select_up(self.selection_cursor, self.filtered_snippets.len());
                }
                Ok(Action::Continue)
            },
            Event::SelectDown => {
                self.refresh();
                if self.is_idle() {
                    self.selection_cursor =
                    select_down(self.selection_cursor, self.filtered_snippets.len());
                }
                Ok(Action::Continue)
            },
            Event::RemoveSelected => {
                self.refresh();
                if self.is_idle() && self.filtered_snippets.len() > 0 {
                    proof {
                        lemma_filtered_view_is_ranked(self@.store, self@.query);
                    }
                    let position = self.filtered_snippets[self.selection_cursor];
                    assert(position as int == self@.filtered[self@.selection]);
                    let mut next = self.store.clone();
                    match next.remove_entry(position) {
                        Ok(_) => {
                            self.staged = Some(next);
                            Ok(Action::Persist)
                        },
                        Err(e) => Err(e),
                    }
                } else {
                    Ok(Action::Continue)
                }
            },
            Event::Confirm => {
                self.refresh();
                match &self.mode {
                    Mode::Capturing(content) => {
                        let mut next = self.store.clone();
                        let nickname = Some(self.query_buffer.clone());
                        match next.insert_entry(fresh_id, content.clone(), nickname) {
                            Ok(()) => {
                                self.staged = Some(next);
                                Ok(Action::Persist)
                            },
                            Err(e) => Err(e),
                        }
                    },
                    Mode::Idle => {
                        if self.filtered_snippets.len() > 0 {
                            proof {
                                lemma_filtered_view_is_ranked(self@.store, self@.query);
                            }
                            let position = self.filtered_snippets[self.selection_cursor];
                            assert(position as int == self@.filtered[self@.selection]);
                            let content = self.store.get_entries()[position].content.clone();
                            self.outcome = Some(Outcome::Pasted(content));
                        }
                        Ok(Action::Continue)
                    },
                }
            },
        }
    }

    /// Takes one event and answers what the driver owes. A confirmation in
    /// capturing mode draws a random id for the new snippet; should that id
    /// be in use already, the event is refused with `DuplicateId` and the
    /// state stays as it was.
    pub fn handle_event(&mut self, event: Event) -> (answered: Result<Action, StoreError>)
        requires
            old(self).wf(),
        ensures
            final(self).wf(),
            exists|id: Seq<char>|
                final(self)@ == step(old(self)@, event, id) && answered == step_answer(
                    old(self)@,
                    event,
                    id,
                ) && (draws_id(old(self)@, event) ==> id.len() == DRAWN_ID_CHARS),
            !draws_id(old(self)@, event) ==> final(self)@ == step(
                old(self)@,
                event,
                Seq::<char>::empty(),
            ) && answered == step_answer(old(self)@, event, Seq::<char>::empty()),
    {
        let drawing = match event {
            Event::Confirm => !self.is_idle() && self.outcome.is_none() && self.staged.is_none(),
            _ => false,
        };
        let fresh_id = if drawing {
            fresh_uuid()
        } else {
            String::new()
        };
        let ghost id = fresh_id@;
        let answered = self.apply_event(event, fresh_id);
        assert(self@ == step(old(self)@, event, id) && answered == step_answer(
            old(self)@,
            event,
            id,
        ) && (draws_id(old(self)@, event) ==> id.len() == DRAWN_ID_CHARS));
        answered
    }

    /// Takes the driver's report on the pending write. A staged store that
    /// was written becomes the store, and a capturing session ends as
    /// `Captured`; one that was not written is dropped, so that the state is
    /// as before the event that staged it, and the failure is handed back as
    /// `Storage`. With nothing staged, nothing changes.
    pub fn settle(&mut self, written: bool) -> (reported: Result<(), StoreError>)
        requires
            old(self).wf(),
        ensures
            final(self).wf(),
            final(self)@ == settled(old(self)@, written),
            reported == settle_answer(old(self)@, written),
    {
        match self.staged.take() {
            Some(next) => {
                if written {
                    self.store = next;
                    self.needs_update = true;
                    if !self.is_idle() {
                        self.outcome = Some(Outcome::Captured);
                    }
                    Ok(())
                } else {
                    Err(StoreError::Storage)
                }
            },
            None => Ok(()),
        }
    }

    /// How the session ended, or `None` while it runs.
    pub fn is_terminal(&self) -> (ended: Option<&Outcome>)
        ensures
            match ended {
                Some(outcome) => self@.outcome == Some(outcome@),
                None => self@.outcome is None,
            },
    {
        self.outcome.as_ref()
    }

    /// The rows of the page that holds the selected row, top to bottom: each
    /// with the entry it shows and whether it is the selected one. The view
    /// has to be up to date.
    pub fn visible_page(&self) -> (page: Vec<(&ClipboardEntry, bool)>)
        requires
            self.wf(),
            !self@.dirty,
        ensures
            rows_of(page@) == visible_rows(self@),
    {
        let (start, end) = page_bounds(self.selection_cursor, self.filtered_snippets.len());
        let entries = self.store.get_entries();
        let mut page: Vec<(&ClipboardEntry, bool)> = Vec::new();
        let mut row = start;
        proof {
            lemma_filtered_view_is_ranked(self@.store, self@.query);
            assert(start <= end);
        }
        while row < end
            invariant
                start == page_start(self@.selection),
                end == page_end(self@.selection, self@.filtered.len() as int),
                start <= row <= end,
                end <= self.filtered_snippets@.len(),
                self@.filtered == as_positions(self.filtered_snippets@),
                self@.selection == self.selection_cursor,
                views_of(entries@) == self@.store,
                forall|k: int|
                    0 <= k < self@.filtered.len() ==> 0 <= #[trigger] self@.filtered[k]
                        < self@.store.len(),
                rows_of(page@).len() == row - start,
                forall|k: int|
                    0 <= k < row - start ==> #[trigger] rows_of(page@)[k] == visible_rows(self@)[k],
            decreases end - row,
        {
            let position = self.filtered_snippets[row];
            assert(position as int == self@.filtered[row as int]);
            let ghost before = rows_of(page@);
            page.push((&entries[position], row == self.selection_cursor));
            assert(rows_of(page@) =~= before.push(
                (entries@[position as int]@, row == self.selection_cursor),
            ));
            row = row + 1;
        }
        assert(rows_of(page@) =~= visible_rows(self@));
        page
    }

    /// The store as last written.
    pub fn store(&self) -> (store: &ClipboardStorage)
        ensures
            store@ == self@.store,
            store.wf() == ids_distinct(self@.store),
    {
        &self.store
    }

    /// The store that waits to be written, if any.
    pub fn staged_store(&self) -> (staged: Option<&ClipboardStorage>)
        ensures
            match staged {
                Some(next) => self@.staged == Some(next@),
                None => self@.staged is None,
            },
    {
        self.staged.as_ref()
    }

    /// The text typed so far.
    pub fn query(&self) -> (query: &str)
        ensures
            query@ == self@.query,
    {
        self.query_buffer.as_str()
    }

    /// Where in the query the next character goes, counted in characters.
    pub fn edit_cursor(&self) -> (at: usize)
        ensures
            at == self@.edit_cursor,
    {
        self.edit_cursor
    }

    /// Which row of the filtered view is selected.
    pub fn selection_cursor(&self) -> (row: usize)
        ensures
            row == self@.selection,
    {
        self.selection_cursor
    }

    /// The filtered view: store positions in display order.
    pub fn filtered_snippets(&self) -> (view: &[usize])
        ensures
            as_positions(view@) == self@.filtered,
    {
        self.filtered_snippets.as_slice()
    }

    /// Whether the filtered view may be out of date.
    pub fn needs_update(&self) -> (stale: bool)
        ensures
            stale == self@.dirty,
    {
        self.needs_update
    }

    /// The mode the session was started in.
    pub fn mode(&self) -> (mode: &Mode)
        ensures
            match mode {
                Mode::Idle => self@.capture is None,
                Mode::Capturing(content) => self@.capture == Some(content@),
            },
    {
        &self.mode
    }

    /// The captured text that waits for its nickname, in capturing mode.
    pub fn pending_capture(&self) -> (capture: Option<&str>)
        ensures
            match capture {
                Some(content) => self@.capture == Some(content@),
                None => self@.capture is None,
            },
    {
        match &self.mode {
            Mode::Capturing(content) => Some(content.as_str()),
            Mode::Idle => None,
        }
    }

    /// Whether the session is in idle mode.
    pub fn is_idle(&self) -> (idle: bool)
        ensures
            idle == (self@.capture is None),
    {
        match &self.mode {
            Mode::Idle => true,
            Mode::Capturing(_) => false,
        }
    }
}

} // verus!
