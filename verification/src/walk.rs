//! The corpus walk: which directory to list next, which file to read next,
//! what to make of each answer, and when to give up.
//!
//! The walk touches no file system. It is a state machine: each step takes
//! the answer to the last request and says what to do next. Whoever drives it
//! lists the directories and reads the files.
//!
//! Two kinds of failure are kept apart. A directory that cannot be listed, or
//! an entry that cannot be told to be a file or a directory, ends the walk:
//! the environment is broken. A document from which no text can be extracted
//! is passed over, and the walk goes on with its siblings.

use crate::index::TermFreqIndex;
use crate::lexer::canonical_tokens;
use crate::term_freq::{frequencies, TermFreq};
use crate::text::chars_of;
use vstd::prelude::*;

verus! {

/// Why a walk was given up.
#[derive(Clone, Copy, Debug, PartialEq, Eq, Structural)]
pub enum WalkError {
    /// A directory could not be listed.
    DirectoryUnreadable,
    /// An entry of a directory could not be read, or its type not be told.
    EntryUnreadable,
    /// An answer came that had not been asked for.
    OutOfTurn,
}

/// One entry of a directory listing.
#[derive(Clone, Debug, PartialEq, Eq)]
pub enum Entry {
    /// A file, by its path.
    File(String),
    /// A directory, by its path.
    Directory(String),
    /// An entry that could not be read, or whose type could not be told.
    Unreadable,
}

/// The mathematical content of an `Entry`.
pub enum EntryView {
    File(Seq<char>),
    Directory(Seq<char>),
    Unreadable,
}

impl View for Entry {
    type V = EntryView;

    open spec fn view(&self) -> EntryView {
        match self {
            Entry::File(path) => EntryView::File(path@),
            Entry::Directory(path) => EntryView::Directory(path@),
            Entry::Unreadable => EntryView::Unreadable,
        }
    }
}

/// The contents of a listing.
pub open spec fn entry_views(entries: Seq<Entry>) -> Seq<EntryView> {
    entries.map_values(|entry: Entry| entry@)
}

/// The answer to a request.
#[derive(Clone, Debug, PartialEq, Eq)]
pub enum Event {
    /// The directory was listed: its entries, in the order in which the file
    /// system gave them.
    Listed(Vec<Entry>),
    /// The directory could not be listed.
    ListFailed,
    /// The document was read: its extracted text.
    Text(String),
    /// No text could be extracted from the document.
    NoText,
}

/// The mathematical content of an `Event`.
pub enum EventView {
    Listed(Seq<EntryView>),
    ListFailed,
    Text(Seq<char>),
    NoText,
}

impl View for Event {
    type V = EventView;

    open spec fn view(&self) -> EventView {
        match self {
            Event::Listed(entries) => EventView::Listed(entry_views(entries@)),
            Event::ListFailed => EventView::ListFailed,
            Event::Text(text) => EventView::Text(text@),
            Event::NoText => EventView::NoText,
        }
    }
}

/// What the driver is to do next.
#[derive(Clone, Debug, PartialEq, Eq)]
pub enum Action {
    /// List this directory and answer with `Listed` or `ListFailed`.
    List(String),
    /// Extract the text of this document and answer with `Text` or `NoText`.
    Read(String),
    /// The walk is complete.
    Finish,
    /// The walk was given up.
    Abort(WalkError),
}

/// The mathematical content of an `Action`.
pub enum ActionView {
    List(Seq<char>),
    Read(Seq<char>),
    Finish,
    Abort(WalkError),
}

impl View for Action {
    type V = ActionView;

    open spec fn view(&self) -> ActionView {
        match self {
            Action::List(path) => ActionView::List(path@),
            Action::Read(path) => ActionView::Read(path@),
            Action::Finish => ActionView::Finish,
            Action::Abort(error) => ActionView::Abort(*error),
        }
    }
}

/// Where a walk stands.
pub enum StageView {
    /// A listing has been asked for.
    Listing,
    /// The text of this document has been asked for.
    Reading(Seq<char>),
    /// Every entry has been dealt with.
    Finished,
    /// The walk was given up.
    Failed(WalkError),
}

/// The state of a walk.
pub struct WalkView {
    /// The index built so far.
    pub index: Map<Seq<char>, Map<Seq<char>, nat>>,
    /// The entries that are still to be dealt with, the next one first.
    pub agenda: Seq<EntryView>,
    /// What the walk is waiting for.
    pub stage: StageView,
}

/// The profile of a document with the given text.
pub open spec fn profile_of(text: Seq<char>) -> Map<Seq<char>, nat> {
    frequencies(canonical_tokens(text))
}

/// Turns to the next entry of the agenda: a file is read, a directory is
/// listed, an unreadable entry ends the walk, and an empty agenda completes
/// it.
pub open spec fn advance_of(
    index: Map<Seq<char>, Map<Seq<char>, nat>>,
    agenda: Seq<EntryView>,
) -> (WalkView, ActionView) {
    if agenda.len() == 0 {
        (WalkView { index, agenda, stage: StageView::Finished }, ActionView::Finish)
    } else {
        let rest = agenda.drop_first();
        match agenda.first() {
            EntryView::File(doc) => (
                WalkView { index, agenda: rest, stage: StageView::Reading(doc) },
                ActionView::Read(doc),
            ),
            EntryView::Directory(dir) => (
                WalkView { index, agenda: rest, stage: StageView::Listing },
                ActionView::List(dir),
            ),
            EntryView::Unreadable => (
                WalkView {
                    index,
                    agenda: rest,
                    stage: StageView::Failed(WalkError::EntryUnreadable),
                },
                ActionView::Abort(WalkError::EntryUnreadable),
            ),
        }
    }
}

/// Gives the walk up.
pub open spec fn failure_of(state: WalkView, error: WalkError) -> (WalkView, ActionView) {
    (
        WalkView { index: state.index, agenda: state.agenda, stage: StageView::Failed(error) },
        ActionView::Abort(error),
    )
}

/// One step of the walk: the state after the event, and what to do next.
///
/// The entries of a listed directory go to the front of the agenda, so a
/// directory is walked to its end before its next sibling is looked at. The
/// text of a document becomes its profile, which replaces any earlier
/// profile of the same document. A document without text changes nothing. A
/// directory that cannot be listed ends the walk, and so does an answer that
/// was not asked for. A walk that has ended stays as it is.
pub open spec fn step_of(state: WalkView, event: EventView) -> (WalkView, ActionView) {
    match state.stage {
        StageView::Finished => (state, ActionView::Finish),
        StageView::Failed(error) => (state, ActionView::Abort(error)),
        StageView::Listing => match event {
            EventView::Listed(entries) => advance_of(state.index, entries + state.agenda),
            EventView::ListFailed => failure_of(state, WalkError::DirectoryUnreadable),
            _ => failure_of(state, WalkError::OutOfTurn),
        },
        StageView::Reading(doc) => match event {
            EventView::Text(text) => advance_of(
                state.index.insert(doc, profile_of(text)),
                state.agenda,
            ),
            EventView::NoText => advance_of(state.index, state.agenda),
            _ => failure_of(state, WalkError::OutOfTurn),
        },
    }
}

/// The state of a walk at its start: the root directory has been asked for.
pub open spec fn start_of(index: Map<Seq<char>, Map<Seq<char>, nat>>) -> WalkView {
    WalkView { index, agenda: Seq::empty(), stage: StageView::Listing }
}

/// What a walk is waiting for; the document being read is kept beside it.
#[derive(Clone, Copy, Debug, PartialEq, Eq, Structural)]
enum Stage {
    Listing,
    Reading,
    Finished,
    Failed(WalkError),
}

/// A corpus walk in progress.
#[derive(Clone, Debug)]
pub struct Walk {
    index: TermFreqIndex,
    /// The entries still to be dealt with; the next one is the last.
    stack: Vec<Entry>,
    stage: Stage,
    /// The document whose text has been asked for, while one has.
    current: String,
}

/// The agenda that a stack of entries stands for: its top comes first.
spec fn agenda_of(stack: Seq<Entry>) -> Seq<EntryView> {
    Seq::new(stack.len(), |i: int| stack[stack.len() - 1 - i]@)
}

impl View for Walk {
    type V = WalkView;

    closed spec fn view(&self) -> WalkView {
        WalkView {
            index: self.index@,
            agenda: agenda_of(self.stack@),
            stage: match self.stage {
                Stage::Listing => StageView::Listing,
                Stage::Reading => StageView::Reading(self.current@),
                Stage::Finished => StageView::Finished,
                Stage::Failed(error) => StageView::Failed(error),
            },
        }
    }
}

impl Walk {
    /// What holds of every walk: its index is well formed.
    pub closed spec fn wf(&self) -> bool {
        self.index.wf()
    }

    /// Starts a walk that adds to `index`. The first thing to do is to list
    /// the root directory.
    pub fn start(root: String, index: TermFreqIndex) -> (started: (Walk, Action))
        requires
            index.wf(),
        ensures
            started.0.wf(),
            started.0@ == start_of(index@),
            started.1@ == ActionView::List(root@),
    {
        let walk = Walk {
            index,
            stack: Vec::new(),
            stage: Stage::Listing,
            current: String::new(),
        };
        assert(agenda_of(walk.stack@) =~= Seq::<EntryView>::empty());
        (walk, Action::List(root))
    }

    /// Turns to the next entry of the agenda.
    fn advance(&mut self) -> (action: Action)
        requires
            old(self).wf(),
        ensures
            final(self).wf(),
            (final(self)@, action@) == advance_of(old(self)@.index, old(self)@.agenda),
    {
        let ghost agenda = agenda_of(self.stack@);
        match self.stack.pop() {
            None => {
                self.stage = Stage::Finished;
                Action::Finish
            },
            Some(entry) => {
                assert(agenda_of(self.stack@) =~= agenda.drop_first());
                assert(entry@ == agenda.first());
                match entry {
                    Entry::File(doc) => {
                        self.stage = Stage::Reading;
                        self.current = doc.clone();
                        Action::Read(doc)
                    },
                    Entry::Directory(dir) => {
                        self.stage = Stage::Listing;
                        Action::List(dir)
                    },
                    Entry::Unreadable => {
                        self.stage = Stage::Failed(WalkError::EntryUnreadable);
                        Action::Abort(WalkError::EntryUnreadable)
                    },
                }
            },
        }
    }

    /// Gives the walk up.
    fn fail(&mut self, error: WalkError) -> (action: Action)
        requires
            old(self).wf(),
        ensures
            final(self).wf(),
            (final(self)@, action@) == failure_of(old(self)@, error),
    {
        self.stage = Stage::Failed(error);
        Action::Abort(error)
    }

    /// Puts the entries of a listing in front of the agenda, in their order.
    fn enqueue(&mut self, entries: Vec<Entry>)
        requires
            old(self).wf(),
        ensures
            final(self).wf(),
            final(self)@.index == old(self)@.index,
            final(self)@.stage == old(self)@.stage,
            final(self)@.agenda == entry_views(entries@) + old(self)@.agenda,
    {
        let ghost listed = entry_views(entries@);
        let ghost before = agenda_of(self.stack@);
        let mut entries = entries;
        while entries.len() > 0
            invariant
                self.wf(),
                self.index == old(self).index,
                self.stage == old(self).stage,
                self.current == old(self).current,
                entries@.len() <= listed.len(),
                entry_views(entries@) == listed.take(entries@.len() as int),
                agenda_of(self.stack@) == listed.skip(entries@.len() as int) + before,
            decreases entries@.len(),
        {
            let ghost left = entries@.len() as int;
            let ghost agenda = agenda_of(self.stack@);
            let ghost views = entry_views(entries@);
            match entries.pop() {
                Some(entry) => {
                    assert(entry@ == views[left - 1]);
                    assert(entry_views(entries@) =~= listed.take(left - 1));
                    self.stack.push(entry);
                    assert(agenda_of(self.stack@) =~= seq![entry@] + agenda);
                    assert(seq![entry@] + (listed.skip(left) + before) =~= listed.skip(left - 1)
                        + before);
                },
                None => {},
            }
        }
        assert(listed.skip(0) =~= listed);
    }

    /// Takes the answer to the last request and says what to do next. What
    /// becomes of the walk is told by `step_of`, for every state and every
    /// answer.
    pub fn step(&mut self, event: Event) -> (action: Action)
        requires
            old(self).wf(),
        ensures
            final(self).wf(),
            (final(self)@, action@) == step_of(old(self)@, event@),
    {
        match self.stage {
            Stage::Finished => Action::Finish,
            Stage::Failed(error) => Action::Abort(error),
            Stage::Listing => match event {
                Event::Listed(entries) => {
                    self.enqueue(entries);
                    self.advance()
                },
                Event::ListFailed => self.fail(WalkError::DirectoryUnreadable),
                _ => self.fail(WalkError::OutOfTurn),
            },
            Stage::Reading => match event {
                Event::Text(text) => {
                    let chars = chars_of(text.as_str());
                    let profile = TermFreq::of_text(chars.as_slice());
                    let doc = self.current.clone();
                    self.index.insert(doc, profile);
                    self.advance()
                },
                Event::NoText => self.advance(),
                _ => self.fail(WalkError::OutOfTurn),
            },
        }
    }

    /// Ends the walk and hands out its index. Only a walk that was completed
    /// has one: of a walk that was given up, or left half way, nothing is
    /// kept.
    pub fn finish(self) -> (outcome: Result<TermFreqIndex, WalkError>)
        requires
            self.wf(),
        ensures
            match self@.stage {
                StageView::Finished => outcome matches Ok(index) && index.wf() && index@
                    == self@.index,
                StageView::Failed(error) => outcome == Err::<TermFreqIndex, WalkError>(error),
                _ => outcome == Err::<TermFreqIndex, WalkError>(WalkError::OutOfTurn),
            },
    {
        match self.stage {
            Stage::Finished => Ok(self.index),
            Stage::Failed(error) => Err(error),
            _ => Err(WalkError::OutOfTurn),
        }
    }
}

} // verus!
