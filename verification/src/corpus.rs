//! What a walk is for: a corpus as a tree, the index that a depth-first walk
//! over it must yield, and the proof that the state machine of `walk`, driven
//! over the tree, yields exactly that.

use crate::walk::{
    advance_of, profile_of, start_of, step_of, ActionView, EntryView, EventView, StageView,
    WalkError, WalkView,
};
use vstd::prelude::*;

verus! {

/// A corpus as the walk meets it.
pub enum Tree {
    /// An entry that cannot be read, or whose type cannot be told.
    Unreadable,
    /// A document, with the text that extraction yields for it, if any.
    File { path: Seq<char>, text: Option<Seq<char>> },
    /// A directory that cannot be listed.
    Closed { path: Seq<char> },
    /// A directory with its entries, in the order in which they are listed.
    Directory { path: Seq<char>, entries: Seq<Tree> },
}

/// An index, as a map from documents to profiles.
pub type Profiles = Map<Seq<char>, Map<Seq<char>, nat>>;

/// The index after a depth-first walk over one tree, or the failure that
/// ends the walk. A document with text gets its profile, replacing any
/// earlier one; a document without text is passed over; an unreadable entry
/// or directory is fatal.
pub open spec fn walk_tree(tree: Tree, index: Profiles) -> Result<Profiles, WalkError>
    decreases tree, 0nat,
{
    match tree {
        Tree::Unreadable => Err(WalkError::EntryUnreadable),
        Tree::File { path, text: Some(text) } => Ok(index.insert(path, profile_of(text))),
        Tree::File { path, text: None } => Ok(index),
        Tree::Closed { path } => Err(WalkError::DirectoryUnreadable),
        Tree::Directory { path, entries } => walk_forest(entries, index),
    }
}

/// The index after walking the trees one after the other; the first failure
/// ends the walk.
pub open spec fn walk_forest(trees: Seq<Tree>, index: Profiles) -> Result<Profiles, WalkError>
    decreases trees, 1nat,
{
    if trees.len() == 0 {
        Ok(index)
    } else {
        match walk_tree(trees[0], index) {
            Ok(next) => walk_forest(trees.subrange(1, trees.len() as int), next),
            Err(error) => Err(error),
        }
    }
}

/// The documents of a tree that have text.
pub open spec fn documents(tree: Tree) -> Set<Seq<char>>
    decreases tree, 0nat,
{
    match tree {
        Tree::File { path, text: Some(text) } => set![path],
        Tree::Directory { path, entries } => documents_forest(entries),
        _ => Set::empty(),
    }
}

/// The documents of a list of trees that have text.
pub open spec fn documents_forest(trees: Seq<Tree>) -> Set<Seq<char>>
    decreases trees, 1nat,
{
    if trees.len() == 0 {
        Set::empty()
    } else {
        documents(trees[0]).union(documents_forest(trees.subrange(1, trees.len() as int)))
    }
}

/// A walk that succeeds indexes the documents that have text, and no others:
/// the index holds what it held before and, beside it, exactly those
/// documents.
pub proof fn lemma_walk_indexes_documents_with_text(tree: Tree, index: Profiles)
    ensures
        walk_tree(tree, index) matches Ok(grown) ==> grown.dom() == index.dom().union(
            documents(tree),
        ),
    decreases tree, 0nat,
{
    match tree {
        Tree::File { path, text: Some(text) } => {
            assert(index.insert(path, profile_of(text)).dom() =~= index.dom().union(set![path]));
        },
        Tree::Directory { path, entries } => {
            lemma_walk_forest_indexes_documents_with_text(entries, index);
        },
        _ => {
            assert(index.dom() =~= index.dom().union(Set::empty()));
        },
    }
}

/// A walk over a list of trees that succeeds indexes the documents that have
/// text, and no others.
pub proof fn lemma_walk_forest_indexes_documents_with_text(trees: Seq<Tree>, index: Profiles)
    ensures
        walk_forest(trees, index) matches Ok(grown) ==> grown.dom() == index.dom().union(
            documents_forest(trees),
        ),
    decreases trees, 1nat,
{
    if trees.len() == 0 {
        assert(index.dom() =~= index.dom().union(Set::empty()));
    } else {
        let rest = trees.subrange(1, trees.len() as int);
        lemma_walk_indexes_documents_with_text(trees[0], index);
        match walk_tree(trees[0], index) {
            Ok(next) => {
                lemma_walk_forest_indexes_documents_with_text(rest, next);
                match walk_forest(rest, next) {
                    Ok(grown) => {
                        assert(grown.dom() =~= index.dom().union(documents_forest(trees)));
                    },
                    Err(_) => {},
                }
            },
            Err(_) => {},
        }
    }
}

/// The number of nodes of a tree.
pub open spec fn size(tree: Tree) -> nat
    decreases tree, 0nat,
{
    match tree {
        Tree::Directory { path, entries } => 1 + size_forest(entries),
        _ => 1,
    }
}

/// The number of nodes of a list of trees.
pub open spec fn size_forest(trees: Seq<Tree>) -> nat
    decreases trees, 1nat,
{
    if trees.len() == 0 {
        0
    } else {
        size(trees[0]) + size_forest(trees.subrange(1, trees.len() as int))
    }
}

/// The entry under which a tree stands in its directory's listing.
pub open spec fn entry_of(tree: Tree) -> EntryView {
    match tree {
        Tree::Unreadable => EntryView::Unreadable,
        Tree::File { path, text } => EntryView::File(path),
        Tree::Closed { path } => EntryView::Directory(path),
        Tree::Directory { path, entries } => EntryView::Directory(path),
    }
}

/// The listing entries of a list of trees.
pub open spec fn entries_of(trees: Seq<Tree>) -> Seq<EntryView> {
    trees.map_values(|tree: Tree| entry_of(tree))
}

/// The request that a driver is sent for a tree.
pub open spec fn request_for(tree: Tree) -> ActionView {
    match tree {
        Tree::Unreadable => ActionView::Abort(WalkError::EntryUnreadable),
        Tree::File { path, text } => ActionView::Read(path),
        Tree::Closed { path } => ActionView::List(path),
        Tree::Directory { path, entries } => ActionView::List(path),
    }
}

/// The answer that a driver gives when it is asked for a tree.
pub open spec fn answer_for(tree: Tree) -> EventView {
    match tree {
        Tree::File { path, text: Some(text) } => EventView::Text(text),
        Tree::File { path, text: None } => EventView::NoText,
        Tree::Directory { path, entries } => EventView::Listed(entries_of(entries)),
        _ => EventView::ListFailed,
    }
}

/// The trees that come into view when a tree has been asked for.
pub open spec fn children_of(tree: Tree) -> Seq<Tree> {
    match tree {
        Tree::Directory { path, entries } => entries,
        _ => Seq::empty(),
    }
}

/// What the walk waits for while a driver is busy with a tree.
pub open spec fn stage_for(tree: Tree) -> StageView {
    match tree {
        Tree::Unreadable => StageView::Failed(WalkError::EntryUnreadable),
        Tree::File { path, text } => StageView::Reading(path),
        Tree::Closed { path } => StageView::Listing,
        Tree::Directory { path, entries } => StageView::Listing,
    }
}

/// A walk that has asked for `focus` and has `todo` on its agenda.
pub open spec fn attending(state: WalkView, focus: Tree, todo: Seq<Tree>) -> bool {
    &&& state.stage == stage_for(focus)
    &&& state.agenda == entries_of(todo)
}

/// The sizes of two lists of trees add up.
pub proof fn lemma_size_forest_add(a: Seq<Tree>, b: Seq<Tree>)
    ensures
        size_forest(a + b) == size_forest(a) + size_forest(b),
    decreases a.len(),
{
    if a.len() == 0 {
        assert(a + b =~= b);
    } else {
        let rest = a.subrange(1, a.len() as int);
        assert((a + b).subrange(1, (a + b).len() as int) =~= rest + b);
        assert((a + b)[0] == a[0]);
        lemma_size_forest_add(rest, b);
    }
}

/// Walking two lists of trees one after the other is walking them as one.
pub proof fn lemma_walk_forest_add(a: Seq<Tree>, b: Seq<Tree>, index: Profiles)
    ensures
        walk_forest(a + b, index) == match walk_forest(a, index) {
            Ok(next) => walk_forest(b, next),
            Err(error) => Err(error),
        },
    decreases a.len(),
{
    if a.len() == 0 {
        assert(a + b =~= b);
    } else {
        let rest = a.subrange(1, a.len() as int);
        assert((a + b).subrange(1, (a + b).len() as int) =~= rest + b);
        assert((a + b)[0] == a[0]);
        match walk_tree(a[0], index) {
            Ok(next) => {
                lemma_walk_forest_add(rest, b, next);
            },
            Err(_) => {},
        }
    }
}

/// Every tree has at least one node, and a directory one more than its
/// entries have.
pub proof fn lemma_size_of_children(tree: Tree)
    ensures
        size(tree) == 1 + size_forest(children_of(tree)),
{
    match tree {
        Tree::Directory { path, entries } => {},
        _ => {
            assert(size_forest(Seq::<Tree>::empty()) == 0);
        },
    }
}

/// The state in which the state machine comes to rest when a driver answers
/// each of its requests from the trees: first the request for `focus`, then,
/// as long as the machine asks, the request for the tree that is next in
/// line.
pub open spec fn run(state: WalkView, focus: Tree, todo: Seq<Tree>) -> WalkView
    decreases size(focus) + size_forest(todo), 0nat,
{
    proof {
        lemma_size_of_children(focus);
        lemma_size_forest_add(children_of(focus), todo);
    }
    follow(step_of(state, answer_for(focus)), children_of(focus) + todo)
}

/// The state in which the machine comes to rest after a step, with the trees
/// `ahead` in line: it goes on while it asks for something and a tree is left
/// to answer from.
pub open spec fn follow(stepped: (WalkView, ActionView), ahead: Seq<Tree>) -> WalkView
    decreases size_forest(ahead), 1nat,
{
    if (stepped.1 is List || stepped.1 is Read) && ahead.len() > 0 {
        run(stepped.0, ahead[0], ahead.subrange(1, ahead.len() as int))
    } else {
        stepped.0
    }
}

/// What a completed run must look like for a given outcome of the walk.
pub open spec fn settled(state: WalkView, outcome: Result<Profiles, WalkError>) -> bool {
    match outcome {
        Ok(index) => state.stage == StageView::Finished && state.index == index,
        Err(error) => state.stage == StageView::Failed(error),
    }
}

/// The machine, having asked for `focus` with `todo` in line behind it, comes
/// to rest with the outcome of walking `focus` and then `todo`.
pub proof fn lemma_run_is_walk(state: WalkView, focus: Tree, todo: Seq<Tree>)
    requires
        attending(state, focus, todo),
        !(focus is Unreadable),
    ensures
        settled(run(state, focus, todo), walk_forest(seq![focus] + todo, state.index)),
    decreases size(focus) + size_forest(todo), 0nat,
{
    let whole = seq![focus] + todo;
    assert(whole[0] == focus);
    assert(whole.subrange(1, whole.len() as int) =~= todo);
    let ahead = children_of(focus) + todo;
    lemma_size_of_children(focus);
    lemma_size_forest_add(children_of(focus), todo);
    let stepped = step_of(state, answer_for(focus));
    assert(run(state, focus, todo) == follow(stepped, ahead));
    match focus {
        Tree::Unreadable => {},
        Tree::Closed { path } => {
            assert(stepped.1 is Abort);
            assert(walk_tree(focus, state.index) is Err);
        },
        Tree::File { path, text: Some(text) } => {
            assert(ahead =~= todo);
            let grown = state.index.insert(path, profile_of(text));
            assert(stepped == advance_of(grown, entries_of(todo)));
            assert(walk_tree(focus, state.index) == Ok::<Profiles, WalkError>(grown));
            lemma_follow_is_walk(grown, todo);
        },
        Tree::File { path, text: None } => {
            assert(ahead =~= todo);
            assert(stepped == advance_of(state.index, entries_of(todo)));
            assert(walk_tree(focus, state.index) == Ok::<Profiles, WalkError>(state.index));
            lemma_follow_is_walk(state.index, todo);
        },
        Tree::Directory { path, entries } => {
            assert(entries_of(entries) + entries_of(todo) =~= entries_of(ahead));
            assert(stepped == advance_of(state.index, entries_of(ahead)));
            lemma_walk_forest_add(entries, todo, state.index);
            assert(walk_tree(focus, state.index) == walk_forest(entries, state.index));
            lemma_follow_is_walk(state.index, ahead);
        },
    }
}

/// The machine, turning to the trees `ahead`, comes to rest with the outcome
/// of walking them.
pub proof fn lemma_follow_is_walk(index: Profiles, ahead: Seq<Tree>)
    ensures
        settled(
            follow(advance_of(index, entries_of(ahead)), ahead),
            walk_forest(ahead, index),
        ),
    decreases size_forest(ahead), 1nat,
{
    let stepped = advance_of(index, entries_of(ahead));
    assert(entries_of(ahead).len() == ahead.len());
    if ahead.len() == 0 {
        assert(stepped.1 is Finish);
        assert(follow(stepped, ahead) == stepped.0);
    } else {
        let first = ahead[0];
        let rest = ahead.subrange(1, ahead.len() as int);
        assert(entries_of(ahead).first() == entry_of(first));
        assert(entries_of(ahead).drop_first() =~= entries_of(rest));
        assert(seq![first] + rest =~= ahead);
        match first {
            Tree::Unreadable => {
                assert(stepped.1 is Abort);
                assert(follow(stepped, ahead) == stepped.0);
                assert(walk_tree(first, index) is Err);
            },
            _ => {
                assert(stepped.1 is List || stepped.1 is Read);
                assert(follow(stepped, ahead) == run(stepped.0, first, rest));
                assert(stepped.0.index == index);
                assert(attending(stepped.0, first, rest));
                lemma_run_is_walk(stepped.0, first, rest);
            },
        }
    }
}

/// The machine asks in depth-first order: turning to the trees `ahead`, it
/// asks for the first of them, and is then attending to it with the others in
/// line; with no tree ahead it is finished.
pub proof fn lemma_asks_in_order(index: Profiles, ahead: Seq<Tree>)
    ensures
        ahead.len() == 0 ==> advance_of(index, entries_of(ahead)).1 == ActionView::Finish,
        ahead.len() > 0 ==> {
            &&& advance_of(index, entries_of(ahead)).1 == request_for(ahead[0])
            &&& attending(
                advance_of(index, entries_of(ahead)).0,
                ahead[0],
                ahead.subrange(1, ahead.len() as int),
            )
            &&& advance_of(index, entries_of(ahead)).0.index == index
        },
{
    assert(entries_of(ahead).len() == ahead.len());
    if ahead.len() > 0 {
        assert(entries_of(ahead).first() == entry_of(ahead[0]));
        assert(entries_of(ahead).drop_first() =~= entries_of(
            ahead.subrange(1, ahead.len() as int),
        ));
    }
}

/// A document from which no text can be extracted is as good as absent: the
/// walk over its siblings yields what it would yield without it, failure or
/// success alike.
pub proof fn lemma_textless_document_is_passed_over(
    before: Seq<Tree>,
    path: Seq<char>,
    after: Seq<Tree>,
    index: Profiles,
)
    ensures
        walk_forest(before + seq![Tree::File { path, text: None }] + after, index) == walk_forest(
            before + after,
            index,
        ),
{
    let doc = Tree::File { path, text: None };
    let tail = seq![doc] + after;
    assert(before + seq![doc] + after =~= before + tail);
    lemma_walk_forest_add(before, tail, index);
    lemma_walk_forest_add(before, after, index);
    assert(tail[0] == doc);
    assert(tail.subrange(1, tail.len() as int) =~= after);
    match walk_forest(before, index) {
        Ok(next) => {
            assert(walk_tree(doc, next) == Ok::<Profiles, WalkError>(next));
            assert(walk_forest(tail, next) == walk_forest(after, next));
        },
        Err(_) => {},
    }
}

/// An unreadable directory or entry anywhere in the walk's way ends the walk
/// in failure, whatever comes after it.
pub proof fn lemma_failure_is_final(before: Seq<Tree>, after: Seq<Tree>, index: Profiles)
    requires
        walk_forest(before, index) is Err,
    ensures
        walk_forest(before + after, index) == walk_forest(before, index),
{
    lemma_walk_forest_add(before, after, index);
}

/// The walk, started on a directory and driven to its end, comes to rest
/// with exactly what a depth-first walk over that directory owes: the index
/// it started from with the profile of every document that has text, later
/// documents replacing earlier ones of the same name, or the first fatal
/// failure. A document without text changes nothing and stops nothing.
pub proof fn lemma_walk_of_corpus(root: Tree, index: Profiles)
    requires
        root is Directory || root is Closed,
    ensures
        settled(run(start_of(index), root, Seq::empty()), walk_tree(root, index)),
{
    let alone = seq![root] + Seq::<Tree>::empty();
    assert(alone[0] == root);
    assert(alone.subrange(1, alone.len() as int) =~= Seq::<Tree>::empty());
    assert(entries_of(Seq::<Tree>::empty()) =~= Seq::<EntryView>::empty());
    lemma_run_is_walk(start_of(index), root, Seq::empty());
    match walk_tree(root, index) {
        Ok(next) => {
            assert(walk_forest(Seq::<Tree>::empty(), next) == Ok::<Profiles, WalkError>(next));
        },
        Err(_) => {},
    }
}

} // verus!
