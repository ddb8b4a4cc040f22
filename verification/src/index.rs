//! The corpus-wide index: one term-frequency profile per document.

use crate::table::{lemma_pairs_take, pairs_map, Table};
use crate::term_freq::{counts_of, distinct_terms, TermFreq};
use vstd::prelude::*;

verus! {

/// The index that a list of `(document, profile entries)` pairs stands for.
/// Where a document is listed more than once, its last profile stands.
pub open spec fn index_of(entries: Seq<(Seq<char>, Seq<(Seq<char>, u64)>)>) -> Map<
    Seq<char>,
    Map<Seq<char>, nat>,
>
    decreases entries.len(),
{
    if entries.len() == 0 {
        Map::empty()
    } else {
        index_of(entries.drop_last()).insert(entries.last().0, counts_of(entries.last().1))
    }
}

/// No document is listed twice, and no term twice within a document.
pub open spec fn distinct_documents(entries: Seq<(Seq<char>, Seq<(Seq<char>, u64)>)>) -> bool {
    &&& forall|i: int, j: int| 0 <= i < j < entries.len() ==> entries[i].0 != entries[j].0
    &&& forall|i: int| 0 <= i < entries.len() ==> distinct_terms(#[trigger] entries[i].1)
}

/// Profiles put under two different documents do not disturb each other: the
/// order of the two writes does not matter.
pub proof fn lemma_writes_to_different_documents_commute(
    index: Map<Seq<char>, Map<Seq<char>, nat>>,
    one: Seq<char>,
    profile_one: Map<Seq<char>, nat>,
    other: Seq<char>,
    profile_other: Map<Seq<char>, nat>,
)
    requires
        one != other,
    ensures
        index.insert(one, profile_one).insert(other, profile_other) == index.insert(
            other,
            profile_other,
        ).insert(one, profile_one),
{
    assert(index.insert(one, profile_one).insert(other, profile_other) =~= index.insert(
        other,
        profile_other,
    ).insert(one, profile_one));
}

/// Of two profiles put under the same document, the later one stands, as if
/// the earlier had never been written.
pub proof fn lemma_last_write_wins(
    index: Map<Seq<char>, Map<Seq<char>, nat>>,
    doc: Seq<char>,
    earlier: Map<Seq<char>, nat>,
    later: Map<Seq<char>, nat>,
)
    ensures
        index.insert(doc, earlier).insert(doc, later) == index.insert(doc, later),
        index.insert(doc, later)[doc] == later,
{
    assert(index.insert(doc, earlier).insert(doc, later) =~= index.insert(doc, later));
}

/// A table of profiles read as a map to their views.
pub open spec fn as_profiles(m: Map<Seq<char>, TermFreq>) -> Map<Seq<char>, Map<Seq<char>, nat>> {
    Map::new(|d: Seq<char>| m.contains_key(d), |d: Seq<char>| m[d]@)
}

/// An index from document identifiers to term-frequency profiles. Each
/// document has at most one profile; indexing a document again replaces its
/// profile as a whole.
#[derive(Clone, Debug)]
pub struct TermFreqIndex {
    docs: Table<TermFreq>,
}

impl View for TermFreqIndex {
    type V = Map<Seq<char>, Map<Seq<char>, nat>>;

    /// The index as a map from document identifiers to profiles.
    closed spec fn view(&self) -> Map<Seq<char>, Map<Seq<char>, nat>> {
        as_profiles(self.docs@)
    }
}

impl TermFreqIndex {
    /// What holds of every index: no document is listed twice, and every
    /// profile in it is well formed.
    pub closed spec fn wf(&self) -> bool {
        &&& self.docs.wf()
        &&& forall|d: Seq<char>| #[trigger] self.docs@.contains_key(d) ==> self.docs@[d].wf()
    }

    /// The documents, in the order in which they were first indexed.
    pub closed spec fn doc_seq(&self) -> Seq<Seq<char>> {
        self.docs.key_seq()
    }

    /// An index without documents.
    pub fn new() -> (index: Self)
        ensures
            index.wf(),
            index@ == Map::<Seq<char>, Map<Seq<char>, nat>>::empty(),
    {
        let index = TermFreqIndex { docs: Table::new() };
        assert(index@ =~= Map::<Seq<char>, Map<Seq<char>, nat>>::empty());
        index
    }

    /// The number of documents.
    pub fn len(&self) -> (n: usize)
        requires
            self.wf(),
        ensures
            n == self.doc_seq().len(),
            self@.dom().finite(),
            n == self@.dom().len(),
    {
        let n = self.docs.len();
        assert(self@.dom() =~= self.docs@.dom());
        n
    }

    /// Tells whether `doc` has a profile.
    pub fn contains(&self, doc: &str) -> (found: bool)
        requires
            self.wf(),
        ensures
            found == self@.contains_key(doc@),
    {
        self.docs.find(doc).is_some()
    }

    /// The profile of `doc`, if it has one.
    pub fn get(&self, doc: &str) -> (profile: Option<&TermFreq>)
        requires
            self.wf(),
        ensures
            match profile {
                Some(tf) => self@.contains_key(doc@) && tf@ == self@[doc@] && tf.wf(),
                None => !self@.contains_key(doc@),
            },
    {
        self.docs.get(doc)
    }

    /// Puts `profile` under `doc`. A profile that was there before is
    /// replaced as a whole: the last write wins, nothing is merged, and no
    /// other document is touched.
    pub fn insert(&mut self, doc: String, profile: TermFreq)
        requires
            old(self).wf(),
            profile.wf(),
        ensures
            final(self).wf(),
            final(self)@ == old(self)@.insert(doc@, profile@),
    {
        self.docs.insert(doc, profile);
        assert(as_profiles(old(self).docs@.insert(doc@, profile)) =~= as_profiles(
            old(self).docs@,
        ).insert(doc@, profile@));
    }

    /// Tells whether two indexes hold the same documents with the same
    /// profiles, in whatever order.
    pub fn same_as(&self, other: &TermFreqIndex) -> (same: bool)
        requires
            self.wf(),
            other.wf(),
        ensures
            same == (self@ == other@),
    {
        let n = self.docs.len();
        let m = other.docs.len();
        proof {
            assert(self@.dom() =~= self.docs@.dom());
            assert(other@.dom() =~= other.docs@.dom());
        }
        if n != m {
            return false;
        }
        let ghost keys = self.docs.key_seq();
        let mut i: usize = 0;
        while i < n
            invariant
                self.wf(),
                other.wf(),
                i <= n,
                n == keys.len(),
                keys == self.docs.key_seq(),
                forall|j: int|
                    0 <= j < i ==> other.docs@.contains_key(#[trigger] keys[j])
                        && other.docs@[keys[j]]@ == self.docs@[keys[j]]@,
            decreases n - i,
        {
            let doc = self.docs.key_at(i);
            let mine = self.docs.value_at(i);
            match other.docs.get(doc.as_str()) {
                None => {
                    assert(self@.contains_key(doc@));
                    assert(!other@.contains_key(doc@));
                    return false;
                },
                Some(theirs) => {
                    if !mine.same_as(theirs) {
                        assert(self@[doc@] != other@[doc@]);
                        return false;
                    }
                },
            }
            i += 1;
        }
        proof {
            let mine = self.docs@;
            let theirs = other.docs@;
            assert forall|k: Seq<char>| mine.contains_key(k) implies theirs.contains_key(k)
                && theirs[k]@ == mine[k]@ by {
                let j = choose|j: int| 0 <= j < keys.len() && keys[j] == k;
                assert(theirs.contains_key(keys[j]));
            }
            assert(mine.dom().subset_of(theirs.dom()));
            vstd::set_lib::lemma_subset_equality(mine.dom(), theirs.dom());
            assert(self@ =~= other@);
        }
        true
    }

    /// The document at position `i`, in the order of first indexing.
    pub fn doc_at(&self, i: usize) -> (doc: &String)
        requires
            self.wf(),
            i < self.doc_seq().len(),
        ensures
            doc@ == self.doc_seq()[i as int],
            self@.contains_key(doc@),
    {
        self.docs.key_at(i)
    }

    /// The profile of the document at position `i`.
    pub fn profile_at(&self, i: usize) -> (profile: &TermFreq)
        requires
            self.wf(),
            i < self.doc_seq().len(),
        ensures
            profile.wf(),
            self@.contains_key(self.doc_seq()[i as int]),
            profile@ == self@[self.doc_seq()[i as int]],
    {
        let doc = self.docs.key_at(i);
        self.docs.value_at(i)
    }

    /// The index as a list of `(document, profile entries)` pairs, each
    /// document once, in the order of first indexing.
    pub fn to_entries(&self) -> (entries: Vec<(String, Vec<(String, u64)>)>)
        requires
            self.wf(),
        ensures
            index_of(entries.deep_view()) == self@,
            distinct_documents(entries.deep_view()),
            entries@.len() == self.doc_seq().len(),
            forall|i: int|
                0 <= i < entries@.len() ==> (#[trigger] entries@[i]).0@ == self.doc_seq()[i],
    {
        let n = self.docs.len();
        let ghost keys = self.docs.key_seq();
        let ghost values = self.docs.value_seq();
        let mut entries: Vec<(String, Vec<(String, u64)>)> = Vec::new();
        let mut i: usize = 0;
        while i < n
            invariant
                self.wf(),
                i <= n,
                n == keys.len(),
                n == values.len(),
                keys == self.docs.key_seq(),
                values == self.docs.value_seq(),
                keys.no_duplicates(),
                entries@.len() == i,
                forall|j: int| 0 <= j < i ==> (#[trigger] entries@[j]).0@ == keys[j],
                forall|j: int|
                    0 <= j < i ==> distinct_terms((#[trigger] entries@[j]).1.deep_view()),
                index_of(entries.deep_view()) == as_profiles(
                    pairs_map(keys.take(i as int), values.take(i as int)),
                ),
            decreases n - i,
        {
            let ghost before = entries.deep_view();
            let ghost front = pairs_map(keys.take(i as int), values.take(i as int));
            let doc = self.docs.key_at(i).clone();
            let profile = self.docs.value_at(i);
            let counts = profile.to_counts();
            proof {
                lemma_pairs_take(keys, values, i as int);
            }
            entries.push((doc, counts));
            proof {
                assert(entries.deep_view().drop_last() =~= before);
                assert(entries.deep_view().last() == (doc@, counts.deep_view()));
                assert(as_profiles(front.insert(doc@, *profile)) =~= as_profiles(front).insert(
                    doc@,
                    profile@,
                ));
            }
            i += 1;
        }
        proof {
            assert(keys.take(n as int) =~= keys);
            assert(values.take(n as int) =~= values);
            let listed = entries.deep_view();
            assert forall|i: int, j: int| 0 <= i < j < listed.len() implies listed[i].0
                != listed[j].0 by {
                assert(listed[i].0 == entries@[i].0@);
                assert(listed[j].0 == entries@[j].0@);
            }
            assert forall|i: int| 0 <= i < listed.len() implies distinct_terms(
                #[trigger] listed[i].1,
            ) by {
                assert(listed[i].1 == entries@[i].1.deep_view());
            }
        }
        entries
    }

    /// The index that a list of `(document, profile entries)` pairs stands
    /// for. Where a document or a term is listed more than once, the last
    /// listing stands.
    pub fn from_entries(entries: &Vec<(String, Vec<(String, u64)>)>) -> (index: Self)
        ensures
            index.wf(),
            index@ == index_of(entries.deep_view()),
    {
        let mut index = TermFreqIndex::new();
        let ghost all = entries.deep_view();
        let mut i: usize = 0;
        while i < entries.len()
            invariant
                i <= entries@.len(),
                all == entries.deep_view(),
                index.wf(),
                index@ == index_of(all.take(i as int)),
            decreases entries@.len() - i,
        {
            let doc = entries[i].0.clone();
            let profile = TermFreq::from_counts(&entries[i].1);
            proof {
                assert(all.take(i + 1).drop_last() =~= all.take(i as int));
                assert(all[i as int] == (doc@, entries@[i as int].1.deep_view()));
            }
            index.insert(doc, profile);
            i += 1;
        }
        assert(all.take(i as int) =~= all);
        index
    }
}

} // verus!
