//! The term-frequency profile of one document.

use crate::lexer::{canonical_tokens, tokenize};
use crate::table::{lemma_pairs_take, pairs_map, Table};
use vstd::prelude::*;

verus! {

/// How often `term` occurs among `terms`.
pub open spec fn occurrences(terms: Seq<Seq<char>>, term: Seq<char>) -> nat
    decreases terms.len(),
{
    if terms.len() == 0 {
        0
    } else {
        occurrences(terms.drop_last(), term) + if terms.last() == term {
            1nat
        } else {
            0nat
        }
    }
}

/// The profile of a sequence of terms: each term that occurs, with the number
/// of times it occurs.
pub open spec fn frequencies(terms: Seq<Seq<char>>) -> Map<Seq<char>, nat> {
    Map::new(|t: Seq<char>| terms.contains(t), |t: Seq<char>| occurrences(terms, t))
}

/// The profile that a list of `(term, count)` pairs stands for. Where a term
/// is listed more than once, its last count stands.
pub open spec fn counts_of(entries: Seq<(Seq<char>, u64)>) -> Map<Seq<char>, nat>
    decreases entries.len(),
{
    if entries.len() == 0 {
        Map::empty()
    } else {
        counts_of(entries.drop_last()).insert(entries.last().0, entries.last().1 as nat)
    }
}

/// No term is listed twice.
pub open spec fn distinct_terms(entries: Seq<(Seq<char>, u64)>) -> bool {
    forall|i: int, j: int| 0 <= i < j < entries.len() ==> entries[i].0 != entries[j].0
}

/// A term occurs at most as often as there are terms, and at least once
/// exactly if it is among them.
pub proof fn lemma_occurrences_bounds(terms: Seq<Seq<char>>, term: Seq<char>)
    ensures
        occurrences(terms, term) <= terms.len(),
        occurrences(terms, term) > 0 <==> terms.contains(term),
    decreases terms.len(),
{
    if terms.len() > 0 {
        let front = terms.drop_last();
        lemma_occurrences_bounds(front, term);
        if front.contains(term) {
            let i = choose|i: int| 0 <= i < front.len() && front[i] == term;
            assert(terms[i] == term);
        }
        if terms.last() == term {
            assert(terms[terms.len() - 1] == term);
        }
        if terms.contains(term) {
            let i = choose|i: int| 0 <= i < terms.len() && terms[i] == term;
            if i < front.len() {
                assert(front[i] == term);
            }
        }
    }
}

/// One more term adds one occurrence of that term and none of any other.
pub proof fn lemma_occurrences_push(terms: Seq<Seq<char>>, last: Seq<char>, term: Seq<char>)
    ensures
        occurrences(terms.push(last), term) == occurrences(terms, term) + if last == term {
            1nat
        } else {
            0nat
        },
{
    assert(terms.push(last).drop_last() =~= terms);
}

/// Every count in a profile is positive: a term is listed only if it occurs.
pub proof fn lemma_frequencies_positive(terms: Seq<Seq<char>>)
    ensures
        forall|t: Seq<char>| #[trigger]
            frequencies(terms).contains_key(t) ==> frequencies(terms)[t] > 0,
        frequencies(terms).dom().finite(),
{
    assert forall|t: Seq<char>| #[trigger] frequencies(terms).contains_key(t) implies frequencies(
        terms,
    )[t] > 0 by {
        lemma_occurrences_bounds(terms, t);
    }
    assert(frequencies(terms).dom() =~= terms.to_set());
    vstd::seq_lib::seq_to_set_is_finite(terms);
}

/// Indexing and querying agree: every canonical token of a text is listed in
/// the profile of that text, so a query made of a document's own words finds
/// each of them.
pub proof fn lemma_tokens_of_a_text_are_in_its_profile(text: Seq<char>, i: int)
    requires
        0 <= i < canonical_tokens(text).len(),
    ensures
        frequencies(canonical_tokens(text)).contains_key(canonical_tokens(text)[i]),
        frequencies(canonical_tokens(text))[canonical_tokens(text)[i]] >= 1,
{
    let terms = canonical_tokens(text);
    assert(terms.contains(terms[i]));
    lemma_occurrences_bounds(terms, terms[i]);
}

/// One more term raises that term's count by one and leaves the others.
pub proof fn lemma_frequencies_push(terms: Seq<Seq<char>>, term: Seq<char>)
    ensures
        frequencies(terms.push(term)) == frequencies(terms).insert(
            term,
            occurrences(terms, term) + 1,
        ),
{
    let more = terms.push(term);
    assert(more.drop_last() =~= terms);
    let left = frequencies(more);
    let right = frequencies(terms).insert(term, occurrences(terms, term) + 1);
    assert forall|t: Seq<char>| left.contains_key(t) <==> right.contains_key(t) by {
        lemma_occurrences_bounds(more, t);
        lemma_occurrences_bounds(terms, t);
    }
    assert(left =~= right);
}

/// A table of machine integers read as a map to natural numbers.
pub open spec fn as_counts(m: Map<Seq<char>, u64>) -> Map<Seq<char>, nat> {
    Map::new(|t: Seq<char>| m.contains_key(t), |t: Seq<char>| m[t] as nat)
}

/// The term frequencies of one document: for each canonical token that occurs
/// in it, the number of its occurrences.
#[derive(Clone, Debug)]
pub struct TermFreq {
    counts: Table<u64>,
}

impl View for TermFreq {
    type V = Map<Seq<char>, nat>;

    /// The profile as a map from terms to counts.
    closed spec fn view(&self) -> Map<Seq<char>, nat> {
        as_counts(self.counts@)
    }
}

impl TermFreq {
    /// What holds of every profile: no term is listed twice.
    pub closed spec fn wf(&self) -> bool {
        self.counts.wf()
    }

    /// The terms, in the order in which they first occurred.
    pub closed spec fn term_seq(&self) -> Seq<Seq<char>> {
        self.counts.key_seq()
    }

    /// The count that the profile gives for `term`: zero for a term that it
    /// does not list.
    pub open spec fn count_of(&self, term: Seq<char>) -> nat {
        if self@.contains_key(term) {
            self@[term]
        } else {
            0
        }
    }

    /// A profile without terms.
    pub fn new() -> (tf: Self)
        ensures
            tf.wf(),
            tf@ == Map::<Seq<char>, nat>::empty(),
    {
        let tf = TermFreq { counts: Table::new() };
        assert(tf@ =~= Map::<Seq<char>, nat>::empty());
        tf
    }

    /// Counts the terms of a list.
    pub fn from_terms(terms: &Vec<String>) -> (tf: Self)
        ensures
            tf.wf(),
            tf@ == frequencies(terms.deep_view()),
    {
        let mut counts: Table<u64> = Table::new();
        let ghost all = terms.deep_view();
        let mut i: usize = 0;
        while i < terms.len()
            invariant
                i <= terms@.len(),
                all == terms.deep_view(),
                counts.wf(),
                forall|t: Seq<char>| #[trigger]
                    counts@.contains_key(t) <==> frequencies(all.take(i as int)).contains_key(t),
                forall|t: Seq<char>| #[trigger]
                    counts@.contains_key(t) ==> counts@[t] == occurrences(all.take(i as int), t),
            decreases terms@.len() - i,
        {
            let term = terms[i].clone();
            let ghost seen = all.take(i as int);
            proof {
                assert(all.take(i + 1) =~= seen.push(term@));
                lemma_frequencies_push(seen, term@);
                lemma_occurrences_bounds(seen, term@);
                assert forall|t: Seq<char>|
                    occurrences(all.take(i + 1), t) == occurrences(seen, t) + if term@ == t {
                        1nat
                    } else {
                        0nat
                    } by {
                    lemma_occurrences_push(seen, term@, t);
                }
            }
            let so_far: u64 = match counts.get(term.as_str()) {
                Some(n) => *n,
                None => 0,
            };
            counts.insert(term, so_far + 1);
            i += 1;
        }
        let tf = TermFreq { counts };
        assert(all.take(i as int) =~= all);
        assert(tf@ =~= frequencies(all));
        tf
    }

    /// The profile of a document, given its extracted text: the text is
    /// tokenized, each token is folded to its canonical form, and the
    /// occurrences of each form are counted.
    pub fn of_text(text: &[char]) -> (tf: Self)
        ensures
            tf.wf(),
            tf@ == frequencies(canonical_tokens(text@)),
    {
        let terms = tokenize(text);
        TermFreq::from_terms(&terms)
    }

    /// The profile that a list of `(term, count)` pairs stands for. Where a
    /// term is listed more than once, its last count stands.
    pub fn from_counts(entries: &Vec<(String, u64)>) -> (tf: Self)
        ensures
            tf.wf(),
            tf@ == counts_of(entries.deep_view()),
    {
        let mut counts: Table<u64> = Table::new();
        let ghost all = entries.deep_view();
        let mut i: usize = 0;
        while i < entries.len()
            invariant
                i <= entries@.len(),
                all == entries.deep_view(),
                counts.wf(),
                (TermFreq { counts })@ == counts_of(all.take(i as int)),
            decreases entries@.len() - i,
        {
            let ghost before = (TermFreq { counts })@;
            let ghost table = counts@;
            let term = entries[i].0.clone();
            let n: u64 = entries[i].1;
            proof {
                assert(all.take(i + 1).drop_last() =~= all.take(i as int));
                assert(all[i as int] == (term@, n));
            }
            counts.insert(term, n);
            assert(as_counts(table.insert(term@, n)) =~= as_counts(table).insert(term@, n as nat));
            i += 1;
        }
        assert(all.take(i as int) =~= all);
        TermFreq { counts }
    }

    /// The profile as a list of `(term, count)` pairs, each term once, in the
    /// order of first occurrence.
    pub fn to_counts(&self) -> (entries: Vec<(String, u64)>)
        requires
            self.wf(),
        ensures
            counts_of(entries.deep_view()) == self@,
            distinct_terms(entries.deep_view()),
            entries@.len() == self.term_seq().len(),
            forall|i: int|
                0 <= i < entries@.len() ==> (#[trigger] entries@[i]).0@ == self.term_seq()[i],
    {
        let n = self.counts.len();
        let ghost keys = self.counts.key_seq();
        let ghost values = self.counts.value_seq();
        let mut entries: Vec<(String, u64)> = Vec::new();
        let mut i: usize = 0;
        while i < n
            invariant
                self.wf(),
                i <= n,
                n == keys.len(),
                n == values.len(),
                keys == self.counts.key_seq(),
                values == self.counts.value_seq(),
                keys.no_duplicates(),
                entries@.len() == i,
                forall|j: int| 0 <= j < i ==> (#[trigger] entries@[j]).0@ == keys[j],
                counts_of(entries.deep_view()) == as_counts(
                    pairs_map(keys.take(i as int), values.take(i as int)),
                ),
            decreases n - i,
        {
            let ghost before = entries.deep_view();
            let term = self.counts.key_at(i).clone();
            let count: u64 = *self.counts.value_at(i);
            proof {
                lemma_pairs_take(keys, values, i as int);
            }
            entries.push((term, count));
            proof {
                assert(entries.deep_view().drop_last() =~= before);
                assert(entries.deep_view().last() == (term@, count));
                assert(as_counts(
                    pairs_map(keys.take(i as int), values.take(i as int)).insert(term@, count),
                ) =~= as_counts(pairs_map(keys.take(i as int), values.take(i as int))).insert(
                    term@,
                    count as nat,
                ));
            }
            i += 1;
        }
        proof {
            assert(keys.take(n as int) =~= keys);
            assert(values.take(n as int) =~= values);
            let listed = entries.deep_view();
            assert forall|i: int, j: int| 0 <= i < j < listed.len() implies listed[i].0
                != listed[j].0 by {
                assert(listed[i].0 == entries@[i].0@);
                assert(listed[j].0 == entries@[j].0@);
            }
        }
        entries
    }

    /// Tells whether two profiles list the same terms with the same counts,
    /// in whatever order.
    pub fn same_as(&self, other: &TermFreq) -> (same: bool)
        requires
            self.wf(),
            other.wf(),
        ensures
            same == (self@ == other@),
    {
        let n = self.counts.len();
        let m = other.counts.len();
        proof {
            assert(self@.dom() =~= self.counts@.dom());
            assert(other@.dom() =~= other.counts@.dom());
        }
        if n != m {
            return false;
        }
        let ghost keys = self.counts.key_seq();
        let mut i: usize = 0;
        while i < n
            invariant
                self.wf(),
                other.wf(),
                i <= n,
                n == keys.len(),
                keys == self.counts.key_seq(),
                forall|j: int|
                    0 <= j < i ==> other.counts@.contains_key(#[trigger] keys[j])
                        && other.counts@[keys[j]] == self.counts@[keys[j]],
            decreases n - i,
        {
            let term = self.counts.key_at(i);
            let mine: u64 = *self.counts.value_at(i);
            match other.counts.get(term.as_str()) {
                None => {
                    assert(self@.contains_key(term@));
                    assert(!other@.contains_key(term@));
                    return false;
                },
                Some(theirs) => {
                    if *theirs != mine {
                        assert(self@[term@] != other@[term@]);
                        return false;
                    }
                },
            }
            i += 1;
        }
        proof {
            let mine = self.counts@;
            let theirs = other.counts@;
            assert forall|k: Seq<char>| mine.contains_key(k) implies theirs.contains_key(k)
                && theirs[k] == mine[k] by {
                let j = choose|j: int| 0 <= j < keys.len() && keys[j] == k;
                assert(theirs.contains_key(keys[j]));
            }
            assert(mine.dom().subset_of(theirs.dom()));
            vstd::set_lib::lemma_subset_equality(mine.dom(), theirs.dom());
            assert(self@ =~= other@);
        }
        true
    }

    /// The number of distinct terms.
    pub fn len(&self) -> (n: usize)
        requires
            self.wf(),
        ensures
            n == self.term_seq().len(),
            self@.dom().finite(),
            n == self@.dom().len(),
    {
        let n = self.counts.len();
        assert(self@.dom() =~= self.counts@.dom());
        n
    }

    /// How often `term` was counted; zero for a term that the profile does
    /// not list.
    pub fn count(&self, term: &str) -> (n: u64)
        requires
            self.wf(),
        ensures
            n == self.count_of(term@),
    {
        match self.counts.get(term) {
            Some(n) => *n,
            None => 0,
        }
    }

    /// The term at position `i`, in the order of first occurrence.
    pub fn term_at(&self, i: usize) -> (term: &String)
        requires
            self.wf(),
            i < self.term_seq().len(),
        ensures
            term@ == self.term_seq()[i as int],
            self@.contains_key(term@),
    {
        self.counts.key_at(i)
    }

    /// The count of the term at position `i`.
    pub fn count_at(&self, i: usize) -> (n: u64)
        requires
            self.wf(),
            i < self.term_seq().len(),
        ensures
            self@.contains_key(self.term_seq()[i as int]),
            n == self@[self.term_seq()[i as int]],
    {
        let term = self.counts.key_at(i);
        *self.counts.value_at(i)
    }
}

} // verus!
