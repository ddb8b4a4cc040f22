//! The tokenizer: a pull-style scanner over decoded text.
//!
//! A token is a maximal run of digits, a maximal run of letters, or one single
//! character that is neither; white space separates tokens and belongs to none.
//! Where a token starts and ends depends on the classes of the characters
//! alone, so the scanning is done over classes; the text comes in only when a
//! token is cut out of it.

use crate::chars::{class_of, classes_of, classify_all, is_digit, is_letter, is_space, CharClass};
use crate::text::{
    canonical_form, canonicalize, lemma_canonical_form_add, lemma_canonical_form_holds_no_space,
    lemma_canonical_form_len, string_of,
};
use vstd::prelude::*;

verus! {

/// The three kinds of run that the scanner follows to their end.
#[derive(Clone, Copy, Debug, PartialEq, Eq, Structural)]
pub enum Run {
    Spaces,
    Digits,
    Letters,
}

/// Whether a character of class `k` can stand in a run of the given kind.
pub open spec fn in_run(run: Run, k: CharClass) -> bool {
    match run {
        Run::Spaces => k.is_space(),
        Run::Digits => k.is_digit(),
        Run::Letters => k.is_letter(),
    }
}

/// The first position at or after `from` that holds no character of `run`;
/// the length of the text where the run reaches the end.
pub open spec fn run_end(ks: Seq<CharClass>, from: int, run: Run) -> int
    decreases ks.len() - from,
{
    if 0 <= from < ks.len() && in_run(run, ks[from]) {
        run_end(ks, from + 1, run)
    } else {
        from
    }
}

/// The position just past the token that starts at `start`. A character that
/// is both numeric and alphabetic starts a numeric run.
pub open spec fn token_end(ks: Seq<CharClass>, start: int) -> int {
    if ks[start].is_digit() {
        run_end(ks, start + 1, Run::Digits)
    } else if ks[start].is_letter() {
        run_end(ks, start + 1, Run::Letters)
    } else {
        start + 1
    }
}

/// The position where the next token at or after `from` starts; the length of
/// the text where only white space is left.
pub open spec fn token_start(ks: Seq<CharClass>, from: int) -> int {
    run_end(ks, from, Run::Spaces)
}

/// The spans of the tokens that start at or after `from`, in order: for each
/// token the position where it starts and the position just past its end.
pub open spec fn spans_from(ks: Seq<CharClass>, from: int) -> Seq<(int, int)>
    decreases ks.len() - from,
{
    let start = token_start(ks, from);
    if 0 <= from && start < ks.len() {
        proof {
            lemma_run_end_bounds(ks, from, Run::Spaces);
            lemma_token_end_bounds(ks, start);
        }
        seq![(start, token_end(ks, start))] + spans_from(ks, token_end(ks, start))
    } else {
        Seq::empty()
    }
}

/// The tokens of `s` that start at or after `from`, in order.
pub open spec fn tokens_from(s: Seq<char>, from: int) -> Seq<Seq<char>>
    decreases s.len() - from,
{
    let ks = classes_of(s);
    let start = token_start(ks, from);
    if 0 <= from && start < s.len() {
        proof {
            lemma_run_end_bounds(ks, from, Run::Spaces);
            lemma_token_end_bounds(ks, start);
        }
        seq![s.subrange(start, token_end(ks, start))] + tokens_from(s, token_end(ks, start))
    } else {
        Seq::empty()
    }
}

/// The tokens of `s`, in order, as they stand in the text.
pub open spec fn raw_tokens(s: Seq<char>) -> Seq<Seq<char>> {
    tokens_from(s, 0)
}

/// A run ends at or after the place it was followed from, and within the text.
pub proof fn lemma_run_end_bounds(ks: Seq<CharClass>, from: int, run: Run)
    requires
        0 <= from <= ks.len(),
    ensures
        from <= run_end(ks, from, run) <= ks.len(),
        run_end(ks, from, run) < ks.len() ==> !in_run(run, ks[run_end(ks, from, run)]),
        forall|k: int| from <= k < run_end(ks, from, run) ==> in_run(run, #[trigger] ks[k]),
    decreases ks.len() - from,
{
    if from < ks.len() && in_run(run, ks[from]) {
        lemma_run_end_bounds(ks, from + 1, run);
    }
}

/// A token holds at least one character and ends within the text.
pub proof fn lemma_token_end_bounds(ks: Seq<CharClass>, start: int)
    requires
        0 <= start < ks.len(),
    ensures
        start < token_end(ks, start) <= ks.len(),
{
    lemma_run_end_bounds(ks, start + 1, Run::Digits);
    lemma_run_end_bounds(ks, start + 1, Run::Letters);
}

/// The tokens of a text are what its spans cut out of it.
pub proof fn lemma_tokens_are_spans(s: Seq<char>, from: int)
    requires
        0 <= from <= s.len(),
    ensures
        tokens_from(s, from) == spans_from(classes_of(s), from).map_values(
            |span: (int, int)| s.subrange(span.0, span.1),
        ),
    decreases s.len() - from,
{
    let ks = classes_of(s);
    let cut = |span: (int, int)| s.subrange(span.0, span.1);
    lemma_run_end_bounds(ks, from, Run::Spaces);
    let start = token_start(ks, from);
    if start < s.len() {
        lemma_token_end_bounds(ks, start);
        let end = token_end(ks, start);
        lemma_tokens_are_spans(s, end);
        assert(tokens_from(s, from) =~= spans_from(ks, from).map_values(cut));
    } else {
        assert(tokens_from(s, from) =~= spans_from(ks, from).map_values(cut));
    }
}

/// Past the end of the text no token is left.
proof fn lemma_settled_at_end(s: Seq<char>, from: int)
    requires
        token_start(classes_of(s), from) >= s.len(),
    ensures
        tokens_from(s, from).len() == 0,
{
}

/// What every token looks like: it is not empty, holds no white space, and is
/// made of digits only, of letters only, or of one character that is neither.
pub open spec fn is_token(t: Seq<char>) -> bool {
    &&& t.len() > 0
    &&& forall|k: int| 0 <= k < t.len() ==> !is_space(#[trigger] t[k])
    &&& {
        ||| forall|k: int| 0 <= k < t.len() ==> is_digit(#[trigger] t[k])
        ||| forall|k: int| 0 <= k < t.len() ==> is_letter(#[trigger] t[k])
        ||| t.len() == 1 && !is_digit(t[0]) && !is_letter(t[0])
    }
}

/// A text with its white space left out.
pub open spec fn without_spaces(s: Seq<char>) -> Seq<char> {
    s.filter(|c: char| !is_space(c))
}

/// The token that starts at a position that holds no white space is a token
/// in the sense of `is_token`.
pub proof fn lemma_token_shape(s: Seq<char>, start: int)
    requires
        0 <= start < s.len(),
        !is_space(s[start]),
    ensures
        is_token(s.subrange(start, token_end(classes_of(s), start))),
{
    let ks = classes_of(s);
    lemma_token_end_bounds(ks, start);
    lemma_run_end_bounds(ks, start + 1, Run::Digits);
    lemma_run_end_bounds(ks, start + 1, Run::Letters);
    let end = token_end(ks, start);
    let t = s.subrange(start, end);
    assert(ks[start] == class_of(s[start]));
    assert forall|k: int| 0 <= k < t.len() implies {
        &&& !is_space(#[trigger] t[k])
        &&& is_digit(s[start]) ==> is_digit(t[k])
        &&& !is_digit(s[start]) && is_letter(s[start]) ==> is_letter(t[k])
    } by {
        assert(t[k] == s[start + k]);
        assert(ks[start + k] == class_of(s[start + k]));
    }
}

/// A run is followed to its end: the character after a numeric token is no
/// digit, and the character after an alphabetic token is no letter.
pub proof fn lemma_token_is_maximal(s: Seq<char>, start: int)
    requires
        0 <= start < s.len(),
        token_end(classes_of(s), start) < s.len(),
    ensures
        is_digit(s[start]) ==> !is_digit(s[token_end(classes_of(s), start)]),
        !is_digit(s[start]) && is_letter(s[start]) ==> !is_letter(
            s[token_end(classes_of(s), start)],
        ),
{
    let ks = classes_of(s);
    lemma_run_end_bounds(ks, start + 1, Run::Digits);
    lemma_run_end_bounds(ks, start + 1, Run::Letters);
    assert(ks[start] == class_of(s[start]));
    assert(ks[token_end(ks, start)] == class_of(s[token_end(ks, start)]));
}

/// Every token of a text has the shape that `is_token` describes: tokens are
/// never empty, never hold white space and never mix digits with letters.
pub proof fn lemma_tokens_are_tokens(s: Seq<char>, from: int)
    requires
        0 <= from <= s.len(),
    ensures
        forall|i: int|
            0 <= i < tokens_from(s, from).len() ==> is_token(#[trigger] tokens_from(s, from)[i]),
    decreases s.len() - from,
{
    let ks = classes_of(s);
    lemma_run_end_bounds(ks, from, Run::Spaces);
    let start = token_start(ks, from);
    if start < s.len() {
        assert(ks[start] == class_of(s[start]));
        lemma_token_end_bounds(ks, start);
        lemma_token_shape(s, start);
        let end = token_end(ks, start);
        lemma_tokens_are_tokens(s, end);
        let tail = tokens_from(s, end);
        assert forall|i: int| 0 <= i < tokens_from(s, from).len() implies is_token(
            #[trigger] tokens_from(s, from)[i],
        ) by {
            if i > 0 {
                assert(tokens_from(s, from)[i] == tail[i - 1]);
            }
        }
    }
}

/// Filtering leaves nothing of a sequence none of whose items passes.
proof fn lemma_filter_none<A>(s: Seq<A>, pred: spec_fn(A) -> bool)
    requires
        forall|k: int| 0 <= k < s.len() ==> !pred(#[trigger] s[k]),
    ensures
        s.filter(pred) == Seq::<A>::empty(),
    decreases s.len(),
{
    reveal(Seq::filter);
    if s.len() > 0 {
        lemma_filter_none(s.drop_last(), pred);
    }
}

/// Filtering leaves a sequence unchanged when all of its items pass.
proof fn lemma_filter_all<A>(s: Seq<A>, pred: spec_fn(A) -> bool)
    requires
        forall|k: int| 0 <= k < s.len() ==> pred(#[trigger] s[k]),
    ensures
        s.filter(pred) == s,
    decreases s.len(),
{
    reveal(Seq::filter);
    if s.len() > 0 {
        lemma_filter_all(s.drop_last(), pred);
        assert(s.drop_last().push(s.last()) =~= s);
    }
}

/// The tokens from a position on, written one after the other, are the text
/// from that position on with its white space left out.
pub proof fn lemma_tokens_cover_from(s: Seq<char>, from: int)
    requires
        0 <= from <= s.len(),
    ensures
        tokens_from(s, from).flatten() == without_spaces(s.skip(from)),
    decreases s.len() - from,
{
    let ks = classes_of(s);
    let keep = |c: char| !is_space(c);
    lemma_run_end_bounds(ks, from, Run::Spaces);
    let start = token_start(ks, from);
    let gap = s.subrange(from, start);
    assert forall|k: int| 0 <= k < gap.len() implies !keep(#[trigger] gap[k]) by {
        assert(gap[k] == s[from + k]);
        assert(ks[from + k] == class_of(s[from + k]));
    }
    lemma_filter_none(gap, keep);
    if start < s.len() {
        assert(ks[start] == class_of(s[start]));
        lemma_token_end_bounds(ks, start);
        lemma_token_shape(s, start);
        let end = token_end(ks, start);
        let head = s.subrange(start, end);
        let tail = tokens_from(s, end);
        lemma_tokens_cover_from(s, end);
        lemma_filter_all(head, keep);
        assert(s.skip(from) =~= gap + (head + s.skip(end)));
        Seq::filter_distributes_over_add(gap, head + s.skip(end), keep);
        Seq::filter_distributes_over_add(head, s.skip(end), keep);
        assert((seq![head] + tail).drop_first() =~= tail);
        assert(tokens_from(s, from).flatten() =~= head + tail.flatten());
    } else {
        assert(s.skip(from) =~= gap);
        assert(tokens_from(s, from).flatten() =~= Seq::<char>::empty());
    }
}

/// The tokenizer neither invents nor reorders text: no token holds white
/// space, and the tokens of a text, written one after the other, are exactly
/// the text with its white space left out.
pub proof fn lemma_tokens_partition_text(s: Seq<char>)
    ensures
        forall|i: int| 0 <= i < raw_tokens(s).len() ==> is_token(#[trigger] raw_tokens(s)[i]),
        forall|i: int, k: int|
            0 <= i < raw_tokens(s).len() && 0 <= k < raw_tokens(s)[i].len() ==> !is_space(
                #[trigger] raw_tokens(s)[i][k],
            ),
        raw_tokens(s).flatten() == without_spaces(s),
{
    lemma_tokens_are_tokens(s, 0);
    lemma_tokens_cover_from(s, 0);
    assert(s.skip(0) =~= s);
}

/// Tells whether a character of class `k` can stand in a run of the given
/// kind.
fn class_in_run(run: Run, k: CharClass) -> (b: bool)
    ensures
        b == in_run(run, k),
{
    match run {
        Run::Spaces => k.space,
        Run::Digits => !k.space && k.numeric,
        Run::Letters => !k.space && k.alphabetic,
    }
}

/// Follows a run from `from` to its end.
fn scan_run(classes: &[CharClass], from: usize, run: Run) -> (end: usize)
    requires
        from <= classes@.len(),
    ensures
        end == run_end(classes@, from as int, run),
        from <= end <= classes@.len(),
{
    let mut i: usize = from;
    while i < classes.len() && class_in_run(run, classes[i])
        invariant
            from <= i <= classes@.len(),
            run_end(classes@, from as int, run) == run_end(classes@, i as int, run),
        decreases classes@.len() - i,
    {
        i += 1;
    }
    i
}

/// Finds the next token at or after `from` among characters of the given
/// classes: the position where it starts and the position just past its end,
/// or `None` where only white space is left.
pub fn next_span(classes: &[CharClass], from: usize) -> (span: Option<(usize, usize)>)
    ensures
        match span {
            Some((start, end)) => {
                &&& start == token_start(classes@, from as int)
                &&& end == token_end(classes@, start as int)
                &&& from <= start < end <= classes@.len()
            },
            None => token_start(classes@, from as int) >= classes@.len(),
        },
{
    if from >= classes.len() {
        return None;
    }
    let start = scan_run(classes, from, Run::Spaces);
    if start >= classes.len() {
        return None;
    }
    let first = classes[start];
    let end = if class_in_run(Run::Digits, first) {
        scan_run(classes, start + 1, Run::Digits)
    } else if class_in_run(Run::Letters, first) {
        scan_run(classes, start + 1, Run::Letters)
    } else {
        start + 1
    };
    Some((start, end))
}

/// The spans as mathematical pairs.
pub open spec fn span_views(spans: Seq<(usize, usize)>) -> Seq<(int, int)> {
    spans.map_values(|span: (usize, usize)| (span.0 as int, span.1 as int))
}

/// Finds all tokens among characters of the given classes: their spans, in
/// order.
pub fn token_spans(classes: &[CharClass]) -> (spans: Vec<(usize, usize)>)
    ensures
        span_views(spans@) == spans_from(classes@, 0),
{
    let mut spans: Vec<(usize, usize)> = Vec::new();
    let mut from: usize = 0;
    loop
        invariant
            from <= classes@.len(),
            span_views(spans@) + spans_from(classes@, from as int) == spans_from(classes@, 0),
        ensures
            span_views(spans@) == spans_from(classes@, 0),
        decreases classes@.len() - from,
    {
        let ghost found = span_views(spans@);
        match next_span(classes, from) {
            Some((start, end)) => {
                spans.push((start, end));
                proof {
                    let rest = spans_from(classes@, end as int);
                    assert(span_views(spans@) =~= found.push((start as int, end as int)));
                    assert(found + (seq![(start as int, end as int)] + rest) =~= found.push(
                        (start as int, end as int),
                    ) + rest);
                }
                from = end;
            },
            None => {
                assert(found + spans_from(classes@, from as int) =~= found);
                break ;
            },
        }
    }
    spans
}

/// A scanner over a decoded text. Each call of `next_token` hands out the
/// next token and moves past it; a token once handed out is not seen again.
pub struct Lexer<'a> {
    content: &'a [char],
    classes: Vec<CharClass>,
    pos: usize,
}

impl<'a> Lexer<'a> {
    #[verifier::type_invariant]
    spec fn within_text(&self) -> bool {
        &&& self.pos <= self.content@.len()
        &&& self.classes@ == classes_of(self.content@)
    }

    /// The text that the scanner was made for.
    pub closed spec fn source(&self) -> Seq<char> {
        self.content@
    }

    /// The position up to which the text has been consumed.
    pub closed spec fn position(&self) -> int {
        self.pos as int
    }

    /// The tokens that are still to come, in order.
    pub open spec fn pending(&self) -> Seq<Seq<char>> {
        tokens_from(self.source(), self.position())
    }

    /// A scanner at the start of `content`.
    pub fn new(content: &'a [char]) -> (lexer: Self)
        ensures
            lexer.source() == content@,
            lexer.position() == 0,
            lexer.pending() == raw_tokens(content@),
    {
        Lexer { content, classes: classify_all(content), pos: 0 }
    }

    /// Hands out the next token as it stands in the text, or `None` once only
    /// white space is left.
    pub fn next_token(&mut self) -> (token: Option<String>)
        ensures
            final(self).source() == old(self).source(),
            old(self).position() <= final(self).position() <= old(self).source().len(),
            match token {
                Some(t) => {
                    &&& old(self).pending().len() > 0
                    &&& t@ == old(self).pending()[0]
                    &&& is_token(t@)
                    &&& final(self).pending() == old(self).pending().drop_first()
                },
                None => {
                    &&& old(self).pending().len() == 0
                    &&& final(self).pending().len() == 0
                },
            },
    {
        proof {
            use_type_invariant(&*self);
        }
        let content = self.content;
        match next_span(self.classes.as_slice(), self.pos) {
            None => {
                proof {
                    lemma_settled_at_end(content@, self.pos as int);
                }
                None
            },
            Some((start, end)) => {
                let token = string_of(content, start, end);
                proof {
                    let ks = classes_of(content@);
                    let rest = tokens_from(content@, end as int);
                    assert((seq![token@] + rest).drop_first() =~= rest);
                    lemma_run_end_bounds(ks, self.pos as int, Run::Spaces);
                    assert(ks[start as int] == class_of(content@[start as int]));
                    lemma_token_shape(content@, start as int);
                }
                self.pos = end;
                Some(token)
            },
        }
    }
}

/// The canonical tokens of a text: its tokens, each folded to upper case.
pub open spec fn canonical_tokens(s: Seq<char>) -> Seq<Seq<char>> {
    raw_tokens(s).map_values(|t: Seq<char>| canonical_form(t))
}

/// Folding token by token is folding the tokens' text as a whole.
proof fn lemma_fold_of_flatten(tokens: Seq<Seq<char>>)
    ensures
        tokens.map_values(|t: Seq<char>| canonical_form(t)).flatten() == canonical_form(
            tokens.flatten(),
        ),
    decreases tokens.len(),
{
    let folded = tokens.map_values(|t: Seq<char>| canonical_form(t));
    if tokens.len() == 0 {
        assert(folded.flatten() =~= canonical_form(tokens.flatten()));
    } else {
        let rest = tokens.drop_first();
        lemma_fold_of_flatten(rest);
        assert(folded.drop_first() =~= rest.map_values(|t: Seq<char>| canonical_form(t)));
        assert(folded.first() == canonical_form(tokens.first()));
        lemma_canonical_form_add(tokens.first(), rest.flatten());
    }
}

/// What holds of the tokens as they stand in the text holds of their
/// canonical forms too. The canonical tokens are the tokens folded one by
/// one; none of them is empty and none holds white space; and written one
/// after the other they are the folded text with its white space left out:
/// folding neither drops nor moves a character.
pub proof fn lemma_canonical_tokens_partition_text(s: Seq<char>)
    ensures
        canonical_tokens(s).len() == raw_tokens(s).len(),
        forall|i: int|
            0 <= i < raw_tokens(s).len() ==> #[trigger] canonical_tokens(s)[i] == canonical_form(
                raw_tokens(s)[i],
            ),
        forall|i: int|
            0 <= i < canonical_tokens(s).len() ==> (#[trigger] canonical_tokens(s)[i]).len() > 0,
        forall|i: int, k: int|
            0 <= i < canonical_tokens(s).len() && 0 <= k < canonical_tokens(s)[i].len()
                ==> !is_space(#[trigger] canonical_tokens(s)[i][k]),
        canonical_tokens(s).flatten() == canonical_form(without_spaces(s)),
{
    lemma_tokens_partition_text(s);
    lemma_fold_of_flatten(raw_tokens(s));
    assert forall|i: int| 0 <= i < canonical_tokens(s).len() implies {
        &&& (#[trigger] canonical_tokens(s)[i]).len() > 0
        &&& forall|k: int|
            0 <= k < canonical_tokens(s)[i].len() ==> !is_space(
                #[trigger] canonical_tokens(s)[i][k],
            )
    } by {
        assert(is_token(raw_tokens(s)[i]));
        lemma_canonical_form_holds_no_space(raw_tokens(s)[i]);
        lemma_canonical_form_len(raw_tokens(s)[i]);
    }
}

/// Tokenizes a decoded text and folds each token to its canonical form. This
/// is the one normalization that both indexing and querying go through.
pub fn tokenize(text: &[char]) -> (terms: Vec<String>)
    ensures
        terms.deep_view() == canonical_tokens(text@),
        forall|i: int, k: int|
            0 <= i < terms@.len() && 0 <= k < terms@[i]@.len() ==> !is_space(
                #[trigger] terms@[i]@[k],
            ),
{
    let mut lexer = Lexer::new(text);
    let mut terms: Vec<String> = Vec::new();
    loop
        invariant
            lexer.source() == text@,
            terms.deep_view() + lexer.pending().map_values(|t: Seq<char>| canonical_form(t))
                == canonical_tokens(text@),
        ensures
            lexer.pending().len() == 0,
        decreases lexer.pending().len(),
    {
        let ghost before = terms.deep_view();
        let ghost pending = lexer.pending();
        match lexer.next_token() {
            Some(token) => {
                let term = canonicalize(token.as_str());
                terms.push(term);
                assert(terms.deep_view() =~= before.push(canonical_form(pending[0])));
                assert(before + pending.map_values(|t: Seq<char>| canonical_form(t))
                    =~= before.push(canonical_form(pending[0])) + pending.drop_first().map_values(
                    |t: Seq<char>| canonical_form(t),
                ));
            },
            None => {
                break ;
            },
        }
    }
    proof {
        assert(terms.deep_view() + lexer.pending().map_values(|t: Seq<char>| canonical_form(t))
            =~= terms.deep_view());
        lemma_canonical_tokens_partition_text(text@);
        assert forall|i: int, k: int|
            0 <= i < terms@.len() && 0 <= k < terms@[i]@.len() implies !is_space(
            #[trigger] terms@[i]@[k],
        ) by {
            assert(terms@[i]@ == terms.deep_view()[i]);
        }
    }
    terms
}

} // verus!
