//! Moving between strings and decoded character sequences.

use crate::chars::{fold, fold_char, is_space, lemma_fold_is_stable, unicode_upper};
use vstd::prelude::*;
use vstd::string::StringSliceAdditionalSpecFns;
use vstd::utf8::{decode_utf8, encode_utf8_decode_utf8, valid_utf8};

verus! {

/// Trusted: `String::push` appends the one character to the end of the string
/// and changes nothing else, as its documentation says.
pub assume_specification[ String::push ](s: &mut String, ch: char)
    ensures
        final(s)@ == old(s)@.push(ch),
;

/// Trusted: two string slices are equal under `==` exactly when they hold the
/// same characters.
pub assume_specification[ <str as PartialEq>::eq ](a: &str, b: &str) -> (same: bool)
    ensures
        same == (a@ == b@),
;

/// The error type of `core::str::from_utf8`, carried through as it is.
#[verifier::external_type_specification]
#[verifier::external_body]
pub struct ExUtf8Error(core::str::Utf8Error);

/// Trusted: `core::str::from_utf8` accepts exactly the byte sequences that
/// are valid UTF-8, and the string slice it returns is made of the very bytes
/// it was given, as its documentation says.
pub assume_specification[ core::str::from_utf8 ](bytes: &[u8]) -> (decoded: Result<
    &str,
    core::str::Utf8Error,
>)
    ensures
        decoded is Ok <==> valid_utf8(bytes@),
        decoded matches Ok(text) ==> text.spec_bytes() == bytes@,
;

/// Decodes UTF-8 into its sequence of Unicode scalar values; `None` where
/// the bytes are not valid UTF-8.
pub fn decode(bytes: &[u8]) -> (chars: Option<Vec<char>>)
    ensures
        match chars {
            Some(chars) => valid_utf8(bytes@) && chars@ == decode_utf8(bytes@),
            None => !valid_utf8(bytes@),
        },
{
    match core::str::from_utf8(bytes) {
        Ok(text) => {
            proof {
                encode_utf8_decode_utf8(text@);
            }
            Some(chars_of(text))
        },
        Err(_) => None,
    }
}

/// Decodes a string into its sequence of Unicode scalar values.
pub fn chars_of(text: &str) -> (chars: Vec<char>)
    ensures
        chars@ == text@,
{
    let mut chars: Vec<char> = Vec::new();
    for c in it: text.chars()
        invariant
            chars@ == it.seq().take(it.index()),
            it.seq() == text@,
    {
        chars.push(c);
    }
    chars
}

/// The characters of `content` from `start` up to `end`, as a string.
pub fn string_of(content: &[char], start: usize, end: usize) -> (s: String)
    requires
        start <= end <= content@.len(),
    ensures
        s@ == content@.subrange(start as int, end as int),
{
    let mut s = String::new();
    let mut i: usize = start;
    while i < end
        invariant
            start <= i <= end <= content@.len(),
            s@ == content@.subrange(start as int, i as int),
        decreases end - i,
    {
        s.push(content[i]);
        i += 1;
    }
    s
}

/// The canonical form of a token: the folds of its characters, one after the
/// other.
pub open spec fn canonical_form(token: Seq<char>) -> Seq<char>
    decreases token.len(),
{
    if token.len() == 0 {
        Seq::empty()
    } else {
        canonical_form(token.drop_last()) + fold(token.last())
    }
}

/// Folding a text piece by piece is folding it as a whole.
pub proof fn lemma_canonical_form_add(front: Seq<char>, back: Seq<char>)
    ensures
        canonical_form(front + back) == canonical_form(front) + canonical_form(back),
    decreases back.len(),
{
    if back.len() == 0 {
        assert(front + back =~= front);
        assert(canonical_form(front) + canonical_form(back) =~= canonical_form(front));
    } else {
        lemma_canonical_form_add(front, back.drop_last());
        assert((front + back).drop_last() =~= front + back.drop_last());
        assert((front + back).last() == back.last());
        assert(canonical_form(front + back) =~= canonical_form(front) + canonical_form(back));
    }
}

/// Folding loses nothing: the canonical form of a token is at least as long
/// as the token.
pub proof fn lemma_canonical_form_len(token: Seq<char>)
    ensures
        canonical_form(token).len() >= token.len(),
    decreases token.len(),
{
    if token.len() > 0 {
        lemma_canonical_form_len(token.drop_last());
        lemma_fold_is_stable(token.last());
    }
}

/// A token whose characters are all their own upper-case forms is its own
/// canonical form: what is folded already is not changed by folding again.
pub proof fn lemma_canonical_form_is_stable(token: Seq<char>)
    requires
        forall|k: int| 0 <= k < token.len() ==> unicode_upper(#[trigger] token[k]) == seq![token[k]],
    ensures
        canonical_form(token) == token,
    decreases token.len(),
{
    if token.len() > 0 {
        let front = token.drop_last();
        assert forall|k: int| 0 <= k < front.len() implies unicode_upper(#[trigger] front[k])
            == seq![front[k]] by {
            assert(front[k] == token[k]);
        }
        lemma_canonical_form_is_stable(front);
        lemma_fold_is_stable(token.last());
        assert(front + seq![token.last()] =~= token);
    }
}

/// Folding brings no white space into a token that holds none.
pub proof fn lemma_canonical_form_holds_no_space(token: Seq<char>)
    requires
        forall|k: int| 0 <= k < token.len() ==> !is_space(#[trigger] token[k]),
    ensures
        forall|k: int|
            0 <= k < canonical_form(token).len() ==> !is_space(#[trigger] canonical_form(token)[k]),
    decreases token.len(),
{
    if token.len() > 0 {
        let front = token.drop_last();
        assert forall|k: int| 0 <= k < front.len() implies !is_space(#[trigger] front[k]) by {
            assert(front[k] == token[k]);
        }
        lemma_canonical_form_holds_no_space(front);
        lemma_fold_is_stable(token.last());
        let folded = canonical_form(token);
        let head = canonical_form(front);
        assert forall|k: int| 0 <= k < folded.len() implies !is_space(#[trigger] folded[k]) by {
            if k < head.len() {
                assert(folded[k] == head[k]);
            } else {
                assert(folded[k] == fold(token.last())[k - head.len()]);
            }
        }
    }
}

/// Appends the characters of `more` to `s`.
fn push_all(s: &mut String, more: &Vec<char>)
    ensures
        final(s)@ == old(s)@ + more@,
{
    let mut i: usize = 0;
    while i < more.len()
        invariant
            i <= more@.len(),
            s@ == old(s)@ + more@.take(i as int),
        decreases more@.len() - i,
    {
        s.push(more[i]);
        assert(more@.take(i + 1) =~= more@.take(i as int).push(more@[i as int]));
        i += 1;
    }
    assert(more@.take(i as int) =~= more@);
}

/// Folds a token to its canonical form, the form under which it is counted
/// and looked up.
pub fn canonicalize(token: &str) -> (folded: String)
    ensures
        folded@ == canonical_form(token@),
{
    let mut folded = String::new();
    for c in it: token.chars()
        invariant
            folded@ == canonical_form(it.seq().take(it.index())),
            it.seq() == token@,
    {
        let ghost seen = it.seq().take(it.index());
        proof {
            assert(it.seq().take(it.index() + 1).drop_last() =~= seen);
        }
        let upper = fold_char(c);
        push_all(&mut folded, &upper);
    }
    proof {
        assert(token@.take(token@.len() as int) =~= token@);
    }
    folded
}

} // verus!
