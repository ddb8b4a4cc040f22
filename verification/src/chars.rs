//! Character classes and case folding.
//!
//! The classes and the upper-case mapping come from the standard library's
//! Unicode tables, which are far too large to restate. Each table is given a
//! name here. What is decided over the tables' answers is decided by functions
//! that take those answers as plain values.

use vstd::prelude::*;

verus! {

/// The Unicode `White_Space` property, as `char::is_whitespace` reports it.
pub uninterp spec fn unicode_whitespace(c: char) -> bool;

/// Membership in one of the Unicode number categories (`Nd`, `Nl`, `No`), as
/// `char::is_numeric` reports it.
pub uninterp spec fn unicode_numeric(c: char) -> bool;

/// The Unicode `Alphabetic` property, as `char::is_alphabetic` reports it.
pub uninterp spec fn unicode_alphabetic(c: char) -> bool;

/// The Unicode upper-case mapping of a character, as `char::to_uppercase`
/// yields it: the character itself where it has no upper-case form, one
/// character for most letters, several for a few.
pub uninterp spec fn unicode_upper(c: char) -> Seq<char>;

/// Trusted: `char::is_whitespace` is a function of the character alone; its
/// answer is what `unicode_whitespace` names.
pub assume_specification[ char::is_whitespace ](c: char) -> (b: bool)
    ensures
        b == unicode_whitespace(c),
;

/// Trusted: `char::is_numeric` is a function of the character alone; its
/// answer is what `unicode_numeric` names.
pub assume_specification[ char::is_numeric ](c: char) -> (b: bool)
    ensures
        b == unicode_numeric(c),
;

/// Trusted: `char::is_alphabetic` is a function of the character alone; its
/// answer is what `unicode_alphabetic` names.
pub assume_specification[ char::is_alphabetic ](c: char) -> (b: bool)
    ensures
        b == unicode_alphabetic(c),
;

/// Trusted: `char::to_uppercase` yields a sequence of characters that depends
/// on the character alone; that sequence is what `unicode_upper` names.
#[verifier::external_body]
fn upper_case(c: char) -> (upper: Vec<char>)
    ensures
        upper@ == unicode_upper(c),
{
    c.to_uppercase().collect()
}

/// What the tables say of one character.
#[derive(Clone, Copy, Debug, PartialEq, Eq, Structural)]
pub struct CharClass {
    /// The character is white space.
    pub space: bool,
    /// The character is numeric.
    pub numeric: bool,
    /// The character is alphabetic.
    pub alphabetic: bool,
}

impl CharClass {
    /// A separator: never part of a token.
    pub open spec fn is_space(self) -> bool {
        self.space
    }

    /// A character that a numeric run is made of. White space is ruled out
    /// first, so a run never swallows a separator.
    pub open spec fn is_digit(self) -> bool {
        !self.space && self.numeric
    }

    /// A character that an alphabetic run is made of. White space is ruled
    /// out first, so a run never swallows a separator.
    pub open spec fn is_letter(self) -> bool {
        !self.space && self.alphabetic
    }
}

/// The class of a character.
pub open spec fn class_of(c: char) -> CharClass {
    CharClass {
        space: unicode_whitespace(c),
        numeric: unicode_numeric(c),
        alphabetic: unicode_alphabetic(c),
    }
}

/// The classes of the characters of a text, one for one.
pub open spec fn classes_of(s: Seq<char>) -> Seq<CharClass> {
    s.map_values(|c: char| class_of(c))
}

/// A separator: never part of a token.
pub open spec fn is_space(c: char) -> bool {
    class_of(c).is_space()
}

/// A character that a numeric run is made of.
pub open spec fn is_digit(c: char) -> bool {
    class_of(c).is_digit()
}

/// A character that an alphabetic run is made of.
pub open spec fn is_letter(c: char) -> bool {
    class_of(c).is_letter()
}

/// Looks a character up in the tables.
pub fn classify(c: char) -> (class: CharClass)
    ensures
        class == class_of(c),
{
    CharClass { space: c.is_whitespace(), numeric: c.is_numeric(), alphabetic: c.is_alphabetic() }
}

/// Looks every character of a text up in the tables.
pub fn classify_all(text: &[char]) -> (classes: Vec<CharClass>)
    ensures
        classes@ == classes_of(text@),
{
    let mut classes: Vec<CharClass> = Vec::new();
    let mut i: usize = 0;
    while i < text.len()
        invariant
            i <= text@.len(),
            classes@ == classes_of(text@.take(i as int)),
        decreases text@.len() - i,
    {
        classes.push(classify(text[i]));
        assert(classes@ =~= classes_of(text@.take(i + 1)));
        i += 1;
    }
    assert(text@.take(i as int) =~= text@);
    classes
}

/// Tells whether `c` separates tokens.
pub fn char_is_space(c: char) -> (b: bool)
    ensures
        b == is_space(c),
{
    c.is_whitespace()
}

/// Tells whether `c` can stand in a numeric run.
pub fn char_is_digit(c: char) -> (b: bool)
    ensures
        b == is_digit(c),
{
    !c.is_whitespace() && c.is_numeric()
}

/// Tells whether `c` can stand in an alphabetic run.
pub fn char_is_letter(c: char) -> (b: bool)
    ensures
        b == is_letter(c),
{
    !c.is_whitespace() && c.is_alphabetic()
}

/// Whether one of the classes is white space.
pub open spec fn holds_space(classes: Seq<CharClass>) -> bool {
    exists|i: int| 0 <= i < classes.len() && (#[trigger] classes[i]).space
}

/// The fold of a character, given its upper-case mapping and the classes of
/// that mapping: the mapping as it is. A mapping that is empty or holds white
/// space is not taken, and the character stays as it is, so that folding can
/// neither delete part of a token nor turn it into a separator.
pub open spec fn guarded(c: char, upper: Seq<char>, classes: Seq<CharClass>) -> Seq<char> {
    if upper.len() == 0 || holds_space(classes) {
        seq![c]
    } else {
        upper
    }
}

/// The canonical form of a character: its Unicode upper-case mapping, which
/// may be more than one character long.
pub open spec fn fold(c: char) -> Seq<char> {
    guarded(c, unicode_upper(c), classes_of(unicode_upper(c)))
}

/// Folding never yields nothing, leaves what is no white space free of white
/// space, and leaves a character alone that is its own upper-case form.
pub proof fn lemma_fold_is_stable(c: char)
    ensures
        fold(c).len() >= 1,
        !is_space(c) ==> forall|k: int| 0 <= k < fold(c).len() ==> !is_space(#[trigger] fold(c)[k]),
        unicode_upper(c) == seq![c] ==> fold(c) == seq![c],
{
    let upper = unicode_upper(c);
    let classes = classes_of(upper);
    if !is_space(c) && !(upper.len() == 0 || holds_space(classes)) {
        assert forall|k: int| 0 <= k < upper.len() implies !is_space(#[trigger] upper[k]) by {
            assert(classes[k] == class_of(upper[k]));
        }
    }
}

/// Tells whether one of the classes is white space.
pub fn any_space(classes: &[CharClass]) -> (found: bool)
    ensures
        found == holds_space(classes@),
{
    let mut i: usize = 0;
    while i < classes.len()
        invariant
            i <= classes@.len(),
            forall|j: int| 0 <= j < i ==> !(#[trigger] classes@[j]).space,
        decreases classes@.len() - i,
    {
        if classes[i].space {
            return true;
        }
        i += 1;
    }
    false
}

/// Decides the fold of a character from its upper-case mapping and the
/// classes of that mapping.
pub fn guard_fold(c: char, upper: Vec<char>, classes: &[CharClass]) -> (folded: Vec<char>)
    ensures
        folded@ == guarded(c, upper@, classes@),
{
    if upper.len() == 0 || any_space(classes) {
        let mut kept: Vec<char> = Vec::new();
        kept.push(c);
        assert(kept@ =~= seq![c]);
        kept
    } else {
        upper
    }
}

/// Folds one character to its canonical form.
pub fn fold_char(c: char) -> (folded: Vec<char>)
    ensures
        folded@ == fold(c),
{
    let upper = upper_case(c);
    let classes = classify_all(upper.as_slice());
    guard_fold(c, upper, classes.as_slice())
}

} // verus!
