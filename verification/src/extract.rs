//! Text extraction: from the events of reading a document to its character
//! data.
//!
//! Parsing is not done here. Whoever reads the document hands in its events,
//! one `XmlStep` each; this module decides what is made of them: the text
//! fragments are joined, markup is dropped, and the first fault ends the
//! extraction.

use vstd::prelude::*;
use vstd::string::StringExecFns;

verus! {

/// One event of reading a document, reduced to what extraction needs.
#[derive(Clone, Debug, PartialEq, Eq)]
pub enum XmlStep {
    /// Character data outside of tags.
    Text(String),
    /// Anything else that is well formed: tags, comments, declarations.
    Markup,
    /// The document is malformed at this place.
    Fault { row: u64, column: u64, message: String },
}

/// The mathematical content of an `XmlStep`.
pub enum StepView {
    Text(Seq<char>),
    Markup,
    Fault { row: nat, column: nat, message: Seq<char> },
}

impl View for XmlStep {
    type V = StepView;

    open spec fn view(&self) -> StepView {
        match self {
            XmlStep::Text(text) => StepView::Text(text@),
            XmlStep::Markup => StepView::Markup,
            XmlStep::Fault { row, column, message } => StepView::Fault {
                row: *row as nat,
                column: *column as nat,
                message: message@,
            },
        }
    }
}

/// The contents of a list of steps.
pub open spec fn step_views(steps: Seq<XmlStep>) -> Seq<StepView> {
    steps.map_values(|step: XmlStep| step@)
}

/// Why no text could be extracted from a document.
#[derive(Clone, Debug, PartialEq, Eq)]
pub struct ExtractionError {
    /// Where in the document the fault lies: row and column, both counted
    /// from zero. `None` where the fault has no place in the document.
    pub position: Option<(u64, u64)>,
    /// What was wrong.
    pub message: String,
}

/// The text fragments among the steps, in order.
pub open spec fn fragments(steps: Seq<StepView>) -> Seq<Seq<char>>
    decreases steps.len(),
{
    if steps.len() == 0 {
        Seq::empty()
    } else {
        let front = fragments(steps.drop_last());
        match steps.last() {
            StepView::Text(text) => front.push(text),
            _ => front,
        }
    }
}

/// The fragments written one after the other, with one space between each
/// two neighbours.
pub open spec fn joined(parts: Seq<Seq<char>>) -> Seq<char>
    decreases parts.len(),
{
    if parts.len() == 0 {
        Seq::empty()
    } else if parts.len() == 1 {
        parts[0]
    } else {
        joined(parts.drop_last()) + seq![' '] + parts.last()
    }
}

/// No step among these is a fault.
pub open spec fn faultless(steps: Seq<StepView>) -> bool {
    forall|j: int| 0 <= j < steps.len() ==> !((#[trigger] steps[j]) is Fault)
}

/// The step at position `i` is the first fault, and `error` reports it.
pub open spec fn first_fault_at(steps: Seq<StepView>, i: int, error: ExtractionError) -> bool {
    &&& 0 <= i < steps.len()
    &&& faultless(steps.take(i))
    &&& error.position matches Some(place)
    &&& steps[i] == (StepView::Fault {
        row: place.0 as nat,
        column: place.1 as nat,
        message: error.message@,
    })
}

/// What extraction owes for a list of steps. Without a fault it is the joined
/// text fragments; with one it is the first fault, with its position and its
/// message.
pub open spec fn extraction_of(steps: Seq<StepView>, outcome: Result<String, ExtractionError>) -> bool {
    match outcome {
        Ok(text) => faultless(steps) && text@ == joined(fragments(steps)),
        Err(error) => exists|i: int| #[trigger] first_fault_at(steps, i, error),
    }
}

/// Extracts the text from the events of a document: the character data of
/// the document, fragment by fragment, with a single space between
/// consecutive fragments and no markup. A fault ends the extraction: the
/// first one is reported and no text is returned.
pub fn extract_from_steps(steps: &Vec<XmlStep>) -> (outcome: Result<String, ExtractionError>)
    ensures
        extraction_of(step_views(steps@), outcome),
{
    let ghost views = step_views(steps@);
    let mut text = String::new();
    let mut first = true;
    let mut i: usize = 0;
    while i < steps.len()
        invariant
            i <= steps@.len(),
            views == step_views(steps@),
            faultless(views.take(i as int)),
            text@ == joined(fragments(views.take(i as int))),
            first <==> fragments(views.take(i as int)).len() == 0,
        decreases steps@.len() - i,
    {
        proof {
            assert(views.take(i + 1).drop_last() =~= views.take(i as int));
            assert(views.take(i + 1).last() == steps@[i as int]@);
        }
        let ghost parts = fragments(views.take(i as int));
        match &steps[i] {
            XmlStep::Text(fragment) => {
                proof {
                    assert(parts.push(fragment@).drop_last() =~= parts);
                }
                if !first {
                    text.push(' ');
                }
                text.append(fragment.as_str());
                first = false;
                assert(text@ =~= joined(parts.push(fragment@)));
            },
            XmlStep::Markup => {},
            XmlStep::Fault { row, column, message } => {
                let error = ExtractionError {
                    position: Some((*row, *column)),
                    message: message.clone(),
                };
                assert(views[i as int] == steps@[i as int]@);
                assert(first_fault_at(views, i as int, error));
                return Err(error);
            },
        }
        i += 1;
    }
    assert(views.take(i as int) =~= views);
    Ok(text)
}

} // verus!
