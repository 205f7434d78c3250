//! What can be wrong with a shape, found when an emitter is generated.

use crate::text::{lemma_texts_push, texts};
use vstd::prelude::*;
use vstd::string::*;

verus! {

/// The member that an error is about: its position among the members of the
/// struct, or of the variant with the given position.
#[derive(Clone, Copy, Debug, PartialEq, Eq, Structural)]
pub struct Site {
    pub variant: Option<usize>,
    pub member: usize,
}

/// A reason why no emitter can be generated for a type.
#[derive(Clone, Copy, Debug, PartialEq, Eq, Structural)]
pub enum GenError {
    /// The type has generic parameters.
    UnsupportedShape,
    /// A member has a position in place of a name.
    UnnamedMember(Site),
    /// The type of a member cannot be asked to document itself.
    UnresolvableType(Site),
    /// A member asks for a default that nobody supplied: the default value
    /// of its type, or the value of a producer.
    UnresolvableDefault(Site),
}

impl GenError {
    /// The text of the diagnostic for this error.
    pub open spec fn message_text(self) -> Seq<char> {
        match self {
            GenError::UnsupportedShape => "Generic type is not supported"@,
            GenError::UnnamedMember(_) => "Unnamed member not supported"@,
            GenError::UnresolvableType(_) => "Unsupported member type"@,
            GenError::UnresolvableDefault(_) => "Unknown member default"@,
        }
    }

    /// The diagnostic for this error.
    pub fn message(&self) -> (text: String)
        ensures
            text@ == self.message_text(),
    {
        match self {
            GenError::UnsupportedShape => String::from_str("Generic type is not supported"),
            GenError::UnnamedMember(_) => String::from_str("Unnamed member not supported"),
            GenError::UnresolvableType(_) => String::from_str("Unsupported member type"),
            GenError::UnresolvableDefault(_) => String::from_str("Unknown member default"),
        }
    }
}

/// The diagnostics of a batch of errors.
pub open spec fn diagnostics(errors: Seq<GenError>) -> Seq<Seq<char>> {
    Seq::new(errors.len(), |i: int| errors[i].message_text())
}

/// Reports a whole batch of errors at once: one diagnostic for each, in the
/// order in which they were found.
pub fn report_errors(errors: &Vec<GenError>) -> (report: Vec<String>)
    ensures
        texts(report@) == diagnostics(errors@),
{
    let mut report: Vec<String> = Vec::new();
    let mut i: usize = 0;
    while i < errors.len()
        invariant
            i <= errors.len(),
            texts(report@) == diagnostics(errors@).take(i as int),
        decreases errors.len() - i,
    {
        let text = errors[i].message();
        proof {
            lemma_texts_push(report@, text);
            assert(diagnostics(errors@).take(i + 1) == diagnostics(errors@).take(i as int).push(
                text@,
            ));
        }
        report.push(text);
        i += 1;
    }
    report
}

} // verus!
