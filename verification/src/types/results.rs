use vstd::prelude::*;

verus! {

/// The error carried out of every failing decode or encode: a named error
/// with a human-readable message.
#[derive(Clone, Debug)]
pub struct TranslationError {
    pub message: String,
}

impl TranslationError {
    pub fn new(message: &str) -> (r: TranslationError)
        ensures
            r.message@ == message@,
    {
        TranslationError { message: message.to_owned() }
    }

    /// The error's message, for callers that render it.
    pub fn message(&self) -> (r: &str)
        ensures
            r@ == self.message@,
    {
        self.message.as_str()
    }
}

} // verus!
