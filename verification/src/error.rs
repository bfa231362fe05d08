use vstd::prelude::*;

verus! {

/// An error raised by any stage of the interpreter: lexing, parsing,
/// checking or evaluation. It carries a human-readable message only.
#[derive(Debug, Clone)]
pub struct EiriadError {
    pub message: String,
}

impl EiriadError {
    /// Builds an error carrying `message`.
    pub fn new(message: String) -> (e: Self)
        ensures
            e.message@ == message@,
    {
        EiriadError { message }
    }

    /// The message, as a character sequence.
    pub open spec fn msg(&self) -> Seq<char> {
        self.message@
    }
}

/// The result of any interpreter stage.
pub type EiriadResult<T> = Result<T, EiriadError>;

} // verus!
