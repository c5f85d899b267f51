use vstd::prelude::*;

verus! {

/// Why a command text was rejected.
#[derive(Debug, PartialEq, Eq)]
pub enum Error {
    /// A button cluster holds a character that names no button or direction.
    UnknownKeyName,
    /// A buffer or hold window holds digits whose value does not fit in a `u32`.
    NumberFormat { digits: String },
    /// The text does not follow the grammar; `rest` is the text from the
    /// first character that could not be read.
    GrammarMismatch { rest: String },
    /// A well-formed command is followed by more text, given in `rest`.
    TrailingInput { rest: String },
}

/// What an [`Error`] says, over plain values.
pub enum Fault {
    KeyName,
    NumberFormat(Seq<char>),
    GrammarMismatch(Seq<char>),
    TrailingInput(Seq<char>),
}

impl Error {
    pub open spec fn view(&self) -> Fault {
        match self {
            Error::UnknownKeyName => Fault::KeyName,
            Error::NumberFormat { digits } => Fault::NumberFormat(digits@),
            Error::GrammarMismatch { rest } => Fault::GrammarMismatch(rest@),
            Error::TrailingInput { rest } => Fault::TrailingInput(rest@),
        }
    }
}

} // verus!
