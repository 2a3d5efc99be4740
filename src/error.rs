use vstd::prelude::*;

verus! {

/// What went wrong while reading a listing page.
#[derive(Debug)]
pub enum Error {
    /// An expected element or attribute was missing, or a count did not read as an integer.
    SelectorError(String),
    /// A size cell did not read as a size.
    SizeParsingError(String),
}

/// An error as its kind and its message.
pub enum ErrorView {
    Selector(Seq<char>),
    SizeParsing(Seq<char>),
}

impl View for Error {
    type V = ErrorView;

    open spec fn view(&self) -> ErrorView {
        match self {
            Error::SelectorError(m) => ErrorView::Selector(m@),
            Error::SizeParsingError(m) => ErrorView::SizeParsing(m@),
        }
    }
}

} // verus!
