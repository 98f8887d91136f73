//! Pieces: what a compiled template is made of.

use crate::callback::FormatterCallback;
use crate::error::{Error, ErrorView};
use crate::text::Text;
use vstd::prelude::*;
use vstd::std_specs::cmp::PartialEqSpecImpl;
use vstd::string::StringExecFns;

verus! {

/// A compiled placeholder: the key it was written with, and the callback
/// that the key was bound to when the template was compiled.
#[verifier::reject_recursive_types(T)]
pub struct Formatter<T> {
    pub key: Text,
    pub cb: FormatterCallback<T>,
}

/// One piece of a compiled template.
#[verifier::reject_recursive_types(T)]
#[derive(PartialEq, Eq)]
pub enum FormatPiece<T> {
    /// Literal text, copied to the output as it is.
    Verbatim(Text),
    /// A placeholder, replaced by what its callback produces.
    Formatter(Formatter<T>),
}

/// A compiled template: its pieces from left to right.
pub type FormatPieces<T> = Vec<FormatPiece<T>>;

/// A piece with its text as a sequence of characters.
#[verifier::reject_recursive_types(T)]
pub enum PieceView<T> {
    Verbatim(Seq<char>),
    Reference { key: Seq<char>, callback: FormatterCallback<T> },
}

impl<T> View for Formatter<T> {
    type V = PieceView<T>;

    open spec fn view(&self) -> PieceView<T> {
        PieceView::Reference { key: self.key@, callback: self.cb }
    }
}

impl<T> View for FormatPiece<T> {
    type V = PieceView<T>;

    open spec fn view(&self) -> PieceView<T> {
        match self {
            FormatPiece::Verbatim(text) => PieceView::Verbatim(text@),
            FormatPiece::Formatter(formatter) => formatter@,
        }
    }
}

/// The views of a sequence of pieces, in the same order.
pub open spec fn views<T>(pieces: Seq<FormatPiece<T>>) -> Seq<PieceView<T>> {
    pieces.map_values(|piece: FormatPiece<T>| piece@)
}

/// What one callback result means for the placeholder written with `key`:
/// the string where there is one, `NoData` with the key where there is none.
pub open spec fn settled(key: Seq<char>, produced: Option<Seq<char>>) -> Result<
    Seq<char>,
    ErrorView,
> {
    match produced {
        Some(text) => Ok(text),
        None => Err(ErrorView::NoData(key)),
    }
}

/// The characters of an optional string.
pub open spec fn chars_of(produced: Option<String>) -> Option<Seq<char>> {
    match produced {
        Some(s) => Some(s@),
        None => None,
    }
}

/// A result of a string or an error, both by their views.
pub open spec fn outcome(result: Result<String, Error>) -> Result<Seq<char>, ErrorView> {
    match result {
        Ok(s) => Ok(s@),
        Err(e) => Err(e@),
    }
}

impl<T> Formatter<T> {
    /// The placeholder as a line for a log: its key, without the callback.
    pub fn to_debug_string(&self) -> (s: String)
        ensures
            s@ == "Formatter(key: "@ + self.key@ + ")"@,
    {
        let mut s = String::from_str("Formatter(key: ");
        s.append(self.key.as_str());
        s.append(")");
        s
    }

    /// Turns what the callback produced into this placeholder's replacement:
    /// the string itself, or `NoData` with this placeholder's key.
    pub fn or_no_data(&self, produced: Option<String>) -> (result: Result<String, Error>)
        ensures
            outcome(result) == settled(self.key@, chars_of(produced)),
            result matches Ok(s) ==> produced == Some(s),
    {
        match produced {
            Some(s) => Ok(s),
            None => Err(Error::NoData(self.key.clone())),
        }
    }
}

impl<T> PartialEq for Formatter<T> {
    /// Two placeholders are equal when their keys are: callbacks cannot be
    /// compared.
    fn eq(&self, other: &Formatter<T>) -> (same: bool) {
        self.key == other.key
    }
}

impl<T> PartialEqSpecImpl for Formatter<T> {
    open spec fn obeys_eq_spec() -> bool {
        true
    }

    open spec fn eq_spec(&self, other: &Formatter<T>) -> bool {
        self.key@ == other.key@
    }
}

impl<T> Eq for Formatter<T> {}

} // verus!
