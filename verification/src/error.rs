//! What can go wrong while a template is compiled or rendered.

use crate::text::Text;
use vstd::prelude::*;
use vstd::std_specs::convert::FromSpecImpl;
use vstd::string::StringExecFns;

verus! {

/// `core::fmt::Error`: what a formatting sink returns when a write fails. It
/// carries no information and is only passed along.
#[verifier::external_type_specification]
#[verifier::external_body]
pub struct ExFmtError(core::fmt::Error);

/// An error from compiling or rendering a template.
#[derive(Debug, PartialEq, Eq)]
pub enum Error {
    /// A placeholder names a key that the registry does not hold.
    UnknownKey(Text),
    /// The callback bound to this key had nothing to give for the data.
    NoData(Text),
    /// A `}` without a `{`, a `{` inside a placeholder, or a placeholder that
    /// the template's end cuts short. Write `{{` and `}}` for literal braces.
    ImbalancedBrackets,
    /// A size computed along the way does not fit the machine's index range.
    Overflow,
    /// The output sink refused a write.
    Write(core::fmt::Error),
}

/// An [`Error`] with its key as a sequence of characters.
pub enum ErrorView {
    UnknownKey(Seq<char>),
    NoData(Seq<char>),
    ImbalancedBrackets,
    Overflow,
    Write,
}

impl View for Error {
    type V = ErrorView;

    open spec fn view(&self) -> ErrorView {
        match self {
            Error::UnknownKey(key) => ErrorView::UnknownKey(key@),
            Error::NoData(key) => ErrorView::NoData(key@),
            Error::ImbalancedBrackets => ErrorView::ImbalancedBrackets,
            Error::Overflow => ErrorView::Overflow,
            Error::Write(_) => ErrorView::Write,
        }
    }
}

/// The message of an error, over the view.
pub open spec fn message(e: ErrorView) -> Seq<char> {
    match e {
        ErrorView::UnknownKey(key) => "unknown key '"@ + key + "'"@,
        ErrorView::NoData(key) => "no data for key '"@ + key + "'"@,
        ErrorView::ImbalancedBrackets => "imbalanced brackets in template"@,
        ErrorView::Overflow => "integer overflow/underflow"@,
        ErrorView::Write => "std::fmt::Write error"@,
    }
}

impl Error {
    /// The error as a line of text for a reader.
    pub fn to_string(&self) -> (s: String)
        ensures
            s@ == message(self@),
    {
        match self {
            Error::UnknownKey(key) => quoted("unknown key '", key),
            Error::NoData(key) => quoted("no data for key '", key),
            Error::ImbalancedBrackets => String::from_str("imbalanced brackets in template"),
            Error::Overflow => String::from_str("integer overflow/underflow"),
            Error::Write(_) => String::from_str("std::fmt::Write error"),
        }
    }
}

/// `lead`, then the key, then a closing quote.
fn quoted(lead: &str, key: &Text) -> (s: String)
    ensures
        s@ == lead@ + key@ + "'"@,
{
    let mut s = String::from_str(lead);
    s.append(key.as_str());
    s.append("'");
    s
}

impl From<core::fmt::Error> for Error {
    fn from(source: core::fmt::Error) -> (e: Error) {
        Error::Write(source)
    }
}

impl FromSpecImpl<core::fmt::Error> for Error {
    open spec fn obeys_from_spec() -> bool {
        true
    }

    open spec fn from_spec(source: core::fmt::Error) -> Error {
        Error::Write(source)
    }
}

} // verus!
