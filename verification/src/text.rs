//! Compact strings, used for keys and for literal text.
//!
//! A [`Text`] keeps its characters in a `SmartString<LazyCompact>`, which
//! stores short strings inline. Proofs do not look inside: the characters
//! are named by [`text_of`], and the private functions at the end of this
//! file state, without proof, what each `SmartString` operation does to
//! them. Everything else here is proved from those statements.

use smartstring::{LazyCompact, SmartString};
use vstd::prelude::*;
use vstd::std_specs::cmp::PartialEqSpecImpl;
use vstd::std_specs::convert::FromSpecImpl;

verus! {

/// A string in compact storage.
#[verifier::external_body]
#[derive(Debug, Eq)]
pub struct Text {
    pub(crate) inner: SmartString<LazyCompact>,
}

/// The characters that a [`Text`] holds, in order.
pub uninterp spec fn text_of(t: Text) -> Seq<char>;

impl View for Text {
    type V = Seq<char>;

    open spec fn view(&self) -> Seq<char> {
        text_of(*self)
    }
}

impl Text {
    /// A text without characters.
    pub fn new() -> (t: Text)
        ensures
            t@ == Seq::<char>::empty(),
    {
        smart_new()
    }

    /// Adds `ch` at the end.
    pub fn push(&mut self, ch: char)
        ensures
            final(self)@ == old(self)@.push(ch),
    {
        smart_push(self, ch)
    }

    /// The characters as a string slice.
    pub fn as_str(&self) -> (s: &str)
        ensures
            s@ == self@,
    {
        smart_as_str(self)
    }
}

impl Clone for Text {
    fn clone(&self) -> (t: Text)
        ensures
            t@ == self@,
    {
        smart_clone(self)
    }
}

impl PartialEq for Text {
    fn eq(&self, other: &Text) -> (same: bool) {
        smart_eq(self, other)
    }
}

impl PartialEqSpecImpl for Text {
    open spec fn obeys_eq_spec() -> bool {
        true
    }

    open spec fn eq_spec(&self, other: &Text) -> bool {
        self@ == other@
    }
}

impl From<&str> for Text {
    fn from(s: &str) -> (t: Text)
        ensures
            t@ == s@,
    {
        smart_from(s)
    }
}

impl FromSpecImpl<&str> for Text {
    open spec fn obeys_from_spec() -> bool {
        false
    }

    open spec fn from_spec(s: &str) -> Text {
        arbitrary()
    }
}

/// `SmartString::new`: the result holds no character.
#[verifier::external_body]
fn smart_new() -> (t: Text)
    ensures
        text_of(t) == Seq::<char>::empty(),
{
    Text { inner: SmartString::new() }
}

/// `SmartString::from(&str)`: the result holds the characters of `s`.
#[verifier::external_body]
fn smart_from(s: &str) -> (t: Text)
    ensures
        text_of(t) == s@,
{
    Text { inner: SmartString::from(s) }
}

/// `SmartString::push`: `ch` is added behind the characters held so far.
#[verifier::external_body]
fn smart_push(t: &mut Text, ch: char)
    ensures
        text_of(*final(t)) == text_of(*old(t)).push(ch),
{
    t.inner.push(ch)
}

/// `SmartString::as_str`: a slice of the same characters.
#[verifier::external_body]
fn smart_as_str(t: &Text) -> (s: &str)
    ensures
        s@ == text_of(*t),
{
    t.inner.as_str()
}

/// `SmartString::clone`: the result holds the same characters.
#[verifier::external_body]
fn smart_clone(t: &Text) -> (copy: Text)
    ensures
        text_of(copy) == text_of(*t),
{
    Text { inner: t.inner.clone() }
}

/// `SmartString::eq`: true exactly when both hold the same characters.
#[verifier::external_body]
fn smart_eq(a: &Text, b: &Text) -> (same: bool)
    ensures
        same == (text_of(*a) == text_of(*b)),
{
    a.inner == b.inner
}

} // verus!
