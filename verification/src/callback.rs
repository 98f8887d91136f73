//! Callbacks: what a placeholder is bound to.

use std::sync::Arc;
use vstd::prelude::*;

verus! {

/// Something that may produce a string for a data value.
///
/// Each implementation says for which data it may be called (`accepts`) and
/// which results a call may have (`yields`). A result of `None` means that
/// there is no data for the value at hand.
pub trait Callback<T>: Send + Sync {
    /// Whether `produce` may be called with `data`.
    spec fn accepts(&self, data: &T) -> bool;

    /// Whether `out` is a possible result of `produce` for `data`.
    spec fn yields(&self, data: &T, out: Option<String>) -> bool;

    /// Produces the string for `data`, or `None` where there is none.
    fn produce(&self, data: &T) -> (out: Option<String>)
        requires
            self.accepts(data),
        ensures
            self.yields(data, out),
    ;
}

/// Every shareable function from data to an optional string is a callback.
impl<T, F: Fn(&T) -> Option<String> + Send + Sync> Callback<T> for F {
    open spec fn accepts(&self, data: &T) -> bool {
        call_requires(*self, (data,))
    }

    open spec fn yields(&self, data: &T, out: Option<String>) -> bool {
        call_ensures(*self, (data,), out)
    }

    fn produce(&self, data: &T) -> (out: Option<String>) {
        self(data)
    }
}

/// A callback behind a shared handle: cheap to copy, never changed.
pub type FormatterCallback<T> = Arc<Box<dyn Callback<T>>>;

/// `Arc::clone`: a second handle to the same value.
#[verifier::external_body]
pub(crate) fn share<C>(cb: &Arc<C>) -> (handle: Arc<C>)
    ensures
        handle == *cb,
{
    Arc::clone(cb)
}

} // verus!
