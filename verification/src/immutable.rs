use vstd::prelude::*;

verus! {

/// A value that can be read but not changed once it is wrapped.
#[derive(Clone, Debug, PartialEq)]
pub struct Im<T>(T);

impl<T> Im<T> {
    /// The wrapped value.
    pub closed spec fn value(&self) -> T {
        self.0
    }

    /// Wraps `initial`.
    pub fn new(initial: T) -> (r: Self)
        ensures
            r.value() == initial,
    {
        Im(initial)
    }
}

impl<T> std::ops::Deref for Im<T> {
    type Target = T;

    fn deref(&self) -> (r: &T)
        ensures
            *r == self.value(),
    {
        &self.0
    }
}

impl<T> From<T> for Im<T> {
    fn from(value: T) -> (r: Self) {
        Im::new(value)
    }
}

impl<T> vstd::std_specs::convert::FromSpecImpl<T> for Im<T> {
    open spec fn obeys_from_spec() -> bool {
        true
    }

    open spec fn from_spec(value: T) -> Im<T> {
        Im::wrap_spec(value)
    }
}

impl<T> Im<T> {
    /// `value` wrapped, as a mathematical value.
    pub closed spec fn wrap_spec(value: T) -> Im<T> {
        Im(value)
    }

    /// Reading a wrapped value gives back the value.
    pub proof fn law_wrapped_value_reads_back(value: T)
        ensures
            Im::wrap_spec(value).value() == value,
    {
    }

    /// Two wrappers of the same value are the same wrapper; in particular
    /// `Im::from(v)` is `Im::new(v)`.
    pub proof fn law_equal_values(a: Im<T>, b: Im<T>)
        requires
            a.value() == b.value(),
        ensures
            a == b,
    {
    }
}

} // verus!
