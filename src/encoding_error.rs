//! The error raised when a name or value holds a character outside its class.
use vstd::prelude::*;

verus! {

/// The character class that a rejected string had to belong to.
#[derive(Clone, Copy, Debug, PartialEq, Eq, Structural)]
pub enum EncodingErrorExpectedClass {
    /// The class of cookie names.
    Token,
    /// The class of cookie values.
    CookieOctet,
}

/// A string that cannot be emitted, and the class it failed to satisfy.
#[derive(Clone, Copy, Debug)]
pub struct EncodingError<'a> {
    value: &'a str,
    expected_class: EncodingErrorExpectedClass,
}

impl<'a> View for EncodingError<'a> {
    type V = (Seq<char>, EncodingErrorExpectedClass);

    closed spec fn view(&self) -> (Seq<char>, EncodingErrorExpectedClass) {
        (self.value@, self.expected_class)
    }
}

impl<'a> EncodingError<'a> {
    /// The error for `value`, which is not all of `expected_class`.
    pub fn new(value: &'a str, expected_class: EncodingErrorExpectedClass) -> (r: EncodingError<'a>)
        ensures
            r@ == (value@, expected_class),
    {
        EncodingError { value, expected_class }
    }

    /// The rejected string.
    pub fn get_value(&self) -> (r: &'a str)
        ensures
            r@ == self@.0,
    {
        self.value
    }

    /// The class the rejected string had to belong to.
    pub fn get_expected_class(&self) -> (r: EncodingErrorExpectedClass)
        ensures
            r == self@.1,
    {
        self.expected_class
    }
}

} // verus!
