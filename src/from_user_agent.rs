//! Cookies sent from a user agent to a server, with owned error values.
//!
//! The same grammar as [`crate::UserAgentCookie`]; here `parse` reports its
//! result as a `Result`, and an emit error owns the string it rejects.
use crate::encoding_error::EncodingErrorExpectedClass;
use crate::emit_cookie_error::EmitCookieError;
pub use crate::internal_error::InternalError;
use crate::user_agent_cookie::{
    all_valid, cookie_views, first_invalid_at, header_text, parse_spec, rejection, CookieView,
    UserAgentCookie,
};
use vstd::prelude::*;

verus! {

/// A cookie: a name and a value, both borrowed from the text they came from.
#[derive(Clone, Copy, Debug)]
pub struct Cookie<'a> {
    name: &'a str,
    value: &'a str,
}

impl<'a> View for Cookie<'a> {
    type V = CookieView;

    closed spec fn view(&self) -> CookieView {
        (self.name@, self.value@)
    }
}

/// The name and value of each cookie, in order.
pub open spec fn views<'a>(cookies: Seq<Cookie<'a>>) -> Seq<CookieView> {
    cookies.map_values(|c: Cookie<'a>| c@)
}

/// Why a cookie string could not be parsed. The grammar accepts every
/// string, so only a broken invariant of the library could produce one.
#[derive(Debug)]
pub enum ParseError {
    InternalError(InternalError),
}

/// Why a list of cookies could not be emitted.
#[derive(Debug)]
pub enum EmitError {
    InternalError(InternalError),
    EncodingError(EncodingError),
}

/// A string that cannot be emitted, and the class it failed to satisfy.
#[derive(Debug)]
pub struct EncodingError {
    value: String,
    expected_class: EncodingErrorExpectedClass,
}

impl View for EncodingError {
    type V = (Seq<char>, EncodingErrorExpectedClass);

    closed spec fn view(&self) -> (Seq<char>, EncodingErrorExpectedClass) {
        (self.value@, self.expected_class)
    }
}

impl EncodingError {
    /// The error for `value`, which is not all of `expected_class`.
    fn new(value: String, expected_class: EncodingErrorExpectedClass) -> (r: EncodingError)
        ensures
            r@ == (value@, expected_class),
    {
        EncodingError { value, expected_class }
    }

    /// The rejected string.
    pub fn get_value(&self) -> (r: &str)
        ensures
            r@ == self@.0,
    {
        self.value.as_str()
    }

    /// The class the rejected string had to belong to.
    pub fn get_expected_class(&self) -> (r: EncodingErrorExpectedClass)
        ensures
            r == self@.1,
    {
        self.expected_class
    }
}

/// What emitting `cs` yields: the joined text if every pair is valid, else
/// the rejection of the first invalid pair.
pub open spec fn emit_result(cs: Seq<CookieView>, r: Result<String, EmitError>) -> bool {
    match r {
        Ok(text) => all_valid(cs) && text@ == header_text(cs),
        Err(EmitError::EncodingError(e)) => exists|i: int|
            first_invalid_at(cs, i) && e@ == rejection(cs[i]),
        Err(EmitError::InternalError(_)) => false,
    }
}

impl<'a> Cookie<'a> {
    /// A cookie with the given name and value.
    pub fn new(name: &'a str, value: &'a str) -> (r: Cookie<'a>)
        ensures
            r@ == (name@, value@),
    {
        Cookie { name, value }
    }

    /// Splits a cookie string into its pairs, in order.
    pub fn parse(input: &'a str) -> (r: Result<Vec<Cookie<'a>>, ParseError>)
        ensures
            r matches Ok(v) && views(v@) == parse_spec(input@),
    {
        let parsed = UserAgentCookie::parse(input);
        let mut result: Vec<Cookie<'a>> = Vec::new();
        let mut i: usize = 0;
        while i < parsed.len()
            invariant
                i <= parsed@.len(),
                result@.len() == i,
                views(result@) == cookie_views(parsed@).take(i as int),
            decreases parsed@.len() - i,
        {
            let c = &parsed[i];
            let ghost before = result@;
            result.push(Cookie::new(c.get_name(), c.get_value()));
            proof {
                assert(result@ == before.push(result@[i as int]));
                assert(views(result@) =~= views(before).push(parsed@[i as int]@));
                assert(views(result@) =~= cookie_views(parsed@).take(i + 1));
            }
            i = i + 1;
        }
        proof {
            assert(cookie_views(parsed@).take(parsed@.len() as int) =~= cookie_views(parsed@));
        }
        Ok(result)
    }

    /// The name.
    pub fn get_name(&self) -> (r: &'a str)
        ensures
            r@ == self@.0,
    {
        self.name
    }

    /// The value.
    pub fn get_value(&self) -> (r: &'a str)
        ensures
            r@ == self@.1,
    {
        self.value
    }

    /// The cookies joined as `name=value; name=value`, in order, or the first
    /// name or value that holds a character outside its class.
    pub fn emit(cookies: Vec<Cookie<'a>>) -> (r: Result<String, EmitError>)
        ensures
            emit_result(views(cookies@), r),
    {
        let mut list: Vec<UserAgentCookie<'a>> = Vec::new();
        let mut i: usize = 0;
        while i < cookies.len()
            invariant
                i <= cookies@.len(),
                list@.len() == i,
                cookie_views(list@) == views(cookies@).take(i as int),
            decreases cookies@.len() - i,
        {
            let c = &cookies[i];
            let ghost before = list@;
            list.push(UserAgentCookie::new(c.name, c.value));
            proof {
                assert(list@ == before.push(list@[i as int]));
                assert(cookie_views(list@) =~= cookie_views(before).push(cookies@[i as int]@));
                assert(cookie_views(list@) =~= views(cookies@).take(i + 1));
            }
            i = i + 1;
        }
        proof {
            assert(views(cookies@).take(cookies@.len() as int) =~= views(cookies@));
        }
        match UserAgentCookie::emit_all(list.as_slice()) {
            Ok(text) => Ok(text),
            Err(EmitCookieError::EncodingError(e)) => Err(
                EmitError::EncodingError(
                    EncodingError::new(e.get_value().to_owned(), e.get_expected_class()),
                ),
            ),
            Err(EmitCookieError::InternalError(e)) => Err(EmitError::InternalError(e)),
        }
    }
}

} // verus!
