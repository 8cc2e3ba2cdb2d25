//! The cookie string that a user agent sends: parsing and emitting.
use crate::char_class::{all_cookie_octet, all_token, is_str_all_cookie_octets, is_str_all_tokens};
use crate::emit_cookie_error::EmitCookieError;
use crate::encoding_error::{EncodingError, EncodingErrorExpectedClass};
use crate::string_scanner::{
    find_char, find_char_or_ows, lemma_find_char, lemma_find_char_or_ows, lemma_skip_ows, skip_ows,
    ScanCharResult, ScanUntilCharResult, StringScanner,
};
use vstd::prelude::*;

verus! {

/// A name and a value, as sequences of codepoints.
pub type CookieView = (Seq<char>, Seq<char>);

/// Where the value that follows the `=` at `p` lies: its first position, the
/// position just past it, and the position at which the next pair is sought.
/// A value in double quotes is taken verbatim up to the closing quote; an
/// unquoted one ends at `;`, a tab or a space. A `;` right after the value
/// (after the closing quote, if any) is consumed.
pub open spec fn value_span(s: Seq<char>, p: int) -> (int, int, int) {
    let v0 = if p < s.len() && s[p] == '=' {
        p + 1
    } else {
        p
    };
    let quoted = v0 < s.len() && s[v0] == '"';
    let start = if quoted {
        v0 + 1
    } else {
        v0
    };
    let end = if quoted {
        find_char(s, start, '"')
    } else {
        find_char_or_ows(s, start, ';')
    };
    let after = if quoted && end < s.len() {
        end + 1
    } else {
        end
    };
    let next = if after < s.len() && s[after] == ';' {
        after + 1
    } else {
        after
    };
    (start, end, next)
}

/// A value follows the `=` at `p`: its scan stopped before the end of the
/// string, or it consumed at least one codepoint.
pub open spec fn value_present(s: Seq<char>, p: int) -> bool {
    let (start, end, _) = value_span(s, p);
    end < s.len() || end > start
}

/// The pairs found in `s` from position `p` on.
///
/// Leading tabs and spaces are skipped. A segment with an `=` gives the name
/// before it and the value after it; a segment without one is a value with
/// an empty name and runs to the end of the string. An `=` at the very end
/// gives an empty value.
pub open spec fn cookies_from(s: Seq<char>, p: int) -> Seq<CookieView>
    decreases s.len() - p via cookies_from_decreases
{
    let start = skip_ows(s, p);
    if start >= s.len() {
        seq![]
    } else {
        let eq = find_char(s, start, '=');
        if eq >= s.len() {
            seq![(Seq::<char>::empty(), s.subrange(start, s.len() as int))]
        } else {
            let (vs, ve, next) = value_span(s, eq);
            let name = s.subrange(start, eq);
            if value_present(s, eq) {
                seq![(name, s.subrange(vs, ve))] + cookies_from(s, next)
            } else {
                seq![(name, Seq::<char>::empty())]
            }
        }
    }
}

/// The value span after an `=` lies in order within the string.
pub proof fn lemma_value_span(s: Seq<char>, p: int)
    requires
        p < s.len(),
        s[p] == '=',
    ensures
        p < value_span(s, p).0 <= value_span(s, p).1 <= value_span(s, p).2 <= s.len(),
{
    let v0 = p + 1;
    if v0 < s.len() && s[v0] == '"' {
        lemma_find_char(s, v0 + 1, '"');
    } else {
        lemma_find_char_or_ows(s, v0, ';');
    }
}

#[via_fn]
proof fn cookies_from_decreases(s: Seq<char>, p: int) {
    if p <= s.len() {
        lemma_skip_ows(s, p);
        let start = skip_ows(s, p);
        if start < s.len() {
            lemma_find_char(s, start, '=');
            let eq = find_char(s, start, '=');
            if eq < s.len() {
                lemma_value_span(s, eq);
            }
        }
    }
}

/// The pairs of a whole cookie string.
pub open spec fn parse_spec(s: Seq<char>) -> Seq<CookieView> {
    cookies_from(s, 0)
}

/// `name=value`.
pub open spec fn pair_text(c: CookieView) -> Seq<char> {
    c.0 + seq!['='] + c.1
}

/// The pairs written as `name=value`, joined by `"; "`.
pub open spec fn header_text(cs: Seq<CookieView>) -> Seq<char>
    decreases cs.len(),
{
    if cs.len() == 0 {
        seq![]
    } else if cs.len() == 1 {
        pair_text(cs[0])
    } else {
        pair_text(cs[0]) + seq![';', ' '] + header_text(cs.drop_first())
    }
}

/// The name is all token characters and the value all cookie-octets.
pub open spec fn valid_pair(c: CookieView) -> bool {
    all_token(c.0) && all_cookie_octet(c.1)
}

/// Every pair can be emitted.
pub open spec fn all_valid(cs: Seq<CookieView>) -> bool {
    forall|i: int| 0 <= i < cs.len() ==> valid_pair(#[trigger] cs[i])
}

/// Pair `i` is the first that cannot be emitted.
pub open spec fn first_invalid_at(cs: Seq<CookieView>, i: int) -> bool {
    &&& 0 <= i < cs.len()
    &&& !valid_pair(cs[i])
    &&& forall|j: int| 0 <= j < i ==> valid_pair(#[trigger] cs[j])
}

/// The string reported for a pair that cannot be emitted, with the class it
/// fails: the name if it is not all tokens, else the value.
pub open spec fn rejection(c: CookieView) -> (Seq<char>, EncodingErrorExpectedClass) {
    if !all_token(c.0) {
        (c.0, EncodingErrorExpectedClass::Token)
    } else {
        (c.1, EncodingErrorExpectedClass::CookieOctet)
    }
}

/// What emitting `cs` yields: the joined text if every pair is valid, else
/// the rejection of the first invalid pair.
pub open spec fn emit_ok<'a>(cs: Seq<CookieView>, r: Result<String, EmitCookieError<'a>>) -> bool {
    match r {
        Ok(text) => all_valid(cs) && text@ == header_text(cs),
        Err(EmitCookieError::EncodingError(e)) => exists|i: int|
            first_invalid_at(cs, i) && e@ == rejection(cs[i]),
        Err(EmitCookieError::InternalError(_)) => false,
    }
}

/// Appending a pair to a non-empty list appends `"; "` and the pair to its text.
pub proof fn lemma_header_text_push(cs: Seq<CookieView>, c: CookieView)
    requires
        cs.len() >= 1,
    ensures
        header_text(cs.push(c)) == header_text(cs) + seq![';', ' '] + pair_text(c),
    decreases cs.len(),
{
    assert(cs.push(c)[0] == cs[0]);
    if cs.len() == 1 {
        assert(cs.push(c).drop_first() =~= seq![c]);
        assert(header_text(seq![c]) == pair_text(c));
    } else {
        assert(cs.push(c).drop_first() =~= cs.drop_first().push(c));
        lemma_header_text_push(cs.drop_first(), c);
        assert(header_text(cs.push(c)) =~= header_text(cs) + seq![';', ' '] + pair_text(c));
    }
}

/// What the name phase found at the cursor.
#[derive(Clone, Copy, Debug, PartialEq, Eq)]
pub enum ParseNameResult<'a> {
    /// A name, ended by an `=` at the cursor.
    Name(&'a str),
    /// A segment without `=`, which runs to the end: a value with no name.
    Value(&'a str),
    /// Nothing but whitespace was left.
    End,
}

/// A cookie: a name and a value, both borrowed from the text they came from.
#[derive(Clone, Copy, Debug)]
pub struct UserAgentCookie<'a> {
    name: &'a str,
    value: &'a str,
}

impl<'a> View for UserAgentCookie<'a> {
    type V = CookieView;

    closed spec fn view(&self) -> CookieView {
        (self.name@, self.value@)
    }
}

/// The name and value of each cookie, in order.
pub open spec fn cookie_views<'a>(cookies: Seq<UserAgentCookie<'a>>) -> Seq<CookieView> {
    cookies.map_values(|c: UserAgentCookie<'a>| c@)
}

impl<'a> UserAgentCookie<'a> {
    /// A cookie with the given name and value.
    pub fn new(name: &'a str, value: &'a str) -> (r: UserAgentCookie<'a>)
        ensures
            r@ == (name@, value@),
    {
        UserAgentCookie { name, value }
    }

    /// Splits a cookie string into its pairs, in order. No input is rejected.
    pub fn parse(input: &'a str) -> (r: Vec<UserAgentCookie<'a>>)
        ensures
            cookie_views(r@) == parse_spec(input@),
    {
        let ghost s = input@;
        let mut results: Vec<UserAgentCookie<'a>> = Vec::new();
        let mut scanner = StringScanner::from_str(input);
        loop
            invariant
                scanner.wf(),
                scanner.text() == s,
                0 <= scanner.pos() <= s.len(),
                cookie_views(results@) + cookies_from(s, scanner.pos()) == parse_spec(s),
            ensures
                cookie_views(results@) == parse_spec(s),
            decreases s.len() - scanner.pos(),
        {
            let ghost p = scanner.pos();
            let ghost before = results@;
            proof {
                lemma_skip_ows(s, p);
                let start = skip_ows(s, p);
                if start < s.len() {
                    lemma_find_char(s, start, '=');
                    let eq = find_char(s, start, '=');
                    if eq < s.len() {
                        lemma_value_span(s, eq);
                    }
                }
            }
            match UserAgentCookie::parse_name(&mut scanner) {
                ParseNameResult::Name(name) => match UserAgentCookie::parse_value(&mut scanner) {
                    Some(val) => {
                        results.push(UserAgentCookie::new(name, val));
                        proof {
                            assert(cookie_views(results@) =~= cookie_views(before) + seq![
                                (name@, val@),
                            ]);
                        }
                    },
                    None => {
                        results.push(UserAgentCookie::new(name, ""));
                        proof {
                            reveal_strlit("");
                            assert(""@ =~= Seq::<char>::empty());
                            assert(cookie_views(results@) =~= cookie_views(before) + seq![
                                (name@, Seq::<char>::empty()),
                            ]);
                        }
                        break;
                    },
                },
                ParseNameResult::Value(val) => {
                    results.push(UserAgentCookie::new("", val));
                    proof {
                        reveal_strlit("");
                        assert(""@ =~= Seq::<char>::empty());
                        assert(cookie_views(results@) =~= cookie_views(before) + seq![
                            (Seq::<char>::empty(), val@),
                        ]);
                    }
                },
                ParseNameResult::End => break,
            };
        }
        results
    }

    /// The name phase: skips whitespace, then reads up to the next `=`,
    /// leaving the cursor on it.
    pub fn parse_name<'input>(scanner: &mut StringScanner<'input>) -> (r: ParseNameResult<'input>)
        requires
            old(scanner).wf(),
        ensures
            final(scanner).wf(),
            final(scanner).text() == old(scanner).text(),
            ({
                let s = old(scanner).text();
                let start = skip_ows(s, old(scanner).pos());
                let eq = find_char(s, start, '=');
                if start >= s.len() {
                    &&& r == ParseNameResult::End
                    &&& final(scanner).pos() == start
                } else {
                    &&& final(scanner).pos() == eq
                    &&& eq < s.len() ==> (r matches ParseNameResult::Name(n) && n@ == s.subrange(
                        start,
                        eq,
                    ))
                    &&& eq >= s.len() ==> (r matches ParseNameResult::Value(v) && v@
                        == s.subrange(start, s.len() as int))
                }
            }),
    {
        scanner.scan_whitespace_repeating();
        if scanner.is_at_end_of_string() {
            return ParseNameResult::End;
        }
        let start_idx = scanner.get_cursor();
        proof {
            lemma_find_char(scanner.text(), start_idx as int, '=');
        }

        match scanner.scan_until_char('=') {
            ScanUntilCharResult::CharFound => {
                let end_idx = scanner.get_cursor();
                ParseNameResult::Name(scanner.substring(start_idx, end_idx))
            },
            ScanUntilCharResult::EndOfStringReached => {
                ParseNameResult::Value(scanner.substring(start_idx, scanner.get_cursor()))
            },
        }
    }

    /// The value phase, from the `=` that ends a name: reads the value and
    /// the `;` after it. `None` when the string ends with nothing consumed.
    pub fn parse_value<'input>(scanner: &mut StringScanner<'input>) -> (r: Option<&'input str>)
        requires
            old(scanner).wf(),
        ensures
            final(scanner).wf(),
            final(scanner).text() == old(scanner).text(),
            ({
                let s = old(scanner).text();
                let (start, end, next) = value_span(s, old(scanner).pos());
                &&& final(scanner).pos() == next
                &&& r is Some == value_present(s, old(scanner).pos())
                &&& r matches Some(v) ==> v@ == s.subrange(start, end)
            }),
    {
        let ghost s = scanner.text();
        let ghost (vs, ve, next) = value_span(s, scanner.pos());
        proof {
            scanner.lemma_cursor_fits();
        }
        scanner.scan_char_once('=');
        let starts_with_dquote = match scanner.scan_char_once('"') {
            ScanCharResult::CharFound(_) => true,
            _ => false,
        };

        let start_idx = scanner.get_cursor();
        proof {
            lemma_find_char(s, start_idx as int, '"');
            lemma_find_char_or_ows(s, start_idx as int, ';');
        }

        match if starts_with_dquote {
            scanner.scan_until_char('"')
        } else {
            scanner.scan_until_char_or_whitespace(';')
        } {
            ScanUntilCharResult::CharFound => {
                let end_idx = scanner.get_cursor();

                if starts_with_dquote {
                    scanner.scan_char_once('"');
                }

                scanner.scan_char_once(';');
                Some(scanner.substring(start_idx, end_idx))
            },
            ScanUntilCharResult::EndOfStringReached => {
                if scanner.get_cursor() > start_idx {
                    Some(scanner.substring(start_idx, scanner.get_cursor()))
                } else {
                    None
                }
            },
        }
    }

    /// This cookie as `name=value`, or the reason it cannot be emitted.
    pub fn emit(&self) -> (r: Result<String, EmitCookieError<'a>>)
        ensures
            emit_ok(seq![self@], r),
    {
        let one = [*self];
        proof {
            assert(cookie_views(one@) =~= seq![self@]);
        }
        UserAgentCookie::emit_all(&one)
    }

    /// The cookies joined as `name=value; name=value`, in order, or the first
    /// name or value that holds a character outside its class.
    pub fn emit_all(cookies: &[UserAgentCookie<'a>]) -> (r: Result<String, EmitCookieError<'a>>)
        ensures
            emit_ok(cookie_views(cookies@), r),
    {
        let ghost cs = cookie_views(cookies@);
        let mut result = String::new();
        let mut is_first = true;
        let mut i: usize = 0;
        while i < cookies.len()
            invariant
                cs == cookie_views(cookies@),
                i <= cookies@.len(),
                is_first == (i == 0),
                forall|j: int| 0 <= j < i ==> valid_pair(#[trigger] cs[j]),
                result@ == header_text(cs.take(i as int)),
            decreases cookies@.len() - i,
        {
            let cookie = &cookies[i];
            proof {
                assert(cs[i as int] == (cookie.name@, cookie.value@));
                reveal_strlit("; ");
                reveal_strlit("=");
                assert(cs.take(i + 1) =~= cs.take(i as int).push(cs[i as int]));
                if i > 0 {
                    lemma_header_text_push(cs.take(i as int), cs[i as int]);
                } else {
                    assert(cs.take(1) =~= seq![cs[0]]);
                }
            }
            if is_first {
                is_first = false;
            } else {
                result.append("; ");
            }

            if !is_str_all_tokens(cookie.name) {
                proof {
                    assert(first_invalid_at(cs, i as int));
                }
                return Err(
                    EmitCookieError::EncodingError(
                        EncodingError::new(cookie.name, EncodingErrorExpectedClass::Token),
                    ),
                );
            }

            if !is_str_all_cookie_octets(cookie.value) {
                proof {
                    assert(first_invalid_at(cs, i as int));
                }
                return Err(
                    EmitCookieError::EncodingError(
                        EncodingError::new(cookie.value, EncodingErrorExpectedClass::CookieOctet),
                    ),
                );
            }

            result.append(cookie.name);
            result.append("=");
            result.append(cookie.value);
            i = i + 1;
        }
        proof {
            assert(cs.take(cookies@.len() as int) =~= cs);
        }
        Ok(result)
    }

    /// The name.
    pub fn get_name(&self) -> (r: &'a str)
        ensures
            r@ == self@.0,
    {
        self.name
    }

    /// The value.
    pub fn get_value(&self) -> (r: &'a str)
        ensures
            r@ == self@.1,
    {
        self.value
    }
}

} // verus!
