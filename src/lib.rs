//! Parsing and emitting the `name=value; name=value` cookie string that a
//! user agent sends to a server.
//!
//! The parser walks the header by codepoint through [`StringScanner`], which
//! in turn addresses the text through the codepoint-to-byte table of
//! [`IndexedString`]. The emitter checks every name and value against the
//! cookie character classes and joins the pairs with `"; "`.

mod char_class;
mod emit_cookie_error;
mod encoding_error;
pub mod from_user_agent;
mod indexed_string;
mod internal_error;
mod round_trip;
mod string_scanner;
mod user_agent_cookie;

pub use self::char_class::{
    all_cookie_octet, all_token, cookie_octet_char, is_cookie_octet, is_str_all_cookie_octets,
    is_str_all_tokens, is_token_char, token_char,
};
pub use self::emit_cookie_error::EmitCookieError;
pub use self::encoding_error::{EncodingError, EncodingErrorExpectedClass};
pub use self::indexed_string::{byte_len, byte_offset, lemma_encode_concat, IndexedString};
pub use self::internal_error::{InternalError, InternalErrorKind};
pub use self::round_trip::{
    all_ows, lemma_leading_whitespace, lemma_round_trip, lemma_whitespace_padding, padded_header,
};
pub use self::string_scanner::{
    find_char, find_char_or_ows, is_ows, lemma_find_char, lemma_find_char_or_ows, lemma_skip_ows,
    skip_ows, ScanCharResult, ScanUntilCharResult, StringScanner,
};
pub use self::user_agent_cookie::{
    all_valid, cookie_views, cookies_from, emit_ok, first_invalid_at, header_text,
    lemma_header_text_push, lemma_value_span, pair_text, parse_spec, rejection, valid_pair,
    value_present, value_span, CookieView, ParseNameResult, UserAgentCookie,
};
