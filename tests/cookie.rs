use basic_cookies::from_user_agent::Cookie;
use basic_cookies::{is_str_all_cookie_octets, is_str_all_tokens};

#[test]
fn cookie_get_name() {
    const COOKIE_KEY: &'static str = "cookie_key";
    const COOKIE_VALUE: &'static str = "cookie_value";

    let cookie = Cookie::new(COOKIE_KEY, COOKIE_VALUE);

    assert_eq!(COOKIE_KEY, cookie.get_name());
}

#[test]
fn cookie_get_value() {
    const COOKIE_KEY: &'static str = "cookie_key";
    const COOKIE_VALUE: &'static str = "cookie_value";

    let cookie = Cookie::new(COOKIE_KEY, COOKIE_VALUE);

    assert_eq!(COOKIE_VALUE, cookie.get_value());
}

#[test]
fn cookie_single_cookie() {
    const COOKIE_STR: &'static str = "test=1234";
    let parsed_cookies = Cookie::parse(COOKIE_STR).unwrap();
    assert_eq!(1, parsed_cookies.len());

    let parsed_cookie_0 = &parsed_cookies[0];
    assert_eq!("test", parsed_cookie_0.get_name());
    assert_eq!("1234", parsed_cookie_0.get_value());
}

#[test]
fn cookie_single_cookie_quoted() {
    const COOKIE_STR: &'static str = "quoted_test=\"quotedval\"";
    let parsed_cookies = Cookie::parse(COOKIE_STR).unwrap();
    assert_eq!(1, parsed_cookies.len());

    let parsed_cookie_0 = &parsed_cookies[0];
    assert_eq!("quoted_test", parsed_cookie_0.get_name());
    assert_eq!("quotedval", parsed_cookie_0.get_value());
}

#[test]
fn cookie_single_cookie_with_equals_in_value() {
    const COOKIE_STR: &'static str = "test=abc=123";
    let parsed_cookies = Cookie::parse(COOKIE_STR).unwrap();
    assert_eq!(1, parsed_cookies.len());

    let parsed_cookie_0 = &parsed_cookies[0];
    assert_eq!("test", parsed_cookie_0.get_name());
    assert_eq!("abc=123", parsed_cookie_0.get_value());
}

#[test]
fn cookie_single_cookie_ows_before() {
    const COOKIE_STR: &'static str = " \x09 ztest=9876";
    let parsed_cookies = Cookie::parse(COOKIE_STR).unwrap();
    assert_eq!(1, parsed_cookies.len());

    let parsed_cookie_0 = &parsed_cookies[0];
    assert_eq!("ztest", parsed_cookie_0.get_name());
    assert_eq!("9876", parsed_cookie_0.get_value());
}

#[test]
fn cookie_single_cookie_ows_with_single_space_before() {
    const COOKIE_STR: &'static str = " qtest=9878";
    let parsed_cookies = Cookie::parse(COOKIE_STR).unwrap();
    assert_eq!(1, parsed_cookies.len());

    let parsed_cookie_0 = &parsed_cookies[0];
    assert_eq!("qtest", parsed_cookie_0.get_name());
    assert_eq!("9878", parsed_cookie_0.get_value());
}

#[test]
fn cookie_single_cookie_ows_after() {
    const COOKIE_STR: &'static str = "abcde=77766test \x09\x09    ";
    let parsed_cookies = Cookie::parse(COOKIE_STR).unwrap();
    assert_eq!(1, parsed_cookies.len());

    let parsed_cookie_0 = &parsed_cookies[0];
    assert_eq!("abcde", parsed_cookie_0.get_name());
    assert_eq!("77766test", parsed_cookie_0.get_value());
}

#[test]
fn cookie_single_cookie_ows_with_single_space_after() {
    const COOKIE_STR: &'static str = "xyzzz=test3 ";
    let parsed_cookies = Cookie::parse(COOKIE_STR).unwrap();
    assert_eq!(1, parsed_cookies.len());

    let parsed_cookie_0 = &parsed_cookies[0];
    assert_eq!("xyzzz", parsed_cookie_0.get_name());
    assert_eq!("test3", parsed_cookie_0.get_value());
}

#[test]
fn cookie_single_cookie_ows_before_and_after() {
    const COOKIE_STR: &'static str = " \x09 ztest=9876       ";
    let parsed_cookies = Cookie::parse(COOKIE_STR).unwrap();
    assert_eq!(1, parsed_cookies.len());

    let parsed_cookie_0 = &parsed_cookies[0];
    assert_eq!("ztest", parsed_cookie_0.get_name());
    assert_eq!("9876", parsed_cookie_0.get_value());
}

#[test]
fn cookie_single_cookie_empty_name() {
    const COOKIE_STR: &'static str = "=nokey";
    let parsed_cookies = Cookie::parse(COOKIE_STR).unwrap();
    assert_eq!(1, parsed_cookies.len());

    let parsed_cookie_0 = &parsed_cookies[0];
    assert_eq!("", parsed_cookie_0.get_name());
    assert_eq!("nokey", parsed_cookie_0.get_value());
}

#[test]
fn cookie_single_cookie_empty_name_with_ows_before() {
    const COOKIE_STR: &'static str = " =nokey";
    let parsed_cookies = Cookie::parse(COOKIE_STR).unwrap();
    assert_eq!(1, parsed_cookies.len());

    let parsed_cookie_0 = &parsed_cookies[0];
    assert_eq!("", parsed_cookie_0.get_name());
    assert_eq!("nokey", parsed_cookie_0.get_value());
}

#[test]
fn cookie_single_cookie_empty_value() {
    const COOKIE_STR: &'static str = "noval=";
    let parsed_cookies = Cookie::parse(COOKIE_STR).unwrap();
    assert_eq!(1, parsed_cookies.len());

    let parsed_cookie_0 = &parsed_cookies[0];
    assert_eq!("noval", parsed_cookie_0.get_name());
    assert_eq!("", parsed_cookie_0.get_value());
}

#[test]
fn cookie_single_cookie_empty_value_with_ows_after() {
    const COOKIE_STR: &'static str = "noval= ";
    let parsed_cookies = Cookie::parse(COOKIE_STR).unwrap();
    assert_eq!(1, parsed_cookies.len());

    let parsed_cookie_0 = &parsed_cookies[0];
    assert_eq!("noval", parsed_cookie_0.get_name());
    assert_eq!("", parsed_cookie_0.get_value());
}

#[test]
fn cookie_single_cookie_empty_name_and_val() {
    const COOKIE_STR: &'static str = "=";
    let parsed_cookies = Cookie::parse(COOKIE_STR).unwrap();
    assert_eq!(1, parsed_cookies.len());

    let parsed_cookie_0 = &parsed_cookies[0];
    assert_eq!("", parsed_cookie_0.get_name());
    assert_eq!("", parsed_cookie_0.get_value());
}

#[test]
fn cookie_single_cookie_empty_name_no_equals() {
    const COOKIE_STR: &'static str = "nokey";
    let parsed_cookies = Cookie::parse(COOKIE_STR).unwrap();
    assert_eq!(1, parsed_cookies.len());

    let parsed_cookie_0 = &parsed_cookies[0];
    assert_eq!("", parsed_cookie_0.get_name());
    assert_eq!("nokey", parsed_cookie_0.get_value());
}

#[test]
fn cookie_two_cookies() {
    const COOKIE_STR: &'static str = "test1=01234; test2=testval";
    let parsed_cookies = Cookie::parse(COOKIE_STR).unwrap();
    assert_eq!(2, parsed_cookies.len());

    let parsed_cookie_0 = &parsed_cookies[0];
    assert_eq!("test1", parsed_cookie_0.get_name());
    assert_eq!("01234", parsed_cookie_0.get_value());

    let parsed_cookie_1 = &parsed_cookies[1];
    assert_eq!("test2", parsed_cookie_1.get_name());
    assert_eq!("testval", parsed_cookie_1.get_value());
}

#[test]
fn cookie_three_cookies() {
    const COOKIE_STR: &'static str = "test1=0x1234; test2=test2; third_val=v4lue";
    let parsed_cookies = Cookie::parse(COOKIE_STR).unwrap();
    assert_eq!(3, parsed_cookies.len());

    let parsed_cookie_0 = &parsed_cookies[0];
    assert_eq!("test1", parsed_cookie_0.get_name());
    assert_eq!("0x1234", parsed_cookie_0.get_value());

    let parsed_cookie_1 = &parsed_cookies[1];
    assert_eq!("test2", parsed_cookie_1.get_name());
    assert_eq!("test2", parsed_cookie_1.get_value());

    let parsed_cookie_2 = &parsed_cookies[2];
    assert_eq!("third_val", parsed_cookie_2.get_name());
    assert_eq!("v4lue", parsed_cookie_2.get_value());
}

#[test]
fn cookie_three_cookies_ows_before() {
    const COOKIE_STR: &'static str = " test1=0x1234; test2=test2; third_val=v4lue";
    let parsed_cookies = Cookie::parse(COOKIE_STR).unwrap();
    assert_eq!(3, parsed_cookies.len());

    let parsed_cookie_0 = &parsed_cookies[0];
    assert_eq!("test1", parsed_cookie_0.get_name());
    assert_eq!("0x1234", parsed_cookie_0.get_value());

    let parsed_cookie_1 = &parsed_cookies[1];
    assert_eq!("test2", parsed_cookie_1.get_name());
    assert_eq!("test2", parsed_cookie_1.get_value());

    let parsed_cookie_2 = &parsed_cookies[2];
    assert_eq!("third_val", parsed_cookie_2.get_name());
    assert_eq!("v4lue", parsed_cookie_2.get_value());
}

#[test]
fn cookie_three_cookies_ows_after() {
    const COOKIE_STR: &'static str = "test1=0x1234; test2=test2; third_val=v4lue   ";
    let parsed_cookies = Cookie::parse(COOKIE_STR).unwrap();
    assert_eq!(3, parsed_cookies.len());

    let parsed_cookie_0 = &parsed_cookies[0];
    assert_eq!("test1", parsed_cookie_0.get_name());
    assert_eq!("0x1234", parsed_cookie_0.get_value());

    let parsed_cookie_1 = &parsed_cookies[1];
    assert_eq!("test2", parsed_cookie_1.get_name());
    assert_eq!("test2", parsed_cookie_1.get_value());

    let parsed_cookie_2 = &parsed_cookies[2];
    assert_eq!("third_val", parsed_cookie_2.get_name());
    assert_eq!("v4lue", parsed_cookie_2.get_value());
}

#[test]
fn cookie_three_cookies_ows_before_and_after() {
    const COOKIE_STR: &'static str = "   test1=0x1234; test2=test2; third_val=v4lue ";
    let parsed_cookies = Cookie::parse(COOKIE_STR).unwrap();
    assert_eq!(3, parsed_cookies.len());

    let parsed_cookie_0 = &parsed_cookies[0];
    assert_eq!("test1", parsed_cookie_0.get_name());
    assert_eq!("0x1234", parsed_cookie_0.get_value());

    let parsed_cookie_1 = &parsed_cookies[1];
    assert_eq!("test2", parsed_cookie_1.get_name());
    assert_eq!("test2", parsed_cookie_1.get_value());

    let parsed_cookie_2 = &parsed_cookies[2];
    assert_eq!("third_val", parsed_cookie_2.get_name());
    assert_eq!("v4lue", parsed_cookie_2.get_value());
}

#[test]
fn cookie_is_str_all_tokens_empty() {
    assert_eq!(true, is_str_all_tokens(""));
}

#[test]
fn cookie_is_str_all_tokens_true() {
    assert_eq!(true, is_str_all_tokens("hello"));
}

#[test]
fn cookie_is_str_all_tokens_false() {
    assert_eq!(false, is_str_all_tokens("[hello]"));
}

#[test]
fn cookie_is_str_all_cookie_octets_empty() {
    assert_eq!(true, is_str_all_cookie_octets(""));
}

#[test]
fn cookie_is_str_all_cookie_octets_true() {
    assert_eq!(true, is_str_all_cookie_octets("hello"));
}

#[test]
fn cookie_is_str_all_cookie_octets_true_with_non_token_chars() {
    assert_eq!(true, is_str_all_cookie_octets("[hello]"));
}

#[test]
fn cookie_is_str_all_cookie_octets_false() {
    assert_eq!(false, is_str_all_cookie_octets("=hello"));
}

#[test]
fn emit_empty() {
    assert_eq!("", Cookie::emit(vec![]).unwrap());
}

#[test]
fn emit_single() {
    assert_eq!(
        "testkey=testvalue",
        Cookie::emit(vec![Cookie::new("testkey", "testvalue")]).unwrap()
    );
}

#[test]
fn emit_two() {
    assert_eq!(
        "abc=123; hello=world",
        Cookie::emit(vec![
            Cookie::new("abc", "123"),
            Cookie::new("hello", "world")
        ])
        .unwrap()
    );
}

#[test]
fn cookie_emit_invalid_token() {
    assert!(
        Cookie::emit(vec![Cookie::new("[abc]", "123")]).is_err(),
        "EncodingError expected but result was successful."
    );
}

#[test]
fn cookie_emit_invalid_cookie_value() {
    assert!(
        Cookie::emit(vec![Cookie::new("abc", "\"123\"")]).is_err(),
        "EncodingError expected but result was successful."
    );
}
