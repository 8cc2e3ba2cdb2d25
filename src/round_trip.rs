//! What parsing makes of emitted cookie strings.
use crate::char_class::{cookie_octet_char, token_char};
use crate::string_scanner::{
    find_char, find_char_or_ows, is_ows, lemma_find_char, lemma_find_char_or_ows, lemma_skip_ows,
    skip_ows,
};
use crate::user_agent_cookie::{
    all_valid, cookies_from, header_text, lemma_value_span, pair_text, parse_spec, valid_pair,
    value_present, value_span, CookieView,
};
use vstd::prelude::*;

verus! {

/// Every codepoint of `w` is a tab or a space.
pub open spec fn all_ows(w: Seq<char>) -> bool {
    forall|i: int| 0 <= i < w.len() ==> is_ows(#[trigger] w[i])
}

/// The pairs of `cs` joined by `"; "`, with the whitespace `pads[i]` in front
/// of pair `i` and `tail` after the last pair.
pub open spec fn padded_header(cs: Seq<CookieView>, pads: Seq<Seq<char>>, tail: Seq<char>) -> Seq<
    char,
>
    decreases cs.len(),
{
    if cs.len() == 0 {
        tail
    } else if cs.len() == 1 {
        pads[0] + pair_text(cs[0]) + tail
    } else {
        pads[0] + pair_text(cs[0]) + seq![';', ' '] + padded_header(
            cs.drop_first(),
            pads.drop_first(),
            tail,
        )
    }
}

proof fn lemma_token_char(c: char)
    requires
        token_char(c),
    ensures
        c != '=',
        !is_ows(c),
{
}

proof fn lemma_cookie_octet_char(c: char)
    requires
        cookie_octet_char(c),
    ensures
        c != ';',
        c != '"',
        !is_ows(c),
{
}

proof fn lemma_skip_run(s: Seq<char>, p: int, q: int)
    requires
        p <= q <= s.len(),
        forall|k: int| p <= k < q ==> is_ows(#[trigger] s[k]),
    ensures
        skip_ows(s, p) == skip_ows(s, q),
    decreases q - p,
{
    if p < q {
        lemma_skip_run(s, p + 1, q);
    }
}

proof fn lemma_find_run(s: Seq<char>, p: int, q: int, c: char)
    requires
        p <= q <= s.len(),
        forall|k: int| p <= k < q ==> #[trigger] s[k] != c,
    ensures
        find_char(s, p, c) == find_char(s, q, c),
    decreases q - p,
{
    if p < q {
        lemma_find_run(s, p + 1, q, c);
    }
}

proof fn lemma_find_or_ows_run(s: Seq<char>, p: int, q: int, c: char)
    requires
        p <= q <= s.len(),
        forall|k: int| p <= k < q ==> #[trigger] s[k] != c && !is_ows(s[k]),
    ensures
        find_char_or_ows(s, p, c) == find_char_or_ows(s, q, c),
    decreases q - p,
{
    if p < q {
        lemma_find_or_ows_run(s, p + 1, q, c);
    }
}

/// How the scans read one pair laid out as whitespace over `a..b`, a name over
/// `b..e`, an `=` at `e` and a value over `e + 1..ve`, followed by `;`,
/// whitespace or the end.
proof fn lemma_scan_pair(s: Seq<char>, a: int, b: int, e: int, ve: int)
    requires
        0 <= a <= b <= e < s.len(),
        e + 1 <= ve <= s.len(),
        forall|k: int| a <= k < b ==> is_ows(#[trigger] s[k]),
        forall|k: int| b <= k < e ==> token_char(#[trigger] s[k]),
        s[e] == '=',
        forall|k: int| e + 1 <= k < ve ==> cookie_octet_char(#[trigger] s[k]),
        ve < s.len() ==> s[ve] == ';' || is_ows(s[ve]),
    ensures
        skip_ows(s, a) == b,
        find_char(s, b, '=') == e,
        value_span(s, e) == (e + 1, ve, if ve < s.len() && s[ve] == ';' {
            ve + 1
        } else {
            ve
        }),
{
    lemma_skip_run(s, a, b);
    if b < e {
        lemma_token_char(s[b]);
    }
    assert forall|k: int| b <= k < e implies s[k] != '=' by {
        lemma_token_char(s[k]);
    }
    lemma_find_run(s, b, e, '=');
    assert forall|k: int| e + 1 <= k < ve implies s[k] != ';' && !is_ows(s[k]) by {
        lemma_cookie_octet_char(s[k]);
    }
    if e + 1 < ve {
        lemma_cookie_octet_char(s[e + 1]);
    }
    lemma_find_or_ows_run(s, e + 1, ve, ';');
}

/// Parsing from the start of `w name=value rest` reads that pair first, and
/// goes on after the `;` that may follow it.
proof fn lemma_pair_step(
    s: Seq<char>,
    x: Seq<char>,
    w: Seq<char>,
    c: CookieView,
    rest: Seq<char>,
)
    requires
        s == x + w + pair_text(c) + rest,
        all_ows(w),
        valid_pair(c),
        rest.len() > 0 ==> rest[0] == ';' || is_ows(rest[0]),
    ensures
        ({
            let ve = (x.len() + w.len() + pair_text(c).len()) as int;
            &&& ve < s.len() ==> cookies_from(s, x.len() as int) == seq![c] + cookies_from(
                s,
                if s[ve] == ';' {
                    ve + 1
                } else {
                    ve
                },
            )
            &&& ve == s.len() ==> cookies_from(s, x.len() as int) == seq![c]
        }),
{
    let a = x.len() as int;
    let name = c.0;
    let value = c.1;
    let x2 = x + w + pair_text(c);
    assert(s =~= x2 + rest);
    assert(x2 =~= x + w + name + seq!['='] + value);
    let b = a + w.len();
    let e = b + name.len();
    let ve = e + 1 + value.len();
    assert(x2.len() == ve);
    assert(forall|k: int| 0 <= k < ve ==> s[k] == x2[k]);
    assert(forall|k: int| a <= k < b ==> x2[k] == w[k - a]);
    assert(forall|k: int| b <= k < e ==> x2[k] == name[k - b]);
    assert(x2[e] == '=');
    assert(forall|k: int| e + 1 <= k < ve ==> x2[k] == value[k - e - 1]);
    if ve < s.len() {
        assert(s[ve] == rest[0]);
    }
    lemma_scan_pair(s, a, b, e, ve);
    assert(s.subrange(b, e) =~= name);
    assert(s.subrange(e + 1, ve) =~= value);
    assert(c == (s.subrange(b, e), s.subrange(e + 1, ve)));
    if ve == s.len() {
        if value.len() == 0 {
            assert(value =~= Seq::<char>::empty());
            assert(!value_present(s, e));
        } else {
            assert(value_present(s, e));
            assert(cookies_from(s, ve) =~= Seq::<CookieView>::empty());
            assert(seq![c] + cookies_from(s, ve) =~= seq![c]);
        }
    } else {
        assert(value_present(s, e));
    }
}

/// Parsing a padded header from the end of any prefix gives back its pairs.
proof fn lemma_parse_padded(x: Seq<char>, cs: Seq<CookieView>, pads: Seq<Seq<char>>, tail: Seq<char>)
    requires
        all_valid(cs),
        pads.len() == cs.len(),
        forall|i: int| 0 <= i < pads.len() ==> all_ows(#[trigger] pads[i]),
        all_ows(tail),
    ensures
        cookies_from(x + padded_header(cs, pads, tail), x.len() as int) == cs,
    decreases cs.len(), 1nat,
{
    let s = x + padded_header(cs, pads, tail);
    let a = x.len() as int;
    if cs.len() == 0 {
        assert(s =~= x + tail);
        assert(forall|k: int| a <= k < s.len() ==> s[k] == tail[k - a]);
        lemma_skip_run(s, a, s.len() as int);
    } else {
        assert(valid_pair(cs[0]));
        assert(all_ows(pads[0]));
        let ve = a + pads[0].len() + pair_text(cs[0]).len();
        if cs.len() == 1 {
            assert(s =~= x + pads[0] + pair_text(cs[0]) + tail);
            if tail.len() > 0 {
                assert(is_ows(tail[0]));
            }
            lemma_pair_step(s, x, pads[0], cs[0], tail);
            if ve < s.len() {
                assert(forall|k: int| ve <= k < s.len() ==> s[k] == tail[k - ve]);
                lemma_skip_run(s, ve, s.len() as int);
            }
            assert(cookies_from(s, a) =~= cs);
        } else {
            let rest = seq![';', ' '] + padded_header(cs.drop_first(), pads.drop_first(), tail);
            assert(s =~= x + pads[0] + pair_text(cs[0]) + rest);
            lemma_pair_step(s, x, pads[0], cs[0], rest);
            let x2 = x + pads[0] + pair_text(cs[0]);
            assert(s =~= x2 + rest);
            lemma_parse_rest(x2, cs, pads, tail);
            assert(skip_ows(s, ve + 1) == skip_ows(s, ve + 2));
            assert(cookies_from(s, ve + 1) == cookies_from(s, ve + 2));
            assert(cookies_from(s, a) =~= cs);
        }
    }
}

/// The pairs after the first, in a header of two or more.
proof fn lemma_parse_rest(x2: Seq<char>, cs: Seq<CookieView>, pads: Seq<Seq<char>>, tail: Seq<char>)
    requires
        all_valid(cs),
        cs.len() >= 2,
        pads.len() == cs.len(),
        forall|i: int| 0 <= i < pads.len() ==> all_ows(#[trigger] pads[i]),
        all_ows(tail),
    ensures
        ({
            let s = x2 + (seq![';', ' '] + padded_header(cs.drop_first(), pads.drop_first(), tail));
            &&& s[x2.len() as int] == ';'
            &&& s[x2.len() as int + 1] == ' '
            &&& cookies_from(s, x2.len() as int + 2) == cs.drop_first()
        }),
    decreases cs.len(), 0nat,
{
    let rest = padded_header(cs.drop_first(), pads.drop_first(), tail);
    let s = x2 + (seq![';', ' '] + rest);
    let x3 = x2 + seq![';', ' '];
    assert(s =~= x3 + rest);
    assert forall|i: int| 0 <= i < cs.drop_first().len() implies valid_pair(
        #[trigger] cs.drop_first()[i],
    ) by {
        assert(valid_pair(cs[i + 1]));
    }
    assert forall|i: int| 0 <= i < pads.drop_first().len() implies all_ows(
        #[trigger] pads.drop_first()[i],
    ) by {
        assert(all_ows(pads[i + 1]));
    }
    lemma_parse_padded(x3, cs.drop_first(), pads.drop_first(), tail);
}

proof fn lemma_padded_without_whitespace(cs: Seq<CookieView>)
    ensures
        padded_header(cs, Seq::new(cs.len(), |i: int| Seq::<char>::empty()), Seq::empty())
            == header_text(cs),
    decreases cs.len(),
{
    let pads = Seq::new(cs.len(), |i: int| Seq::<char>::empty());
    if cs.len() == 1 {
        assert(pads[0] + pair_text(cs[0]) + Seq::<char>::empty() =~= pair_text(cs[0]));
    } else if cs.len() > 1 {
        assert(pads.drop_first() =~= Seq::new(
            cs.drop_first().len(),
            |i: int| Seq::<char>::empty(),
        ));
        lemma_padded_without_whitespace(cs.drop_first());
        assert(padded_header(cs, pads, Seq::empty()) =~= header_text(cs));
    }
}

/// Parsing the string emitted for pairs whose names are all token
/// characters and whose values are all cookie-octets gives the same pairs.
pub proof fn lemma_round_trip(cs: Seq<CookieView>)
    requires
        all_valid(cs),
    ensures
        parse_spec(header_text(cs)) == cs,
{
    let pads = Seq::new(cs.len(), |i: int| Seq::<char>::empty());
    lemma_padded_without_whitespace(cs);
    lemma_parse_padded(Seq::empty(), cs, pads, Seq::empty());
    assert(Seq::<char>::empty() + header_text(cs) =~= header_text(cs));
}

/// Tabs and spaces in front of each pair of an emitted header, and after its
/// last pair, do not change what parsing finds.
pub proof fn lemma_whitespace_padding(cs: Seq<CookieView>, pads: Seq<Seq<char>>, tail: Seq<char>)
    requires
        all_valid(cs),
        pads.len() == cs.len(),
        forall|i: int| 0 <= i < pads.len() ==> all_ows(#[trigger] pads[i]),
        all_ows(tail),
    ensures
        parse_spec(padded_header(cs, pads, tail)) == parse_spec(header_text(cs)),
{
    lemma_parse_padded(Seq::empty(), cs, pads, tail);
    assert(Seq::<char>::empty() + padded_header(cs, pads, tail) =~= padded_header(cs, pads, tail));
    lemma_round_trip(cs);
}

proof fn lemma_skip_shift(x: Seq<char>, s: Seq<char>, p: int)
    requires
        0 <= p <= s.len(),
    ensures
        skip_ows(x + s, x.len() + p) == x.len() + skip_ows(s, p),
    decreases s.len() - p,
{
    if p < s.len() {
        assert((x + s)[x.len() + p] == s[p]);
        if is_ows(s[p]) {
            lemma_skip_shift(x, s, p + 1);
        }
    }
}

proof fn lemma_find_shift(x: Seq<char>, s: Seq<char>, p: int, c: char)
    requires
        0 <= p <= s.len(),
    ensures
        find_char(x + s, x.len() + p, c) == x.len() + find_char(s, p, c),
    decreases s.len() - p,
{
    if p < s.len() {
        assert((x + s)[x.len() + p] == s[p]);
        if s[p] != c {
            lemma_find_shift(x, s, p + 1, c);
        }
    }
}

proof fn lemma_find_or_ows_shift(x: Seq<char>, s: Seq<char>, p: int, c: char)
    requires
        0 <= p <= s.len(),
    ensures
        find_char_or_ows(x + s, x.len() + p, c) == x.len() + find_char_or_ows(s, p, c),
    decreases s.len() - p,
{
    if p < s.len() {
        assert((x + s)[x.len() + p] == s[p]);
        if s[p] != c && !is_ows(s[p]) {
            lemma_find_or_ows_shift(x, s, p + 1, c);
        }
    }
}

proof fn lemma_value_span_shift(x: Seq<char>, s: Seq<char>, p: int)
    requires
        0 <= p < s.len(),
        s[p] == '=',
    ensures
        value_span(x + s, x.len() + p) == (
            x.len() + value_span(s, p).0,
            x.len() + value_span(s, p).1,
            x.len() + value_span(s, p).2,
        ),
{
    let t = x + s;
    let a = x.len() as int;
    assert(forall|k: int| 0 <= k < s.len() ==> t[a + k] == #[trigger] s[k]);
    let v0 = p + 1;
    if v0 < s.len() && s[v0] == '"' {
        lemma_find_shift(x, s, v0 + 1, '"');
        lemma_find_char(s, v0 + 1, '"');
    } else {
        lemma_find_or_ows_shift(x, s, v0, ';');
        lemma_find_char_or_ows(s, v0, ';');
    }
}

/// What is parsed from a position depends only on the text from there on.
proof fn lemma_cookies_shift(x: Seq<char>, s: Seq<char>, p: int)
    requires
        0 <= p <= s.len(),
    ensures
        cookies_from(x + s, x.len() + p) == cookies_from(s, p),
    decreases s.len() - p,
{
    let t = x + s;
    let a = x.len() as int;
    lemma_skip_shift(x, s, p);
    lemma_skip_ows(s, p);
    let start = skip_ows(s, p);
    if start < s.len() {
        lemma_find_shift(x, s, start, '=');
        lemma_find_char(s, start, '=');
        let eq = find_char(s, start, '=');
        assert(t.subrange(a + start, a + eq) =~= s.subrange(start, eq));
        if eq < s.len() {
            lemma_value_span_shift(x, s, eq);
            lemma_value_span(s, eq);
            let (vs, ve, next) = value_span(s, eq);
            assert(t.subrange(a + vs, a + ve) =~= s.subrange(vs, ve));
            if value_present(s, eq) {
                lemma_cookies_shift(x, s, next);
            }
        } else {
            assert(t.subrange(a + start, t.len() as int) =~= s.subrange(start, s.len() as int));
        }
    }
}

/// Tabs and spaces in front of any cookie string do not change what
/// parsing finds.
pub proof fn lemma_leading_whitespace(w: Seq<char>, s: Seq<char>)
    requires
        all_ows(w),
    ensures
        parse_spec(w + s) == parse_spec(s),
{
    let t = w + s;
    assert(forall|k: int| 0 <= k < w.len() ==> t[k] == w[k]);
    lemma_skip_run(t, 0, w.len() as int);
    assert(cookies_from(t, 0) == cookies_from(t, w.len() as int));
    lemma_cookies_shift(w, s, 0);
}

} // verus!
