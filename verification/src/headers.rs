//! The HTTP headers that the search endpoint expects.
use vstd::prelude::*;

use reqwest::header::{HeaderMap, HeaderName, HeaderValue};

use crate::text::{chars_of, lower_case, string_from_chars, to_lower};

verus! {

/// The endpoint that streams the offers of a search.
pub const FLYSOAR_URL: &'static str = "https://flysoar.ai/api/search/stream";

/// The site's origin, sent as `Origin` and as the fallback `Referer`.
pub const FLYSOAR_BASE: &'static str = "https://flysoar.ai";

/// The site's home page, the `Referer` of a multi-city search.
pub const FLYSOAR_HOME: &'static str = "https://flysoar.ai/";

/// The browser identity that the endpoint expects.
pub const USER_AGENT_STR: &'static str = "Mozilla/5.0 (Macintosh; Intel Mac OS X 10_15_7) AppleWebKit/537.36 (KHTML, like Gecko) Chrome/124.0.0.0 Safari/537.36";

#[verifier::external_type_specification]
#[verifier::external_body]
#[verifier::reject_recursive_types(T)]
pub struct ExHeaderMap<T>(reqwest::header::HeaderMap<T>);

#[verifier::external_type_specification]
#[verifier::external_body]
pub struct ExHeaderValue(reqwest::header::HeaderValue);

/// What a header map holds: the name of each header and the text of its
/// value.
pub uninterp spec fn header_entries(m: HeaderMap) -> Map<Seq<char>, Seq<char>>;

/// No headers at all.
pub open spec fn no_headers() -> Map<Seq<char>, Seq<char>> {
    Map::empty()
}

/// The headers of a search whose `Referer` is `referer`.
pub open spec fn search_headers(referer: Seq<char>) -> Map<Seq<char>, Seq<char>> {
    no_headers().insert("content-type"@, "application/json"@).insert("accept"@, "*/*"@).insert(
        "origin"@,
        FLYSOAR_BASE@,
    ).insert("referer"@, referer).insert("user-agent"@, USER_AGENT_STR@)
}

/// Header names that `HeaderName::from_static` takes: non-empty, short, of
/// small letters, digits and hyphens (a part of what it takes).
pub open spec fn header_name_ok(n: Seq<char>) -> bool {
    &&& 0 < n.len() <= 64
    &&& forall|i: int|
        0 <= i < n.len() ==> ('a' <= #[trigger] n[i] <= 'z') || ('0' <= n[i] <= '9') || n[i] == '-'
}

/// Text in printable ASCII.
pub open spec fn printable_ascii(s: Seq<char>) -> bool {
    forall|i: int| 0 <= i < s.len() ==> ' ' <= #[trigger] s[i] <= '~'
}

/// The bytes that `HeaderValue::from_str` accepts: each visible ASCII or
/// above (32 and up, but not 127), or a tab.
pub open spec fn header_value_ok(b: Seq<u8>) -> bool {
    forall|i: int| 0 <= i < b.len() ==> (b[i] >= 32 && b[i] != 127) || b[i] == 9
}

/// What `str::get(2..)` gives of a date, or the whole date when that is
/// `None`: the text after its first two bytes, when they end a character.
pub open spec fn date_tail(d: Seq<char>) -> Seq<char> {
    let b = vstd::utf8::encode_utf8(d);
    if vstd::utf8::is_char_boundary(b, 2) {
        vstd::utf8::decode_utf8(b.subrange(2, b.len() as int))
    } else {
        d
    }
}

/// A date as the referer path writes it: `2026-07-15` becomes `260715`.
pub open spec fn short_date(d: Seq<char>) -> Seq<char> {
    date_tail(d).filter(|c: char| c != '-')
}

/// The referer path of a search:
/// `https://flysoar.ai/flights/<origin>/<destination>/<yyMMdd>/`, origin and
/// destination lower-cased, and `<return yyMMdd>/` after it for a round trip.
pub open spec fn referer_for(
    origin: Seq<char>,
    destination: Seq<char>,
    date: Seq<char>,
    return_date: Option<Seq<char>>,
) -> Seq<char> {
    let base = FLYSOAR_BASE@ + "/flights/"@ + lower_case(origin) + "/"@ + lower_case(destination)
        + "/"@ + short_date(date) + "/"@;
    match return_date {
        Some(r) => base + short_date(r) + "/"@,
        None => base,
    }
}

/// The headers of a one-way or round-trip search: the referer of its route,
/// or the site's origin when reqwest would refuse that referer.
pub open spec fn flat_search_headers(
    origin: Seq<char>,
    destination: Seq<char>,
    date: Seq<char>,
    return_date: Option<Seq<char>>,
) -> Map<Seq<char>, Seq<char>> {
    let referer = referer_for(origin, destination, date, return_date);
    search_headers(
        if header_value_ok(vstd::utf8::encode_utf8(referer)) {
            referer
        } else {
            FLYSOAR_BASE@
        },
    )
}

pub open spec fn opt_text(s: Option<&str>) -> Option<Seq<char>> {
    match s {
        Some(t) => Some(t@),
        None => None,
    }
}

/// `HeaderValue::from_str(s).is_ok()`: whether reqwest (the `http` crate)
/// takes `s` as a header value. The contract restates the byte test of
/// `http`'s source.
#[verifier::external_body]
fn header_value_accepted(s: &str) -> (r: bool)
    ensures
        r == header_value_ok(vstd::utf8::encode_utf8(s@)),
{
    reqwest::header::HeaderValue::from_str(s).is_ok()
}

/// `HeaderMap::new()`: an empty map.
#[verifier::external_body]
fn new_header_map() -> (m: HeaderMap)
    ensures
        header_entries(m) == no_headers(),
{
    HeaderMap::new()
}

/// `HeaderMap::insert` of the header `name` (made with
/// `HeaderName::from_static`) with the value `value` (made with
/// `HeaderValue::from_str`, which the `requires` lets succeed). As the
/// crate documents, the new value replaces any earlier one for that name.
/// The map stays far below the capacity at which `insert` panics.
#[verifier::external_body]
fn insert_header(m: &mut HeaderMap, name: &'static str, value: &str)
    requires
        header_name_ok(name@),
        header_value_ok(vstd::utf8::encode_utf8(value@)),
        header_entries(*old(m)).dom().finite(),
        header_entries(*old(m)).dom().len() < 64,
    ensures
        header_entries(*final(m)) == header_entries(*old(m)).insert(name@, value@),
{
    m.insert(HeaderName::from_static(name), HeaderValue::from_str(value).unwrap());
}

proof fn lemma_printable_value(s: Seq<char>)
    requires
        printable_ascii(s),
    ensures
        header_value_ok(vstd::utf8::encode_utf8(s)),
{
    assert(vstd::utf8::is_ascii_chars(s));
    vstd::utf8::is_ascii_chars_encode_utf8(s);
    let b = vstd::utf8::encode_utf8(s);
    assert forall|i: int| 0 <= i < b.len() implies (b[i] >= 32 && b[i] != 127) || b[i] == 9 by {
        assert(b[i] == s[i] as u8);
        assert(' ' <= s[i] <= '~');
    }
}

proof fn lemma_fixed_headers_ok()
    ensures
        header_name_ok("content-type"@),
        header_name_ok("accept"@),
        header_name_ok("origin"@),
        header_name_ok("referer"@),
        header_name_ok("user-agent"@),
        header_value_ok(vstd::utf8::encode_utf8("application/json"@)),
        header_value_ok(vstd::utf8::encode_utf8("*/*"@)),
        header_value_ok(vstd::utf8::encode_utf8(FLYSOAR_BASE@)),
        header_value_ok(vstd::utf8::encode_utf8(FLYSOAR_HOME@)),
        header_value_ok(vstd::utf8::encode_utf8(USER_AGENT_STR@)),
{
    reveal_strlit("content-type");
    reveal_strlit("accept");
    reveal_strlit("origin");
    reveal_strlit("referer");
    reveal_strlit("user-agent");
    reveal_strlit("application/json");
    reveal_strlit("*/*");
    reveal_strlit("https://flysoar.ai");
    reveal_strlit("https://flysoar.ai/");
    reveal_strlit(
        "Mozilla/5.0 (Macintosh; Intel Mac OS X 10_15_7) AppleWebKit/537.36 (KHTML, like Gecko) Chrome/124.0.0.0 Safari/537.36",
    );
    lemma_printable_value("application/json"@);
    lemma_printable_value("*/*"@);
    lemma_printable_value(FLYSOAR_BASE@);
    lemma_printable_value(FLYSOAR_HOME@);
    lemma_printable_value(USER_AGENT_STR@);
}

fn headers_with_referer(referer: &str) -> (hs: HeaderMap)
    requires
        header_value_ok(vstd::utf8::encode_utf8(referer@)),
    ensures
        header_entries(hs) == search_headers(referer@),
{
    proof {
        lemma_fixed_headers_ok();
    }
    let mut hs = new_header_map();
    insert_header(&mut hs, "content-type", "application/json");
    insert_header(&mut hs, "accept", "*/*");
    insert_header(&mut hs, "origin", FLYSOAR_BASE);
    insert_header(&mut hs, "referer", referer);
    insert_header(&mut hs, "user-agent", USER_AGENT_STR);
    hs
}

/// The text of a date after its first two bytes (`date.get(2..)`), or the
/// whole date when they do not end a character.
fn date_tail_str(d: &str) -> (r: &str)
    ensures
        r@ == date_tail(d@),
{
    if d.is_char_boundary(2) {
        let (_, rest) = d.split_at(2);
        proof {
            vstd::utf8::encode_utf8_decode_utf8(rest@);
        }
        rest
    } else {
        d
    }
}

fn short_date_string(d: &str) -> (r: String)
    ensures
        r@ == short_date(d@),
{
    let v = chars_of(date_tail_str(d));
    let ghost t = v@;
    let mut out: Vec<char> = Vec::new();
    let mut i: usize = 0;
    while i < v.len()
        invariant
            i <= v.len(),
            t == v@,
            out@ == t.take(i as int).filter(|c: char| c != '-'),
        decreases v.len() - i,
    {
        proof {
            assert(t.take(i + 1).drop_last() =~= t.take(i as int));
            reveal_with_fuel(Seq::<_>::filter, 1);
        }
        if v[i] != '-' {
            out.push(v[i]);
        }
        i = i + 1;
    }
    assert(t.take(v.len() as int) =~= t);
    string_from_chars(out.as_slice())
}

/// The headers of a one-way or round-trip search. The `Referer` names the
/// route and dates; when reqwest would refuse it as a header value, the
/// site's origin is sent in its place.
pub fn build_headers(origin: &str, destination: &str, date: &str, return_date: Option<&str>) -> (hs:
    HeaderMap)
    ensures
        header_entries(hs) == flat_search_headers(origin@, destination@, date@, opt_text(return_date)),
{
    let mut referer = FLYSOAR_BASE.to_string();
    referer.append("/flights/");
    referer.append(to_lower(origin).as_str());
    referer.append("/");
    referer.append(to_lower(destination).as_str());
    referer.append("/");
    referer.append(short_date_string(date).as_str());
    referer.append("/");
    match return_date {
        Some(r) => {
            referer.append(short_date_string(r).as_str());
            referer.append("/");
        },
        None => {},
    }
    if header_value_accepted(referer.as_str()) {
        headers_with_referer(referer.as_str())
    } else {
        proof {
            lemma_fixed_headers_ok();
        }
        headers_with_referer(FLYSOAR_BASE)
    }
}

/// The headers of a multi-city search: the `Referer` is the site's home
/// page, `https://flysoar.ai/`.
pub fn build_headers_multicity() -> (hs: HeaderMap)
    ensures
        header_entries(hs) == search_headers(FLYSOAR_HOME@),
{
    proof {
        lemma_fixed_headers_ok();
    }
    headers_with_referer(FLYSOAR_HOME)
}

} // verus!
