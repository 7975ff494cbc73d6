//! The decisions of a search session: building the request from what the
//! user gave, reacting to the events of the stream, and trimming the offers.
use vstd::prelude::*;

use crate::headers::{
    build_headers, build_headers_multicity, flat_search_headers, header_entries, search_headers,
    FLYSOAR_HOME,
};
use crate::text::upper_case;
use crate::validate::{
    date_error, first_error, iata_error, parse_slice_result, request_error, SearchErrorV,
};
use reqwest::header::HeaderMap;

use crate::models::{Offer, SearchRequest, SliceRequest, SseError};
use crate::offers::{
    filter_nonstop_ranked, is_nonstop, nonstop_ranks, offer_keys, sort_offers,
};
use crate::ordering::is_stable_sort_of;
use crate::sse::SseEvent;
use crate::text::{str_eq, to_upper};
use crate::validate::{
    cabin_is_known, cabin_ok, parse_slice, validate_date, validate_iata, validate_search_request, SearchError,
};

verus! {

/// What to do with an event of the stream.
#[derive(Debug, Clone, Copy, PartialEq, Eq, Structural)]
pub enum EventAction {
    /// `offer`: read its data as an offer and keep it.
    CollectOffer,
    /// `error`: read its data as an error report and stop with it.
    RaiseError,
    /// `done`: the search is complete.
    Finish,
    /// Anything else (`created`, `batch`): nothing to do.
    Ignore,
}

pub open spec fn event_action_of(name: Seq<char>) -> EventAction {
    if name == "offer"@ {
        EventAction::CollectOffer
    } else if name == "error"@ {
        EventAction::RaiseError
    } else if name == "done"@ {
        EventAction::Finish
    } else {
        EventAction::Ignore
    }
}

/// Law: an `offer` event is collected, an `error` event raises the error,
/// a `done` event finishes the search, and an event of any other type is
/// passed over.
pub proof fn law_events_by_type(name: Seq<char>)
    ensures
        event_action_of(name) == EventAction::CollectOffer <==> name == "offer"@,
        event_action_of(name) == EventAction::RaiseError <==> name == "error"@,
        event_action_of(name) == EventAction::Finish <==> name == "done"@,
        event_action_of(name) == EventAction::Ignore <==> (name != "offer"@ && name != "error"@ && name
            != "done"@),
{
    reveal_strlit("offer");
    reveal_strlit("error");
    reveal_strlit("done");
    assert("offer"@ != "error"@) by {
        assert("offer"@[0] != "error"@[0]);
    }
    assert("offer"@.len() != "done"@.len() && "error"@.len() != "done"@.len());
}

/// Decides what an event of the stream calls for, by its type.
pub fn handle_event(event: &SseEvent) -> (a: EventAction)
    ensures
        a == event_action_of(event.event@),
{
    let name = event.event.as_str();
    if str_eq(name, "offer") {
        EventAction::CollectOffer
    } else if str_eq(name, "error") {
        EventAction::RaiseError
    } else if str_eq(name, "done") {
        EventAction::Finish
    } else {
        EventAction::Ignore
    }
}

/// Whether enough offers have been collected: a positive `max_offers` has
/// been reached (0 means no limit).
pub fn offer_limit_reached(collected: usize, max_offers: usize) -> (r: bool)
    ensures
        r == (max_offers > 0 && collected >= max_offers),
{
    max_offers > 0 && collected >= max_offers
}

/// The limit passed to the stream: none when offers are to be filtered to
/// nonstop ones afterwards, since the limit then applies after filtering.
pub fn stream_offer_limit(nonstop_only: bool, max_offers: usize) -> (r: usize)
    ensures
        r == (if nonstop_only {
            0
        } else {
            max_offers
        }),
{
    if nonstop_only {
        0
    } else {
        max_offers
    }
}

/// After filtering to nonstop offers, keeps at most `max_offers` of them
/// (0 means all).
pub fn limit_filtered_offers(offers: &mut Vec<Offer>, nonstop_only: bool, max_offers: usize)
    ensures
        final(offers)@ == (if nonstop_only && max_offers > 0 && max_offers < old(offers)@.len() {
            old(offers)@.take(max_offers as int)
        } else {
            old(offers)@
        }),
{
    if nonstop_only && max_offers > 0 {
        offers.truncate(max_offers);
    }
}

/// The decimal digit `d`.
/// Whether `out` is `input` ordered as `sort_offers` orders it under
/// `sort_by`, offer `i` of `input` having price rank `ranks[i]`.
pub open spec fn sorted_as(out: Seq<Offer>, input: Seq<Offer>, sort_by: Seq<char>, ranks: Seq<u64>) -> bool {
    match offer_keys(input, sort_by, ranks) {
        Some(ks) => is_stable_sort_of(out, input, ks),
        None => out == input,
    }
}

/// The offers that remain once nonstop ones are picked out, if asked.
pub open spec fn kept_offers(offers: Seq<Offer>, nonstop_only: bool) -> Seq<Offer> {
    if nonstop_only {
        offers.filter(|o: Offer| is_nonstop(o))
    } else {
        offers
    }
}

/// The price ranks of the offers that `kept_offers` keeps.
pub open spec fn kept_ranks(offers: Seq<Offer>, ranks: Seq<u64>, nonstop_only: bool) -> Seq<u64> {
    if nonstop_only {
        nonstop_ranks(offers, ranks)
    } else {
        ranks
    }
}

/// At most `max_offers` of the first offers once nonstop ones were picked
/// out (0 means all); without that filter, all of them.
pub open spec fn limited(offers: Seq<Offer>, nonstop_only: bool, max_offers: usize) -> Seq<Offer> {
    if nonstop_only && max_offers > 0 && max_offers < offers.len() {
        offers.take(max_offers as int)
    } else {
        offers
    }
}

/// Whether `out` is what a search shows of `offers`: the nonstop ones if
/// asked, ordered under `sort_by`, then cut to `max_offers` if filtered.
pub open spec fn arranged(
    out: Seq<Offer>,
    offers: Seq<Offer>,
    nonstop_only: bool,
    sort_by: Seq<char>,
    ranks: Seq<u64>,
    max_offers: usize,
) -> bool {
    exists|sorted: Seq<Offer>|
        sorted_as(sorted, kept_offers(offers, nonstop_only), sort_by, kept_ranks(offers, ranks, nonstop_only))
            && out == limited(sorted, nonstop_only, max_offers)
}

proof fn lemma_nonstop_ranks_len(offers: Seq<Offer>, ranks: Seq<u64>)
    ensures
        nonstop_ranks(offers, ranks).len() == offers.filter(|o: Offer| is_nonstop(o)).len(),
    decreases offers.len(),
{
    reveal_with_fuel(Seq::<_>::filter, 1);
    if offers.len() > 0 {
        let n = offers.len() - 1;
        assert(offers.take(n) =~= offers.drop_last());
        lemma_nonstop_ranks_len(offers.take(n), ranks);
    }
}

/// Law: what a search shows are offers it received; with `--nonstop-only`
/// every one of them has a single segment in each of its slices and there
/// are at most `max_offers` of them (when that is not 0); without it, every
/// received offer is shown.
pub proof fn law_arranged_offers_are_received_ones(
    out: Seq<Offer>,
    offers: Seq<Offer>,
    nonstop_only: bool,
    sort_by: Seq<char>,
    ranks: Seq<u64>,
    max_offers: usize,
)
    requires
        sort_by == "price"@ ==> ranks.len() == offers.len(),
        arranged(out, offers, nonstop_only, sort_by, ranks, max_offers),
    ensures
        forall|k: int| 0 <= k < out.len() ==> offers.contains(#[trigger] out[k]),
        nonstop_only ==> forall|k: int, i: int|
            0 <= k < out.len() && 0 <= i < out[k].slices@.len() ==> (#[trigger] out[k].slices@[i]).segments@.len()
                == 1,
        nonstop_only && max_offers > 0 ==> out.len() <= max_offers,
        !nonstop_only ==> out.len() == offers.len(),
{
    let kept = kept_offers(offers, nonstop_only);
    let ks = kept_ranks(offers, ranks, nonstop_only);
    let sorted = choose|sorted: Seq<Offer>|
        sorted_as(sorted, kept, sort_by, ks) && out == limited(sorted, nonstop_only, max_offers);
    let pred = |o: Offer| is_nonstop(o);
    if nonstop_only {
        lemma_nonstop_ranks_len(offers, ranks);
    }
    let kk = offer_keys(kept, sort_by, ks);
    if kk is Some {
        assert(kk->0.len() == kept.len()) by {
            if sort_by == "price"@ {
                assert(ks.len() == kept.len());
            }
        }
    }
    let p = choose|p: Seq<int>|
        crate::ordering::sorts_stably(kk->0, p) && sorted == crate::ordering::permuted(kept, p);
    assert(sorted.len() == kept.len());
    assert(out.len() <= sorted.len());
    assert forall|k: int| 0 <= k < out.len() implies offers.contains(#[trigger] out[k]) && (nonstop_only
        ==> is_nonstop(out[k])) by {
        assert(out[k] == sorted[k]);
        let q: int = if kk is Some {
            p[k]
        } else {
            k
        };
        assert(0 <= q < kept.len() && kept[q] == sorted[k]);
        if nonstop_only {
            offers.lemma_filter_pred(pred, q);
            assert(offers.filter(pred).contains(kept[q]));
            offers.lemma_filter_contains_rev(pred, kept[q]);
        } else {
            assert(offers[q] == out[k]);
        }
    }
    if nonstop_only {
        assert forall|k: int, i: int|
            0 <= k < out.len() && 0 <= i < out[k].slices@.len() implies (#[trigger] out[k].slices@[i]).segments@.len()
                == 1 by {
            assert(is_nonstop(out[k]));
        }
    }
}

/// Turns the offers that a search received into those it shows: keeps the
/// nonstop ones if asked, sorts them by `sort_by` (see `sort_offers`; under
/// `price`, `price_ranks[i]` is the rank of offer `i` among all received),
/// then keeps at most `max_offers` if they were filtered. Also returns how
/// many offers the filter kept.
pub fn arrange_offers(
    offers: Vec<Offer>,
    nonstop_only: bool,
    sort_by: &str,
    price_ranks: &Vec<u64>,
    max_offers: usize,
) -> (r: (Vec<Offer>, usize))
    requires
        sort_by@ == "price"@ ==> price_ranks.len() == offers.len(),
    ensures
        arranged(r.0@, offers@, nonstop_only, sort_by@, price_ranks@, max_offers),
        r.1 == kept_offers(offers@, nonstop_only).len(),
        forall|k: int| 0 <= k < r.0@.len() ==> offers@.contains(#[trigger] r.0@[k]),
        nonstop_only ==> forall|k: int, i: int|
            0 <= k < r.0@.len() && 0 <= i < r.0@[k].slices@.len() ==> (#[trigger] r.0@[k].slices@[i]).segments@.len()
                == 1,
        nonstop_only && max_offers > 0 ==> r.0@.len() <= max_offers,
        !nonstop_only ==> r.0@.len() == offers@.len(),
{
    let ghost all = offers@;
    if nonstop_only {
        let (mut kept, ranks) = filter_nonstop_ranked(offers, price_ranks);
        let count = kept.len();
        let ghost kept0 = kept@;
        proof {
            if sort_by@ != "price"@ {
                assert(offer_keys(kept0, sort_by@, ranks@) == offer_keys(
                    kept0,
                    sort_by@,
                    nonstop_ranks(all, price_ranks@),
                ));
            }
        }
        sort_offers(&mut kept, sort_by, &ranks);
        let ghost sorted = kept@;
        limit_filtered_offers(&mut kept, true, max_offers);
        assert(sorted_as(sorted, kept_offers(all, true), sort_by@, kept_ranks(all, price_ranks@, true)));
        assert(kept@ == limited(sorted, true, max_offers));
        proof {
            law_arranged_offers_are_received_ones(kept@, all, true, sort_by@, price_ranks@, max_offers);
        }
        (kept, count)
    } else {
        let mut all_offers = offers;
        let count = all_offers.len();
        sort_offers(&mut all_offers, sort_by, price_ranks);
        assert(sorted_as(all_offers@, all, sort_by@, price_ranks@));
        assert(all_offers@ == limited(all_offers@, false, max_offers));
        proof {
            law_arranged_offers_are_received_ones(all_offers@, all, false, sort_by@, price_ranks@, max_offers);
        }
        (all_offers, count)
    }
}

/// How the offers are shown.
#[derive(Debug, Clone, Copy, PartialEq, Eq, Structural)]
pub enum OutputFormat {
    Json,
    Csv,
    Table,
}

/// The output format that a name chooses, if it names one.
pub open spec fn output_format_of(name: Seq<char>) -> Option<OutputFormat> {
    if name == "json"@ {
        Some(OutputFormat::Json)
    } else if name == "csv"@ {
        Some(OutputFormat::Csv)
    } else if name == "table"@ {
        Some(OutputFormat::Table)
    } else {
        None
    }
}

/// Reads the `--output` flag: `json`, `csv` or `table`.
pub fn output_format(name: &str) -> (r: Result<OutputFormat, SearchError>)
    ensures
        r matches Ok(f) ==> output_format_of(name@) == Some(f),
        r is Err <==> output_format_of(name@) is None,
        r matches Err(e) ==> e@ == SearchErrorV::InvalidOutputFormat(name@),
{
    if str_eq(name, "json") {
        Ok(OutputFormat::Json)
    } else if str_eq(name, "csv") {
        Ok(OutputFormat::Csv)
    } else if str_eq(name, "table") {
        Ok(OutputFormat::Table)
    } else {
        Err(SearchError::InvalidOutputFormat(name.to_string()))
    }
}

pub open spec fn digit_char(d: nat) -> char {
    ((48 + d) as u32) as char
}

/// The decimal digits of `n`, most significant first.
pub open spec fn nat_digits(n: nat) -> Seq<char>
    decreases n,
{
    if n < 10 {
        seq![digit_char(n)]
    } else {
        nat_digits(n / 10).push(digit_char(n % 10))
    }
}

/// Law: the decimal text of a number is a non-empty run of ASCII digits,
/// with no leading zero but for 0 itself, that reads back as the number.
pub proof fn law_decimal_text_reads_back(n: nat)
    ensures
        nat_digits(n).len() > 0,
        forall|i: int| 0 <= i < nat_digits(n).len() ==> '0' <= #[trigger] nat_digits(n)[i] <= '9',
        n > 0 ==> nat_digits(n)[0] != '0',
        n == 0 ==> nat_digits(n) == seq!['0'],
        crate::text::digits_value(nat_digits(n)) == n,
    decreases n,
{
    let d = n % 10;
    assert(((48 + d) as u32) as char as u32 == 48 + d) by {
        assert(d < 10);
    }
    if n >= 10 {
        law_decimal_text_reads_back(n / 10);
        let t = nat_digits(n / 10);
        assert(nat_digits(n) == t.push(digit_char(d)));
        assert(nat_digits(n).drop_last() =~= t);
        assert forall|i: int| 0 <= i < nat_digits(n).len() implies '0' <= #[trigger] nat_digits(n)[i] <= '9' by {
            if i < t.len() {
                assert(nat_digits(n)[i] == t[i]);
            }
        }
        assert(nat_digits(n)[0] == t[0]);
        assert(nat_digits(n).last() == digit_char(d));
        assert(('0' as u32) == 48);
        assert(((digit_char(d) as u32) - ('0' as u32)) as nat == d);
        assert(crate::text::digits_value(nat_digits(n)) == crate::text::digits_value(t) * 10 + d);
        assert((n / 10) * 10 + d == n);
    } else {
        assert(nat_digits(n) =~= seq![digit_char(n)]);
        assert(seq![digit_char(n)].drop_last() =~= Seq::<char>::empty());
        assert(('0' as u32) == 48);
        assert(nat_digits(n).last() == digit_char(d));
        assert(((digit_char(d) as u32) - ('0' as u32)) as nat == d);
        assert(d == n);
        assert(crate::text::digits_value(Seq::<char>::empty()) == 0);
        assert(crate::text::digits_value(nat_digits(n)) == crate::text::digits_value(
            nat_digits(n).drop_last(),
        ) * 10 + d);
        if n == 0 {
            assert(digit_char(0) == '0');
        }
    }
}

/// An integer in decimal, with a minus sign when negative.
pub open spec fn int_text(n: int) -> Seq<char> {
    if n < 0 {
        seq!['-'] + nat_digits((-n) as nat)
    } else {
        nat_digits(n as nat)
    }
}

pub(crate) fn digits_of(n: u64) -> (v: Vec<char>)
    ensures
        v@ == nat_digits(n as nat),
    decreases n,
{
    let d = (n % 10) as u8;
    let c = (48u8 + d) as char;
    if n < 10 {
        let mut v: Vec<char> = Vec::new();
        v.push(c);
        v
    } else {
        let mut v = digits_of(n / 10);
        v.push(c);
        v
    }
}

/// An `i64` in decimal, as `to_string` writes it.
pub fn long_to_text(n: i64) -> (s: String)
    ensures
        s@ == int_text(n as int),
{
    let wide = n as i128;
    if wide < 0 {
        let mut v: Vec<char> = Vec::new();
        v.push('-');
        let mut digits = digits_of((-wide) as u64);
        v.append(&mut digits);
        crate::text::string_from_chars(v.as_slice())
    } else {
        let v = digits_of(wide as u64);
        crate::text::string_from_chars(v.as_slice())
    }
}

/// An `i32` in decimal, as `to_string` writes it.
pub fn int_to_text(n: i32) -> (s: String)
    ensures
        s@ == int_text(n as int),
{
    let wide = n as i64;
    if wide < 0 {
        let mut v: Vec<char> = Vec::new();
        v.push('-');
        let mut digits = digits_of((-wide) as u64);
        v.append(&mut digits);
        crate::text::string_from_chars(v.as_slice())
    } else {
        let v = digits_of(wide as u64);
        crate::text::string_from_chars(v.as_slice())
    }
}

/// The words of the error that ends a search on an `error` event; a
/// missing status reads as 0.
pub open spec fn search_error_text(err: SseError) -> Seq<char> {
    "FlySoar search error: "@ + err.error@ + " (status "@ + int_text(
        match err.status {
            Some(s) => s as int,
            None => 0,
        },
    ) + ")"@
}

/// The message of the error that ends a search on an `error` event.
pub fn search_error_message(err: &SseError) -> (s: String)
    ensures
        s@ == search_error_text(*err),
{
    let status = match err.status {
        Some(s) => s,
        None => 0,
    };
    let mut s = "FlySoar search error: ".to_string();
    s.append(err.error.as_str());
    s.append(" (status ");
    s.append(int_to_text(status).as_str());
    s.append(")");
    s
}

/// The standard reason phrase of an HTTP status code, where one is known.
pub uninterp spec fn reason_phrase(code: u16) -> Option<Seq<char>>;

/// `reqwest::StatusCode::from_u16` and then `canonical_reason`: the reason
/// phrase that the http crate gives for `code` (such as `Not Found` for
/// 404), or `None` for a code it knows no phrase for or does not accept.
/// The phrase is named, not spelled out: it comes from the crate's table.
#[verifier::external_body]
fn canonical_reason(code: u16) -> (r: Option<String>)
    ensures
        opt_string(r) == reason_phrase(code),
{
    reqwest::StatusCode::from_u16(code).ok().and_then(|s| s.canonical_reason()).map(|p| p.to_string())
}

/// The words of the error that a refused request ends with, given the
/// status's reason phrase: a 400 shows the code alone, any other code its
/// code and phrase (`<unknown status code>` without one), then the body.
pub open spec fn status_error_text(code: u16, reason: Option<Seq<char>>, body: Seq<char>) -> Seq<char> {
    if code == 400 {
        "FlySoar error (400): "@ + body
    } else {
        "FlySoar error ("@ + int_text(code as int) + " "@ + match reason {
            Some(p) => p,
            None => "<unknown status code>"@,
        } + "): "@ + body
    }
}

/// The message of a refused request from its status code, the status's
/// reason phrase and the response body.
pub fn status_error_text_with(code: u16, reason: Option<String>, body: &str) -> (s: String)
    ensures
        s@ == status_error_text(code, opt_string(reason), body@),
{
    if code == 400 {
        let mut s = "FlySoar error (400): ".to_string();
        s.append(body);
        return s;
    }
    let mut s = "FlySoar error (".to_string();
    s.append(int_to_text(code as i32).as_str());
    s.append(" ");
    match &reason {
        Some(p) => s.append(p.as_str()),
        None => s.append("<unknown status code>"),
    }
    s.append("): ");
    s.append(body);
    s
}

/// The message of a refused request: its status code (with the standard
/// reason phrase but for a 400) and the response body.
pub fn status_error_message(code: u16, body: &str) -> (s: String)
    ensures
        s@ == status_error_text(code, reason_phrase(code), body@),
{
    let reason = canonical_reason(code);
    status_error_text_with(code, reason, body)
}

/// Checks the cabin given on the command line.
pub fn validate_cabin(cabin: &str) -> (r: Result<(), SearchError>)
    ensures
        r is Ok <==> cabin_ok(cabin@),
        r matches Err(e) ==> e@ == crate::validate::SearchErrorV::InvalidCabin(cabin@),
{
    if cabin_is_known(cabin) {
        Ok(())
    } else {
        Err(SearchError::InvalidCabin(cabin.to_string()))
    }
}

pub open spec fn opt_string(s: Option<String>) -> Option<Seq<char>> {
    match s {
        Some(t) => Some(t@),
        None => None,
    }
}

/// Why the flags of a one-way or round-trip search are refused, if they
/// are: origin, destination and date must be given; the codes, upper-cased,
/// must be IATA codes, and the dates valid.
pub open spec fn flags_error(
    origin: Option<String>,
    destination: Option<String>,
    date: Option<String>,
    return_date: Option<String>,
) -> Option<SearchErrorV> {
    match (origin, destination, date) {
        (None, _, _) => Some(SearchErrorV::MissingOriginFlag),
        (Some(_), None, _) => Some(SearchErrorV::MissingDestinationFlag),
        (Some(_), Some(_), None) => Some(SearchErrorV::MissingDateFlag),
        (Some(o), Some(d), Some(t)) => first_error(
            iata_error(upper_case(o@)),
            first_error(
                iata_error(upper_case(d@)),
                first_error(
                    date_error(t@),
                    match return_date {
                        Some(r) => date_error(r@),
                        None => None,
                    },
                ),
            ),
        ),
    }
}

/// Law: the flags make a search only with an origin, a destination and a
/// date, the two codes three ASCII letters once upper-cased; and they do
/// when the upper-cased codes are three ASCII letters (`Z` included) and
/// the dates are good.
pub proof fn law_flags_need_letter_codes(
    origin: Option<String>,
    destination: Option<String>,
    date: Option<String>,
    return_date: Option<String>,
)
    ensures
        flags_error(origin, destination, date, return_date) is None ==> origin is Some && destination is Some
            && date is Some && {
            let o = upper_case(origin->0@);
            let d = upper_case(destination->0@);
            &&& o.len() == 3
            &&& forall|i: int| 0 <= i < 3 ==> ('a' <= #[trigger] o[i] <= 'z') || ('A' <= o[i] <= 'Z')
            &&& d.len() == 3
            &&& forall|i: int| 0 <= i < 3 ==> ('a' <= #[trigger] d[i] <= 'z') || ('A' <= d[i] <= 'Z')
        },
        (origin is Some && destination is Some && date is Some && {
            let o = upper_case(origin->0@);
            let d = upper_case(destination->0@);
            &&& o.len() == 3
            &&& forall|i: int| 0 <= i < 3 ==> ('a' <= #[trigger] o[i] <= 'z') || ('A' <= o[i] <= 'Z')
            &&& d.len() == 3
            &&& forall|i: int| 0 <= i < 3 ==> ('a' <= #[trigger] d[i] <= 'z') || ('A' <= d[i] <= 'Z')
            &&& date_error(date->0@) is None
            &&& return_date matches Some(r) ==> date_error(r@) is None
        }) ==> flags_error(origin, destination, date, return_date) is None,
{
    if origin is Some && destination is Some {
        crate::validate::law_iata_codes_are_three_letters(upper_case(origin->0@));
        crate::validate::law_iata_codes_are_three_letters(upper_case(destination->0@));
    }
}

/// Builds a one-way or round-trip search from the command-line flags; see
/// `flags_error` for when it is refused. The codes are sent upper-cased.
pub fn request_from_flags(
    origin: Option<String>,
    destination: Option<String>,
    date: Option<String>,
    return_date: Option<String>,
    cabin: String,
    passengers: i32,
) -> (r: Result<(SearchRequest, HeaderMap), SearchError>)
    ensures
        match r {
            Err(e) => flags_error(origin, destination, date, return_date) == Some(e@),
            Ok((req, hs)) => {
                &&& flags_error(origin, destination, date, return_date) is None
                &&& opt_string(req.origin) == Some(upper_case(origin.unwrap()@))
                &&& opt_string(req.destination) == Some(upper_case(destination.unwrap()@))
                &&& opt_string(req.date) == opt_string(date)
                &&& opt_string(req.return_date) == opt_string(return_date)
                &&& req.slices is None
                &&& req.cabin@ == cabin@
                &&& req.passengers == passengers
                &&& header_entries(hs) == flat_search_headers(
                    upper_case(origin.unwrap()@),
                    upper_case(destination.unwrap()@),
                    date.unwrap()@,
                    opt_string(return_date),
                )
            },
        },
{
    let origin = match origin {
        Some(o) => o,
        None => return Err(SearchError::MissingOriginFlag),
    };
    let destination = match destination {
        Some(d) => d,
        None => return Err(SearchError::MissingDestinationFlag),
    };
    let date = match date {
        Some(d) => d,
        None => return Err(SearchError::MissingDateFlag),
    };
    let origin = to_upper(origin.as_str());
    let destination = to_upper(destination.as_str());
    validate_iata(origin.as_str())?;
    validate_iata(destination.as_str())?;
    validate_date(date.as_str())?;
    match &return_date {
        Some(rd) => validate_date(rd.as_str())?,
        None => {},
    }
    let headers = match &return_date {
        Some(rd) => build_headers(origin.as_str(), destination.as_str(), date.as_str(), Some(rd.as_str())),
        None => build_headers(origin.as_str(), destination.as_str(), date.as_str(), None),
    };
    let req = SearchRequest {
        origin: Some(origin),
        destination: Some(destination),
        date: Some(date),
        return_date,
        slices: None,
        cabin,
        passengers,
    };
    Ok((req, headers))
}

/// The slices read from the `--slices` items, when every item reads.
pub open spec fn slices_read(items: Seq<String>, slices: Seq<SliceRequest>) -> bool {
    &&& slices.len() == items.len()
    &&& forall|i: int|
        0 <= i < items.len() ==> parse_slice_result(#[trigger] items[i]@) == Ok::<_, SearchErrorV>(
            (slices[i].origin@, slices[i].destination@, slices[i].departure_date@),
        )
}

/// Builds a multi-city search from the `--slices` items, read in order; the
/// first item that does not read refuses the search.
pub fn request_from_slices(items: &Vec<String>, cabin: String, passengers: i32) -> (r: Result<
    (SearchRequest, HeaderMap),
    SearchError,
>)
    ensures
        match r {
            Err(e) => exists|i: int|
                0 <= i < items@.len() && parse_slice_result(#[trigger] items@[i]@) == Err::<
                    (Seq<char>, Seq<char>, Seq<char>),
                    _,
                >(e@) && forall|j: int|
                    0 <= j < i ==> parse_slice_result(#[trigger] items@[j]@) is Ok,
            Ok((req, hs)) => {
                &&& req.origin is None
                &&& req.destination is None
                &&& req.date is None
                &&& req.return_date is None
                &&& req.slices matches Some(s) && slices_read(items@, s@)
                &&& req.cabin@ == cabin@
                &&& req.passengers == passengers
                &&& header_entries(hs) == search_headers(FLYSOAR_HOME@)
            },
        },
{
    let mut slices: Vec<SliceRequest> = Vec::new();
    let mut i: usize = 0;
    while i < items.len()
        invariant
            i <= items.len(),
            slices@.len() == i,
            forall|k: int|
                0 <= k < i ==> parse_slice_result(#[trigger] items@[k]@) == Ok::<_, SearchErrorV>(
                    (slices@[k].origin@, slices@[k].destination@, slices@[k].departure_date@),
                ),
        decreases items.len() - i,
    {
        match parse_slice(items[i].as_str()) {
            Ok(s) => slices.push(s),
            Err(e) => {
                assert(forall|j: int| 0 <= j < i ==> parse_slice_result(#[trigger] items@[j]@) is Ok);
                return Err(e);
            },
        }
        i = i + 1;
    }
    let req = SearchRequest {
        origin: None,
        destination: None,
        date: None,
        return_date: None,
        slices: Some(slices),
        cabin,
        passengers,
    };
    Ok((req, build_headers_multicity()))
}

/// Law: a multi-city search built from `--slices` items, with a known
/// cabin, passes the checks that a search body must pass.
pub proof fn law_slices_request_passes(items: Seq<String>, slices: Seq<SliceRequest>)
    requires
        slices_read(items, slices),
    ensures
        crate::validate::slices_error(slices) is None,
    decreases slices.len(),
{
    if slices.len() > 0 {
        let s0 = items[0];
        assert(parse_slice_result(s0@) == Ok::<_, SearchErrorV>(
            (slices[0].origin@, slices[0].destination@, slices[0].departure_date@),
        ));
        assert(slices_read(items.drop_first(), slices.drop_first())) by {
            assert forall|i: int| 0 <= i < items.drop_first().len() implies parse_slice_result(
                #[trigger] items.drop_first()[i]@,
            ) == Ok::<_, SearchErrorV>(
                (
                    slices.drop_first()[i].origin@,
                    slices.drop_first()[i].destination@,
                    slices.drop_first()[i].departure_date@,
                ),
            ) by {
                assert(items.drop_first()[i] == items[i + 1]);
            }
        }
        law_slices_request_passes(items.drop_first(), slices.drop_first());
    }
}

/// Law: a flat search built from the flags passes the checks that a search
/// body must pass, when its cabin is known.
pub proof fn law_flags_request_passes(
    req: SearchRequest,
    origin: String,
    destination: String,
    date: String,
    return_date: Option<String>,
)
    requires
        flags_error(Some(origin), Some(destination), Some(date), return_date) is None,
        cabin_ok(req.cabin@),
        req.slices is None,
        opt_string(req.origin) == Some(upper_case(origin@)),
        opt_string(req.destination) == Some(upper_case(destination@)),
        opt_string(req.date) == Some(date@),
        opt_string(req.return_date) == opt_string(return_date),
    ensures
        request_error(req) is None,
{
}

/// Checks a search body given as JSON and picks its headers: a body that
/// names `slices` is a multi-city search; any other is a flat one, whose
/// fields the check has found present.
pub fn request_from_body(request: SearchRequest, has_slices_key: bool) -> (r: Result<
    (SearchRequest, HeaderMap),
    SearchError,
>)
    requires
        !has_slices_key ==> request.slices is None,
    ensures
        match r {
            Err(e) => request_error(request) == Some(e@),
            Ok((req, hs)) => {
                &&& request_error(request) is None
                &&& req == request
                &&& header_entries(hs) == (if has_slices_key {
                    search_headers(FLYSOAR_HOME@)
                } else {
                    flat_search_headers(
                        request.origin.unwrap()@,
                        request.destination.unwrap()@,
                        request.date.unwrap()@,
                        opt_string(request.return_date),
                    )
                })
            },
        },
{
    validate_search_request(&request)?;
    if has_slices_key {
        return Ok((request, build_headers_multicity()));
    }
    let headers = match (&request.origin, &request.destination, &request.date) {
        (Some(o), Some(d), Some(t)) => match &request.return_date {
            Some(rd) => build_headers(o.as_str(), d.as_str(), t.as_str(), Some(rd.as_str())),
            None => build_headers(o.as_str(), d.as_str(), t.as_str(), None),
        },
        _ => {
            assert(false);
            build_headers_multicity()
        },
    };
    Ok((request, headers))
}

} // verus!
