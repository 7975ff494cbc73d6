//! The rules that a search must meet before it is sent.
use vstd::prelude::*;

use crate::dates::{check_date, date_verdict, DateVerdict};
use crate::models::{SearchRequest, SliceRequest};
use crate::text::{
    chars_of, is_ascii_alpha, split_on, split_str, str_eq, to_upper, trim, trim_str, upper_case,
};

verus! {

/// Why a search is refused.
#[derive(Debug, Clone)]
pub enum SearchError {
    /// An airport or city code that is not three ASCII letters.
    InvalidIata(String),
    /// A date not written `YYYY-MM-DD`.
    InvalidDate(String),
    /// A date before 2025.
    DateOutOfRange(String),
    /// A cabin other than economy, premium_economy, business and first.
    InvalidCabin(String),
    /// A multi-city search with an empty list of slices.
    NoSlices,
    /// A flat search body without an origin.
    MissingOrigin,
    /// A flat search body without a destination.
    MissingDestination,
    /// A flat search body without a date.
    MissingDate,
    /// A `--slices` item that is not three comma-separated fields.
    InvalidSlice(String),
    /// The `--origin` flag is missing.
    MissingOriginFlag,
    /// The `--destination` flag is missing.
    MissingDestinationFlag,
    /// The `--date` flag is missing.
    MissingDateFlag,
    /// An output format other than json, csv and table.
    InvalidOutputFormat(String),
}

/// The mathematical value of a `SearchError`.
pub enum SearchErrorV {
    InvalidIata(Seq<char>),
    InvalidDate(Seq<char>),
    DateOutOfRange(Seq<char>),
    InvalidCabin(Seq<char>),
    NoSlices,
    MissingOrigin,
    MissingDestination,
    MissingDate,
    InvalidSlice(Seq<char>),
    MissingOriginFlag,
    MissingDestinationFlag,
    MissingDateFlag,
    InvalidOutputFormat(Seq<char>),
}

impl View for SearchError {
    type V = SearchErrorV;

    open spec fn view(&self) -> SearchErrorV {
        match self {
            SearchError::InvalidIata(s) => SearchErrorV::InvalidIata(s@),
            SearchError::InvalidDate(s) => SearchErrorV::InvalidDate(s@),
            SearchError::DateOutOfRange(s) => SearchErrorV::DateOutOfRange(s@),
            SearchError::InvalidCabin(s) => SearchErrorV::InvalidCabin(s@),
            SearchError::NoSlices => SearchErrorV::NoSlices,
            SearchError::MissingOrigin => SearchErrorV::MissingOrigin,
            SearchError::MissingDestination => SearchErrorV::MissingDestination,
            SearchError::MissingDate => SearchErrorV::MissingDate,
            SearchError::InvalidSlice(s) => SearchErrorV::InvalidSlice(s@),
            SearchError::MissingOriginFlag => SearchErrorV::MissingOriginFlag,
            SearchError::MissingDestinationFlag => SearchErrorV::MissingDestinationFlag,
            SearchError::MissingDateFlag => SearchErrorV::MissingDateFlag,
            SearchError::InvalidOutputFormat(s) => SearchErrorV::InvalidOutputFormat(s@),
        }
    }
}

/// The error of a unit result, or `None` for `Ok`.
pub open spec fn unit_error(r: Result<(), SearchError>) -> Option<SearchErrorV> {
    match r {
        Ok(_) => None,
        Err(e) => Some(e@),
    }
}

/// The words that the command line prints for an error.
pub open spec fn message_text(e: SearchErrorV) -> Seq<char> {
    match e {
        SearchErrorV::InvalidIata(c) => "Invalid IATA code '"@ + c
            + "': must be 3 alphabetic characters"@,
        SearchErrorV::InvalidDate(d) => "Invalid date '"@ + d + "': must be YYYY-MM-DD"@,
        SearchErrorV::DateOutOfRange(d) => "Invalid date '"@ + d + "': out of range"@,
        SearchErrorV::InvalidCabin(c) => "Invalid cabin '"@ + c + CABIN_LIST_TAIL@,
        SearchErrorV::NoSlices => "At least one slice is required"@,
        SearchErrorV::MissingOrigin => "origin is required"@,
        SearchErrorV::MissingDestination => "destination is required"@,
        SearchErrorV::MissingDate => "date is required"@,
        SearchErrorV::InvalidSlice(s) => "Invalid slice '"@ + s + "': must be ORIGIN,DEST,DATE"@,
        SearchErrorV::MissingOriginFlag => "--origin is required (or use --slices / --input)"@,
        SearchErrorV::MissingDestinationFlag => "--destination is required (or use --slices / --input)"@,
        SearchErrorV::MissingDateFlag => "--date is required (or use --slices / --input)"@,
        SearchErrorV::InvalidOutputFormat(f) => "Invalid output format '"@ + f
            + "': must be json, csv, or table"@,
    }
}

/// What follows the cabin in the message for an invalid cabin.
pub const CABIN_LIST_TAIL: &'static str = "': must be one of [\"economy\", \"premium_economy\", \"business\", \"first\"]";

fn quoted(head: &str, body: &str, tail: &str) -> (r: String)
    ensures
        r@ == head@ + body@ + tail@,
{
    let mut r = head.to_string();
    r.append(body);
    r.append(tail);
    r
}

impl SearchError {
    /// The words that the command line prints for this error.
    pub fn message(&self) -> (r: String)
        ensures
            r@ == message_text(self@),
    {
        match self {
            SearchError::InvalidIata(c) => quoted(
                "Invalid IATA code '",
                c.as_str(),
                "': must be 3 alphabetic characters",
            ),
            SearchError::InvalidDate(d) => quoted("Invalid date '", d.as_str(), "': must be YYYY-MM-DD"),
            SearchError::DateOutOfRange(d) => quoted("Invalid date '", d.as_str(), "': out of range"),
            SearchError::InvalidCabin(c) => quoted("Invalid cabin '", c.as_str(), CABIN_LIST_TAIL),
            SearchError::NoSlices => "At least one slice is required".to_string(),
            SearchError::MissingOrigin => "origin is required".to_string(),
            SearchError::MissingDestination => "destination is required".to_string(),
            SearchError::MissingDate => "date is required".to_string(),
            SearchError::InvalidSlice(s) => quoted(
                "Invalid slice '",
                s.as_str(),
                "': must be ORIGIN,DEST,DATE",
            ),
            SearchError::MissingOriginFlag => "--origin is required (or use --slices / --input)".to_string(),
            SearchError::MissingDestinationFlag => "--destination is required (or use --slices / --input)".to_string(),
            SearchError::MissingDateFlag => "--date is required (or use --slices / --input)".to_string(),
            SearchError::InvalidOutputFormat(f) => quoted(
                "Invalid output format '",
                f.as_str(),
                "': must be json, csv, or table",
            ),
        }
    }
}

/// An IATA code: three ASCII letters.
pub open spec fn iata_ok(code: Seq<char>) -> bool {
    code.len() == 3 && forall|i: int| 0 <= i < 3 ==> is_ascii_alpha(#[trigger] code[i])
}

pub open spec fn iata_error(code: Seq<char>) -> Option<SearchErrorV> {
    if iata_ok(code) {
        None
    } else {
        Some(SearchErrorV::InvalidIata(code))
    }
}

pub open spec fn date_error(date: Seq<char>) -> Option<SearchErrorV> {
    match date_verdict(date) {
        DateVerdict::Valid => None,
        DateVerdict::Malformed => Some(SearchErrorV::InvalidDate(date)),
        DateVerdict::OutOfRange => Some(SearchErrorV::DateOutOfRange(date)),
    }
}

/// The first of two checks that fails.
pub open spec fn first_error(a: Option<SearchErrorV>, b: Option<SearchErrorV>) -> Option<SearchErrorV> {
    if a is Some {
        a
    } else {
        b
    }
}

/// The cabins that the service knows.
pub open spec fn cabin_ok(cabin: Seq<char>) -> bool {
    ||| cabin == "economy"@
    ||| cabin == "premium_economy"@
    ||| cabin == "business"@
    ||| cabin == "first"@
}

/// The first error among a list of slices, checked in order: origin,
/// destination, then departure date of each.
pub open spec fn slices_error(slices: Seq<SliceRequest>) -> Option<SearchErrorV>
    decreases slices.len(),
{
    if slices.len() == 0 {
        None
    } else {
        let s = slices[0];
        first_error(
            iata_error(s.origin@),
            first_error(
                iata_error(s.destination@),
                first_error(date_error(s.departure_date@), slices_error(slices.drop_first())),
            ),
        )
    }
}

/// Why a search body is refused, if it is: the cabin first; then, for a
/// multi-city body, its slices (at least one); otherwise the flat fields,
/// present and valid, and the return date when there is one.
pub open spec fn request_error(req: SearchRequest) -> Option<SearchErrorV> {
    if !cabin_ok(req.cabin@) {
        Some(SearchErrorV::InvalidCabin(req.cabin@))
    } else {
        match req.slices {
            Some(slices) => if slices@.len() == 0 {
                Some(SearchErrorV::NoSlices)
            } else {
                slices_error(slices@)
            },
            None => match (req.origin, req.destination, req.date) {
                (None, _, _) => Some(SearchErrorV::MissingOrigin),
                (Some(_), None, _) => Some(SearchErrorV::MissingDestination),
                (Some(_), Some(_), None) => Some(SearchErrorV::MissingDate),
                (Some(o), Some(d), Some(t)) => first_error(
                    iata_error(o@),
                    first_error(
                        iata_error(d@),
                        first_error(
                            date_error(t@),
                            match req.return_date {
                                Some(r) => date_error(r@),
                                None => None,
                            },
                        ),
                    ),
                ),
            },
        }
    }
}

/// Law: a code is accepted exactly when it is three characters, each an
/// ASCII letter from `A` to `Z` or from `a` to `z`, the end letters
/// included; any other code is refused and named in the error.
pub proof fn law_iata_codes_are_three_letters(code: Seq<char>)
    ensures
        iata_error(code) is None <==> (code.len() == 3 && forall|i: int|
            0 <= i < 3 ==> ('a' <= #[trigger] code[i] <= 'z') || ('A' <= code[i] <= 'Z')),
        iata_error(code) is Some ==> iata_error(code) == Some(SearchErrorV::InvalidIata(code)),
{
}

/// Law: a search body is accepted only with one of the four cabins and,
/// for a flat body, an origin, destination and date, the two codes each
/// three ASCII letters; for a multi-city body, at least one slice, every
/// slice's codes three ASCII letters.
pub proof fn law_accepted_bodies_name_airports(req: SearchRequest)
    requires
        request_error(req) is None,
    ensures
        req.cabin@ == "economy"@ || req.cabin@ == "premium_economy"@ || req.cabin@ == "business"@
            || req.cabin@ == "first"@,
        req.slices is None ==> req.origin is Some && req.destination is Some && req.date is Some,
        req.slices is None ==> {
            let o = req.origin->0@;
            let d = req.destination->0@;
            &&& o.len() == 3
            &&& forall|i: int| 0 <= i < 3 ==> ('a' <= #[trigger] o[i] <= 'z') || ('A' <= o[i] <= 'Z')
            &&& d.len() == 3
            &&& forall|i: int| 0 <= i < 3 ==> ('a' <= #[trigger] d[i] <= 'z') || ('A' <= d[i] <= 'Z')
        },
        req.slices matches Some(sl) ==> sl@.len() > 0,
        req.slices matches Some(sl) ==> forall|k: int|
            0 <= k < sl@.len() ==> {
                let o = (#[trigger] sl@[k]).origin@;
                let d = sl@[k].destination@;
                &&& o.len() == 3
                &&& forall|i: int| 0 <= i < 3 ==> ('a' <= #[trigger] o[i] <= 'z') || ('A' <= o[i] <= 'Z')
                &&& d.len() == 3
                &&& forall|i: int| 0 <= i < 3 ==> ('a' <= #[trigger] d[i] <= 'z') || ('A' <= d[i] <= 'Z')
            },
{
    match req.slices {
        Some(sl) => {
            lemma_slices_accepted(sl@);
        },
        None => {
            let o = req.origin->0@;
            let d = req.destination->0@;
            assert(iata_ok(o) && iata_ok(d));
        },
    }
}

proof fn lemma_slices_accepted(sl: Seq<SliceRequest>)
    requires
        slices_error(sl) is None,
    ensures
        forall|k: int| 0 <= k < sl.len() ==> iata_ok((#[trigger] sl[k]).origin@) && iata_ok(sl[k].destination@),
        forall|k: int| 0 <= k < sl.len() ==> date_error((#[trigger] sl[k]).departure_date@) is None,
    decreases sl.len(),
{
    if sl.len() > 0 {
        lemma_slices_accepted(sl.drop_first());
        assert forall|k: int| 0 < k < sl.len() implies iata_ok((#[trigger] sl[k]).origin@) && iata_ok(
            sl[k].destination@,
        ) && date_error(sl[k].departure_date@) is None by {
            assert(sl[k] == sl.drop_first()[k - 1]);
        }
    }
}

proof fn lemma_slices_pass(sl: Seq<SliceRequest>)
    requires
        forall|k: int| 0 <= k < sl.len() ==> iata_ok((#[trigger] sl[k]).origin@) && iata_ok(sl[k].destination@),
        forall|k: int| 0 <= k < sl.len() ==> date_error((#[trigger] sl[k]).departure_date@) is None,
    ensures
        slices_error(sl) is None,
    decreases sl.len(),
{
    if sl.len() > 0 {
        assert forall|k: int| 0 <= k < sl.drop_first().len() implies iata_ok(
            (#[trigger] sl.drop_first()[k]).origin@,
        ) && iata_ok(sl.drop_first()[k].destination@) && date_error(sl.drop_first()[k].departure_date@)
            is None by {
            assert(sl.drop_first()[k] == sl[k + 1]);
        }
        lemma_slices_pass(sl.drop_first());
        assert(iata_ok(sl[0].origin@) && iata_ok(sl[0].destination@));
    }
}

/// Law: a body with a known cabin is accepted when its codes are three
/// ASCII letters each (`Z` and `z` among them) and its dates are good:
/// a flat body with an origin, a destination and a date, or a multi-city
/// body with at least one slice.
pub proof fn law_letter_codes_and_good_dates_pass(req: SearchRequest)
    requires
        req.cabin@ == "economy"@ || req.cabin@ == "premium_economy"@ || req.cabin@ == "business"@
            || req.cabin@ == "first"@,
        req.slices is None ==> req.origin is Some && req.destination is Some && req.date is Some && {
            let o = req.origin->0@;
            let d = req.destination->0@;
            &&& o.len() == 3
            &&& forall|i: int| 0 <= i < 3 ==> ('a' <= #[trigger] o[i] <= 'z') || ('A' <= o[i] <= 'Z')
            &&& d.len() == 3
            &&& forall|i: int| 0 <= i < 3 ==> ('a' <= #[trigger] d[i] <= 'z') || ('A' <= d[i] <= 'Z')
            &&& date_error(req.date->0@) is None
            &&& req.return_date matches Some(r) ==> date_error(r@) is None
        },
        req.slices matches Some(sl) ==> sl@.len() > 0 && forall|k: int|
            0 <= k < sl@.len() ==> {
                let o = (#[trigger] sl@[k]).origin@;
                let d = sl@[k].destination@;
                &&& o.len() == 3
                &&& forall|i: int| 0 <= i < 3 ==> ('a' <= #[trigger] o[i] <= 'z') || ('A' <= o[i] <= 'Z')
                &&& d.len() == 3
                &&& forall|i: int| 0 <= i < 3 ==> ('a' <= #[trigger] d[i] <= 'z') || ('A' <= d[i] <= 'Z')
                &&& date_error(sl@[k].departure_date@) is None
            },
    ensures
        request_error(req) is None,
{
    match req.slices {
        Some(sl) => {
            assert forall|k: int| 0 <= k < sl@.len() implies iata_ok((#[trigger] sl@[k]).origin@)
                && iata_ok(sl@[k].destination@) && date_error(sl@[k].departure_date@) is None by {
                let o = sl@[k].origin@;
                let d = sl@[k].destination@;
                assert forall|i: int| 0 <= i < 3 implies is_ascii_alpha(#[trigger] o[i]) by {}
                assert forall|i: int| 0 <= i < 3 implies is_ascii_alpha(#[trigger] d[i]) by {}
            }
            lemma_slices_pass(sl@);
        },
        None => {},
    }
}

/// Accepts exactly the codes of three ASCII letters.
pub fn validate_iata(code: &str) -> (r: Result<(), SearchError>)
    ensures
        unit_error(r) == iata_error(code@),
        r is Ok <==> (code@.len() == 3 && forall|i: int|
            0 <= i < 3 ==> ('a' <= #[trigger] code@[i] <= 'z') || ('A' <= code@[i] <= 'Z')),
{
    proof {
        law_iata_codes_are_three_letters(code@);
    }
    let v = chars_of(code);
    if v.len() != 3 {
        return Err(SearchError::InvalidIata(code.to_string()));
    }
    let mut i: usize = 0;
    while i < 3
        invariant
            v@ == code@,
            v.len() == 3,
            i <= 3,
            forall|k: int| 0 <= k < i ==> is_ascii_alpha(#[trigger] v@[k]),
        decreases 3 - i,
    {
        let c = v[i];
        if !(('a' <= c && c <= 'z') || ('A' <= c && c <= 'Z')) {
            return Err(SearchError::InvalidIata(code.to_string()));
        }
        i = i + 1;
    }
    Ok(())
}

/// Accepts exactly the dates written `YYYY-MM-DD` (as chrono reads and
/// writes them) in 2025 or later.
pub fn validate_date(date: &str) -> (r: Result<(), SearchError>)
    ensures
        unit_error(r) == date_error(date@),
{
    match check_date(date) {
        DateVerdict::Valid => Ok(()),
        DateVerdict::Malformed => Err(SearchError::InvalidDate(date.to_string())),
        DateVerdict::OutOfRange => Err(SearchError::DateOutOfRange(date.to_string())),
    }
}

/// Tells whether a cabin is one of the four known ones.
pub fn cabin_is_known(cabin: &str) -> (r: bool)
    ensures
        r == cabin_ok(cabin@),
{
    str_eq(cabin, "economy") || str_eq(cabin, "premium_economy") || str_eq(cabin, "business")
        || str_eq(cabin, "first")
}

fn validate_slices(slices: &Vec<SliceRequest>) -> (r: Result<(), SearchError>)
    ensures
        unit_error(r) == slices_error(slices@),
{
    let mut i: usize = 0;
    assert(slices@.skip(0) =~= slices@);
    while i < slices.len()
        invariant
            i <= slices.len(),
            slices_error(slices@) == slices_error(slices@.skip(i as int)),
        decreases slices.len() - i,
    {
        let s = &slices[i];
        assert(slices@.skip(i as int)[0] == slices@[i as int]);
        assert(slices@.skip(i as int).drop_first() =~= slices@.skip(i + 1));
        validate_iata(s.origin.as_str())?;
        validate_iata(s.destination.as_str())?;
        validate_date(s.departure_date.as_str())?;
        i = i + 1;
    }
    Ok(())
}

/// Checks a search body before it is sent; see `request_error`.
pub fn validate_search_request(request: &SearchRequest) -> (r: Result<(), SearchError>)
    ensures
        unit_error(r) == request_error(*request),
        r is Ok && request.slices is None ==> request.origin is Some && request.destination is Some && {
            let o = request.origin->0@;
            let d = request.destination->0@;
            &&& o.len() == 3
            &&& forall|i: int| 0 <= i < 3 ==> ('a' <= #[trigger] o[i] <= 'z') || ('A' <= o[i] <= 'Z')
            &&& d.len() == 3
            &&& forall|i: int| 0 <= i < 3 ==> ('a' <= #[trigger] d[i] <= 'z') || ('A' <= d[i] <= 'Z')
        },
{
    proof {
        if request_error(*request) is None {
            law_accepted_bodies_name_airports(*request);
        }
    }
    if !cabin_is_known(request.cabin.as_str()) {
        return Err(SearchError::InvalidCabin(request.cabin.clone()));
    }
    match &request.slices {
        Some(slices) => {
            if slices.len() == 0 {
                return Err(SearchError::NoSlices);
            }
            validate_slices(slices)
        },
        None => {
            let origin = match &request.origin {
                Some(o) => o,
                None => return Err(SearchError::MissingOrigin),
            };
            let destination = match &request.destination {
                Some(d) => d,
                None => return Err(SearchError::MissingDestination),
            };
            let date = match &request.date {
                Some(d) => d,
                None => return Err(SearchError::MissingDate),
            };
            validate_iata(origin.as_str())?;
            validate_iata(destination.as_str())?;
            validate_date(date.as_str())?;
            match &request.return_date {
                Some(r) => validate_date(r.as_str()),
                None => Ok(()),
            }
        },
    }
}

/// What `parse_slice` makes of `ORIGIN,DEST,DATE`: the three fields,
/// trimmed, the codes upper-cased, and checked in that order; an item that
/// is not three comma-separated fields is refused whole.
pub open spec fn parse_slice_result(s: Seq<char>) -> Result<
    (Seq<char>, Seq<char>, Seq<char>),
    SearchErrorV,
> {
    let parts = split_on(s, ',');
    if parts.len() != 3 {
        Err(SearchErrorV::InvalidSlice(s))
    } else {
        let o = upper_case(trim(parts[0]));
        let d = upper_case(trim(parts[1]));
        let t = trim(parts[2]);
        match first_error(iata_error(o), first_error(iata_error(d), date_error(t))) {
            Some(e) => Err(e),
            None => Ok((o, d, t)),
        }
    }
}

/// Reads a `--slices` item `ORIGIN,DEST,DATE`.
pub fn parse_slice(s: &str) -> (r: Result<SliceRequest, SearchError>)
    ensures
        match r {
            Ok(sr) => parse_slice_result(s@) == Ok::<_, SearchErrorV>(
                (sr.origin@, sr.destination@, sr.departure_date@),
            ),
            Err(e) => parse_slice_result(s@) == Err::<(Seq<char>, Seq<char>, Seq<char>), _>(e@),
        },
{
    let parts = split_str(s, ',');
    assert(parts@.map_values(|p: String| p@).len() == parts@.len());
    if parts.len() != 3 {
        return Err(SearchError::InvalidSlice(s.to_string()));
    }
    assert(parts@.map_values(|p: String| p@)[0] == parts@[0]@);
    assert(parts@.map_values(|p: String| p@)[1] == parts@[1]@);
    assert(parts@.map_values(|p: String| p@)[2] == parts@[2]@);
    let origin = to_upper(trim_str(parts[0].as_str()).as_str());
    let destination = to_upper(trim_str(parts[1].as_str()).as_str());
    let departure_date = trim_str(parts[2].as_str());
    validate_iata(origin.as_str())?;
    validate_iata(destination.as_str())?;
    validate_date(departure_date.as_str())?;
    Ok(SliceRequest { origin, destination, departure_date })
}

} // verus!
