use flysoar::dates::{judge_date, DateVerdict};
use flysoar::duration::duration_seconds;
use flysoar::headers::{build_headers, build_headers_multicity};
use reqwest::header::HeaderMap;
use flysoar::models::{default_cabin, default_passengers, Offer, SearchRequest, Segment, Slice, SliceRequest, SseError};
use flysoar::offers::{filter_nonstop, filter_nonstop_ranked, sort_offers};
use flysoar::search::{
    arrange_offers, long_to_text, output_format, status_error_message, status_error_text_with, OutputFormat,
    int_to_text, limit_filtered_offers, offer_limit_reached, request_from_body, request_from_flags,
    request_from_slices, search_error_message, stream_offer_limit, validate_cabin,
};
use flysoar::summary::{route_label, row_fields};
use flysoar::validate::{parse_slice, validate_date, validate_iata, validate_search_request, SearchError};

fn flat_request(origin: &str, destination: &str, date: &str) -> SearchRequest {
    SearchRequest {
        origin: Some(origin.to_string()),
        destination: Some(destination.to_string()),
        date: Some(date.to_string()),
        return_date: None,
        slices: None,
        cabin: "economy".to_string(),
        passengers: 1,
    }
}

fn segment(carrier: &str, number: &str, from: &str, to: &str, dep: &str, arr: &str) -> Segment {
    Segment {
        carrier_iata: carrier.to_string(),
        carrier_name: None,
        carrier_logo: None,
        operating_carrier_iata: None,
        operating_carrier_name: None,
        is_codeshare: None,
        flight_number: number.to_string(),
        operating_flight_number: None,
        departure: dep.to_string(),
        arrival: arr.to_string(),
        departure_display: None,
        arrival_display: None,
        origin: from.to_string(),
        origin_name: None,
        origin_time_zone: None,
        origin_terminal: None,
        destination: to.to_string(),
        destination_name: None,
        destination_time_zone: None,
        destination_terminal: None,
        aircraft: None,
        duration: None,
        cabin_class: None,
        fare_basis_code: None,
        fare_brand: None,
        baggage_carry_on: None,
        baggage_checked: None,
        amenities: None,
    }
}

fn slice(from: &str, to: &str, duration: Option<&str>, segments: Vec<Segment>) -> Slice {
    Slice {
        origin: from.to_string(),
        origin_name: None,
        origin_city: None,
        destination: to.to_string(),
        destination_name: None,
        destination_city: None,
        duration: duration.map(|d| d.to_string()),
        fare_brand: None,
        cabin_class: Some("Economy".to_string()),
        segments,
    }
}

fn offer(id: &str, amount: &str, slices: Vec<Slice>) -> Offer {
    Offer {
        id: id.to_string(),
        provider: None,
        requested_cabin: None,
        search_cabin: None,
        total_amount: amount.to_string(),
        total_currency: "USD".to_string(),
        base_amount: None,
        base_currency: None,
        tax_amount: None,
        tax_currency: None,
        expires_at: None,
        total_emissions_kg: Some(120),
        conditions: None,
        slices,
    }
}

fn ids(offers: &[Offer]) -> Vec<&str> {
    offers.iter().map(|o| o.id.as_str()).collect()
}

fn header(hs: &HeaderMap, name: &str) -> String {
    hs.get(name).unwrap().to_str().unwrap_or("<opaque>").to_string()
}

fn header_pairs(hs: &HeaderMap) -> Vec<(String, String)> {
    let mut v: Vec<(String, String)> = hs
        .iter()
        .map(|(k, v)| (k.as_str().to_string(), String::from_utf8_lossy(v.as_bytes()).into_owned()))
        .collect();
    v.sort();
    v
}

#[test]
fn validates_input_dates_before_header_creation() {
    let request = SearchRequest {
        origin: Some("SFO".to_string()),
        destination: Some("JFK".to_string()),
        date: Some("x".to_string()),
        return_date: None,
        slices: None,
        cabin: "economy".to_string(),
        passengers: 1,
    };

    assert!(validate_search_request(&request).is_err());
}

#[test]
fn rejects_non_ascii_dates_without_panicking() {
    assert!(validate_date("ééééé").is_err());
}

#[test]
fn sorts_iso_durations_numerically() {
    assert!(duration_seconds("PT2H").unwrap() < duration_seconds("PT10H").unwrap());
    assert_eq!(duration_seconds("PT1H30M"), Some(5_400));
}

#[test]
fn request_defaults_are_economy_and_one_passenger() {
    assert_eq!(default_cabin(), "economy");
    assert_eq!(default_passengers(), 1);
}

#[test]
fn durations_of_every_unit_add_up() {
    assert_eq!(duration_seconds("PT5H48M"), Some(5 * 3600 + 48 * 60));
    assert_eq!(duration_seconds("PT45S"), Some(45));
    assert_eq!(duration_seconds("PT1H1M1S"), Some(3661));
    assert_eq!(duration_seconds("PT0M"), Some(0));
}

#[test]
fn malformed_durations_read_as_none() {
    for d in ["", "P", "PT", "PT5", "PTH", "PT5X", "P1D", "pt5h", "PT5H30", "PT-5H", " PT5H"] {
        assert_eq!(duration_seconds(d), None, "{:?}", d);
    }
}

#[test]
fn overflowing_durations_read_as_none() {
    assert_eq!(duration_seconds("PT18446744073709551615S"), Some(u64::MAX));
    assert_eq!(duration_seconds("PT18446744073709551616S"), None);
    assert_eq!(duration_seconds("PT5124095576030432H"), None);
    assert_eq!(duration_seconds("PT18446744073709551615S1S"), None);
}

#[test]
fn iata_codes_are_three_ascii_letters() {
    assert!(validate_iata("SFO").is_ok());
    assert!(validate_iata("lhr").is_ok());
    for bad in ["", "SF", "SFOX", "SF0", "S-O", "ÉFO", "S O"] {
        match validate_iata(bad) {
            Err(SearchError::InvalidIata(code)) => assert_eq!(code, bad),
            other => panic!("{:?} gave {:?}", bad, other),
        }
    }
}

#[test]
fn dates_must_be_well_formed_and_recent() {
    assert!(validate_date("2026-07-15").is_ok());
    assert!(validate_date("2025-01-01").is_ok());
    assert!(validate_date("2028-02-29").is_ok());
    for bad in ["2026-7-15", "2026-07-5", "2026/07/15", "2026-02-30", "2027-02-29", "20260715", "2026-13-01", " 2026-07-15", "2026-07-15 "] {
        match validate_date(bad) {
            Err(SearchError::InvalidDate(d)) => assert_eq!(d, bad),
            other => panic!("{:?} gave {:?}", bad, other),
        }
    }
    match validate_date("2024-12-31") {
        Err(SearchError::DateOutOfRange(d)) => assert_eq!(d, "2024-12-31"),
        other => panic!("{:?}", other),
    }
}

#[test]
fn judging_a_date_uses_what_chrono_read_and_wrote() {
    assert!(matches!(judge_date("2026-07-15", Some((2026, 7, 15)), Some("2026-07-15")), DateVerdict::Valid));
    assert!(matches!(judge_date("2026-07-15", None, None), DateVerdict::Malformed));
    assert!(matches!(judge_date("2026-07-15", Some((2026, 7, 15)), Some("2026-07-16")), DateVerdict::Malformed));
    assert!(matches!(judge_date("2026-07-15", Some((2026, 7, 15)), None), DateVerdict::Malformed));
    assert!(matches!(judge_date("2024-07-15", Some((2024, 7, 15)), Some("2024-07-15")), DateVerdict::OutOfRange));
    assert!(matches!(judge_date("2026-07-1", Some((2026, 7, 1)), Some("2026-07-1")), DateVerdict::Malformed));
}

#[test]
fn search_bodies_are_checked_in_order() {
    assert!(validate_search_request(&flat_request("SFO", "JFK", "2026-07-15")).is_ok());

    let mut r = flat_request("SFO", "JFK", "2026-07-15");
    r.cabin = "coach".to_string();
    match validate_search_request(&r) {
        Err(e @ SearchError::InvalidCabin(_)) => assert_eq!(
            e.message(),
            "Invalid cabin 'coach': must be one of [\"economy\", \"premium_economy\", \"business\", \"first\"]"
        ),
        other => panic!("{:?}", other),
    }

    let mut r = flat_request("SFO", "JFK", "2026-07-15");
    r.origin = None;
    assert!(matches!(validate_search_request(&r), Err(SearchError::MissingOrigin)));
    let mut r = flat_request("SFO", "JFK", "2026-07-15");
    r.destination = None;
    assert!(matches!(validate_search_request(&r), Err(SearchError::MissingDestination)));
    let mut r = flat_request("SFO", "JFK", "2026-07-15");
    r.date = None;
    assert!(matches!(validate_search_request(&r), Err(SearchError::MissingDate)));
    let mut r = flat_request("SFO", "JFK", "2026-07-15");
    r.return_date = Some("2026-07-40".to_string());
    assert!(matches!(validate_search_request(&r), Err(SearchError::InvalidDate(_))));

    let mut r = flat_request("SFO", "JFK", "2026-07-15");
    r.slices = Some(vec![]);
    assert!(matches!(validate_search_request(&r), Err(SearchError::NoSlices)));
    r.slices = Some(vec![
        SliceRequest { origin: "SFO".into(), destination: "JFK".into(), departure_date: "2026-07-15".into() },
        SliceRequest { origin: "LHR".into(), destination: "S4O".into(), departure_date: "2026-07-22".into() },
    ]);
    match validate_search_request(&r) {
        Err(SearchError::InvalidIata(c)) => assert_eq!(c, "S4O"),
        other => panic!("{:?}", other),
    }
}

#[test]
fn slices_are_read_from_three_fields() {
    let s = parse_slice(" sfo , jfk , 2026-07-15 ").unwrap();
    assert_eq!(s.origin, "SFO");
    assert_eq!(s.destination, "JFK");
    assert_eq!(s.departure_date, "2026-07-15");
    match parse_slice("SFO,JFK") {
        Err(e @ SearchError::InvalidSlice(_)) => assert_eq!(e.message(), "Invalid slice 'SFO,JFK': must be ORIGIN,DEST,DATE"),
        other => panic!("{:?}", other),
    }
    assert!(matches!(parse_slice("SFO,JFK,2026-07-15,x"), Err(SearchError::InvalidSlice(_))));
    assert!(matches!(parse_slice("SFO,JF,2026-07-15"), Err(SearchError::InvalidIata(_))));
    assert!(matches!(parse_slice("SFO,JFK,2024-07-15"), Err(SearchError::DateOutOfRange(_))));
}

#[test]
fn error_messages_match_the_command_line() {
    assert_eq!(validate_iata("XX").unwrap_err().message(), "Invalid IATA code 'XX': must be 3 alphabetic characters");
    assert_eq!(validate_date("x").unwrap_err().message(), "Invalid date 'x': must be YYYY-MM-DD");
    assert_eq!(validate_date("2024-01-01").unwrap_err().message(), "Invalid date '2024-01-01': out of range");
    assert_eq!(SearchError::NoSlices.message(), "At least one slice is required");
    assert_eq!(SearchError::MissingOriginFlag.message(), "--origin is required (or use --slices / --input)");
    assert!(validate_cabin("first").is_ok());
    assert_eq!(SearchError::MissingOrigin.message(), "origin is required");
    assert_eq!(SearchError::MissingDestination.message(), "destination is required");
    assert_eq!(SearchError::MissingDate.message(), "date is required");
    assert_eq!(SearchError::MissingDestinationFlag.message(), "--destination is required (or use --slices / --input)");
    assert_eq!(SearchError::MissingDateFlag.message(), "--date is required (or use --slices / --input)");
}

#[test]
fn search_error_events_read_as_messages() {
    let err = SseError { error: "Invalid IATA code".to_string(), status: Some(422) };
    assert_eq!(search_error_message(&err), "FlySoar search error: Invalid IATA code (status 422)");
    let err = SseError { error: "boom".to_string(), status: None };
    assert_eq!(search_error_message(&err), "FlySoar search error: boom (status 0)");
    assert_eq!(int_to_text(-2147483648), "-2147483648");
    assert_eq!(int_to_text(0), "0");
    assert_eq!(int_to_text(2147483647), "2147483647");
}

#[test]
fn referer_names_route_and_dates() {
    let hs = build_headers("SFO", "JFK", "2026-07-15", None);
    let mut expected: Vec<(String, String)> = vec![
        ("content-type", "application/json"),
        ("accept", "*/*"),
        ("origin", "https://flysoar.ai"),
        ("referer", "https://flysoar.ai/flights/sfo/jfk/260715/"),
        ("user-agent", "Mozilla/5.0 (Macintosh; Intel Mac OS X 10_15_7) AppleWebKit/537.36 (KHTML, like Gecko) Chrome/124.0.0.0 Safari/537.36"),
    ]
    .into_iter()
    .map(|(a, b)| (a.to_string(), b.to_string()))
    .collect();
    expected.sort();
    assert_eq!(header_pairs(&hs), expected);
    let hs = build_headers("SFO", "JFK", "2026-07-15", Some("2026-07-22"));
    assert_eq!(header(&hs, "referer"), "https://flysoar.ai/flights/sfo/jfk/260715/260722/");
    let hs = build_headers("SFO", "JFK", "é026-07-15", None);
    assert_eq!(header(&hs, "referer"), "https://flysoar.ai/flights/sfo/jfk/0260715/");
    let hs = build_headers("SFO", "JFK", "aé-15", None);
    assert_eq!(String::from_utf8_lossy(hs.get("referer").unwrap().as_bytes()), "https://flysoar.ai/flights/sfo/jfk/aé15/");
    let hs = build_headers("SFO", "JFK\n", "2026-07-15", None);
    assert_eq!(header(&hs, "referer"), "https://flysoar.ai");
}

#[test]
fn multicity_referer_is_the_home_page() {
    let hs = build_headers_multicity();
    assert_eq!(hs.len(), 5);
    assert_eq!(header(&hs, "referer"), "https://flysoar.ai/");
    assert_eq!(header(&hs, "origin"), "https://flysoar.ai");
}

#[test]
fn flags_make_an_upper_case_flat_search() {
    let (req, hs) = request_from_flags(
        Some("sfo".into()),
        Some("jfk".into()),
        Some("2026-07-15".into()),
        Some("2026-07-22".into()),
        "business".into(),
        2,
    )
    .unwrap();
    assert_eq!(req.origin.as_deref(), Some("SFO"));
    assert_eq!(req.destination.as_deref(), Some("JFK"));
    assert_eq!(req.return_date.as_deref(), Some("2026-07-22"));
    assert!(req.slices.is_none());
    assert_eq!(req.cabin, "business");
    assert_eq!(req.passengers, 2);
    assert_eq!(header(&hs, "referer"), "https://flysoar.ai/flights/sfo/jfk/260715/260722/");
    assert!(validate_search_request(&req).is_ok());
    assert!(matches!(
        request_from_flags(None, Some("JFK".into()), Some("2026-07-15".into()), None, "economy".into(), 1),
        Err(SearchError::MissingOriginFlag)
    ));
    assert!(matches!(
        request_from_flags(Some("SFO".into()), None, None, None, "economy".into(), 1),
        Err(SearchError::MissingDestinationFlag)
    ));
    assert!(matches!(
        request_from_flags(Some("SFO".into()), Some("JFK".into()), None, None, "economy".into(), 1),
        Err(SearchError::MissingDateFlag)
    ));
}

#[test]
fn slices_make_a_multicity_search() {
    let items = vec!["SFO,JFK,2026-07-15".to_string(), "lhr,sfo,2026-07-22".to_string()];
    let (req, hs) = request_from_slices(&items, "economy".into(), 1).unwrap();
    let slices = req.slices.clone().unwrap();
    assert_eq!(slices.len(), 2);
    assert_eq!(slices[1].origin, "LHR");
    assert_eq!(header(&hs, "referer"), "https://flysoar.ai/");
    assert!(validate_search_request(&req).is_ok());
    let items = vec!["SFO,JFK,2026-07-15".to_string(), "bad".to_string(), "X,Y,Z".to_string()];
    assert!(matches!(request_from_slices(&items, "economy".into(), 1), Err(SearchError::InvalidSlice(s)) if s == "bad"));
}

#[test]
fn bodies_pick_headers_by_their_shape() {
    let (req, hs) = request_from_body(flat_request("SFO", "JFK", "2026-07-15"), false).unwrap();
    assert_eq!(req.origin.as_deref(), Some("SFO"));
    assert_eq!(header(&hs, "referer"), "https://flysoar.ai/flights/sfo/jfk/260715/");
    let (_, hs) = request_from_body(flat_request("SFO", "JFK", "2026-07-15"), true).unwrap();
    assert_eq!(header(&hs, "referer"), "https://flysoar.ai/");
    assert!(request_from_body(flat_request("SFO", "JFK", "x"), false).is_err());
}

#[test]
fn cabins_are_the_four_known_ones() {
    for c in ["economy", "premium_economy", "business", "first"] {
        assert!(validate_cabin(c).is_ok());
    }
    assert!(matches!(validate_cabin("Economy"), Err(SearchError::InvalidCabin(c)) if c == "Economy"));
}

#[test]
fn offer_limits() {
    assert!(!offer_limit_reached(100, 0));
    assert!(!offer_limit_reached(4, 5));
    assert!(offer_limit_reached(5, 5));
    assert_eq!(stream_offer_limit(true, 7), 0);
    assert_eq!(stream_offer_limit(false, 7), 7);
}

fn sample_offers() -> Vec<Offer> {
    vec![
        offer("a", "300.00", vec![slice("SFO", "JFK", Some("PT10H"), vec![
            segment("AA", "1", "SFO", "ORD", "2026-07-15T09:00", "2026-07-15T13:00"),
            segment("AA", "2", "ORD", "JFK", "2026-07-15T14:00", "2026-07-15T19:00"),
        ])]),
        offer("b", "200.00", vec![slice("SFO", "JFK", Some("PT5H30M"), vec![
            segment("UA", "7", "SFO", "JFK", "2026-07-15T07:00", "2026-07-15T15:30"),
        ])]),
        offer("c", "250.00", vec![slice("SFO", "JFK", Some("bogus"), vec![
            segment("DL", "9", "SFO", "JFK", "2026-07-15T07:00", "2026-07-15T15:00"),
        ])]),
        offer("d", "100.00", vec![slice("SFO", "JFK", Some("PT5H30M"), vec![
            segment("B6", "3", "SFO", "JFK", "2026-07-15T11:00", "2026-07-15T19:00"),
        ])]),
    ]
}

#[test]
fn sorting_by_departure_is_stable() {
    let mut offers = sample_offers();
    sort_offers(&mut offers, "depart_time", &vec![]);
    assert_eq!(ids(&offers), vec!["b", "c", "a", "d"]);
    sort_offers(&mut offers, "depart_time", &vec![]);
    assert_eq!(ids(&offers), vec!["b", "c", "a", "d"]);
}

#[test]
fn sorting_by_duration_puts_unreadable_last() {
    let mut offers = sample_offers();
    sort_offers(&mut offers, "duration", &vec![]);
    assert_eq!(ids(&offers), vec!["b", "d", "a", "c"]);
}

#[test]
fn sorting_by_price_follows_the_ranks() {
    let mut offers = sample_offers();
    sort_offers(&mut offers, "price", &vec![3, 1, 2, 0]);
    assert_eq!(ids(&offers), vec!["d", "b", "c", "a"]);
    let mut offers = sample_offers();
    sort_offers(&mut offers, "price", &vec![1, 0, 1, 0]);
    assert_eq!(ids(&offers), vec!["b", "d", "a", "c"]);
}

#[test]
fn unknown_sort_leaves_offers_alone() {
    let mut offers = sample_offers();
    sort_offers(&mut offers, "airline", &vec![]);
    assert_eq!(ids(&offers), vec!["a", "b", "c", "d"]);
}

#[test]
fn nonstop_filter_keeps_single_segment_slices() {
    let offers = filter_nonstop(sample_offers());
    assert_eq!(ids(&offers), vec!["b", "c", "d"]);
    let again = filter_nonstop(offers);
    assert_eq!(ids(&again), vec!["b", "c", "d"]);
    let mut offers = again;
    limit_filtered_offers(&mut offers, true, 2);
    assert_eq!(ids(&offers), vec!["b", "c"]);
    limit_filtered_offers(&mut offers, false, 1);
    assert_eq!(ids(&offers), vec!["b", "c"]);
    limit_filtered_offers(&mut offers, true, 0);
    assert_eq!(ids(&offers), vec!["b", "c"]);
}

#[test]
fn summaries_read_the_first_slice() {
    let mut o = sample_offers().remove(0);
    o.slices[0].segments[0].carrier_name = Some("American Airlines".to_string());
    o.slices[0].segments[1].cabin_class = Some("Business".to_string());
    o.expires_at = Some("2026-07-01T00:00:00Z".to_string());
    let s = o.to_summary();
    assert_eq!(s.price, "300.00");
    assert_eq!(s.currency, "USD");
    assert_eq!(s.stops, 1);
    assert_eq!(s.airline, "American Airlines");
    assert_eq!(s.flight_numbers, "AA1, AA2");
    assert_eq!(s.depart_time, "2026-07-15T09:00");
    assert_eq!(s.arrive_time, "2026-07-15T19:00");
    assert_eq!(s.duration, "PT10H");
    assert_eq!(s.cabin_class, "Economy");
    assert_eq!(s.emissions_kg, Some(120));
    assert_eq!(s.expires_at.as_deref(), Some("2026-07-01T00:00:00Z"));
    assert_eq!(s.slices.len(), 1);
    assert_eq!(s.slices[0].stops, 1);
    assert_eq!(s.slices[0].departure, "2026-07-15T09:00");
    assert_eq!(s.slices[0].segments[0].carrier_name, "American Airlines");
    assert_eq!(s.slices[0].segments[1].carrier_name, "AA");
    assert_eq!(s.slices[0].segments[1].cabin_class, "Business");
    assert_eq!(s.slices[0].segments[0].cabin_class, "Economy");
    assert_eq!(s.slices[0].segments[0].aircraft, "");
    assert_eq!(route_label(&s, "->"), "SFO->JFK");
}

#[test]
fn routes_join_the_slices() {
    let o = offer("m", "1", vec![
        slice("SFO", "JFK", None, vec![segment("AA", "1", "SFO", "JFK", "t1", "t2")]),
        slice("LHR", "SFO", None, vec![segment("BA", "2", "LHR", "SFO", "t3", "t4")]),
    ]);
    let s = o.to_summary();
    assert_eq!(route_label(&s, "->"), "SFO->JFK | LHR->SFO");
    assert_eq!(route_label(&s, "→"), "SFO→JFK | LHR→SFO");
    assert_eq!(s.duration, "");
}

#[test]
fn arranging_filters_then_sorts_then_cuts() {
    // Prices 300, 200, 250, 100: ranks among all four offers.
    let ranks = vec![3, 1, 2, 0];
    let (offers, kept) = arrange_offers(sample_offers(), true, "price", &ranks, 2);
    assert_eq!(kept, 3);
    assert_eq!(ids(&offers), vec!["d", "b"]);
    let (offers, kept) = arrange_offers(sample_offers(), true, "price", &ranks, 0);
    assert_eq!(kept, 3);
    assert_eq!(ids(&offers), vec!["d", "b", "c"]);
}

#[test]
fn arranging_without_the_filter_keeps_every_offer() {
    let (offers, kept) = arrange_offers(sample_offers(), false, "duration", &vec![], 1);
    assert_eq!(kept, 4);
    assert_eq!(ids(&offers), vec!["b", "d", "a", "c"]);
    let (offers, kept) = arrange_offers(sample_offers(), false, "airline", &vec![], 2);
    assert_eq!(kept, 4);
    assert_eq!(ids(&offers), vec!["a", "b", "c", "d"]);
}

#[test]
fn ranks_follow_the_offers_that_stay() {
    let (offers, ranks) = filter_nonstop_ranked(sample_offers(), &vec![3, 1, 2, 0]);
    assert_eq!(ids(&offers), vec!["b", "c", "d"]);
    assert_eq!(ranks, vec![1, 2, 0]);
    let (offers, ranks) = filter_nonstop_ranked(sample_offers(), &vec![]);
    assert_eq!(ids(&offers), vec!["b", "c", "d"]);
    assert!(ranks.is_empty());
}

#[test]
fn output_formats_are_json_csv_and_table() {
    assert!(matches!(output_format("json"), Ok(OutputFormat::Json)));
    assert!(matches!(output_format("csv"), Ok(OutputFormat::Csv)));
    assert!(matches!(output_format("table"), Ok(OutputFormat::Table)));
    match output_format("xml") {
        Err(e @ SearchError::InvalidOutputFormat(_)) => assert_eq!(
            e.message(),
            "Invalid output format 'xml': must be json, csv, or table"
        ),
        other => panic!("unexpected {:?}", other),
    }
    assert!(output_format("JSON").is_err());
}

#[test]
fn refused_requests_name_their_status() {
    assert_eq!(status_error_message(400, "bad date"), "FlySoar error (400): bad date");
    assert_eq!(status_error_message(404, "gone"), "FlySoar error (404 Not Found): gone");
    assert_eq!(
        status_error_message(500, ""),
        "FlySoar error (500 Internal Server Error): "
    );
    assert_eq!(
        status_error_message(599, "x"),
        "FlySoar error (599 <unknown status code>): x"
    );
    assert_eq!(
        status_error_text_with(503, Some("Busy".to_string()), "later"),
        "FlySoar error (503 Busy): later"
    );
    assert_eq!(status_error_text_with(400, Some("Bad".to_string()), "b"), "FlySoar error (400): b");
}

#[test]
fn rows_show_every_plain_field() {
    let mut o = offer("m", "12.5", vec![
        slice("SFO", "JFK", Some("PT12H"), vec![
            segment("AA", "1", "SFO", "ORD", "t1", "t2"),
            segment("AA", "2", "ORD", "JFK", "t3", "t4"),
        ]),
        slice("JFK", "SFO", None, vec![segment("BA", "7", "JFK", "SFO", "t5", "t6")]),
    ]);
    o.total_emissions_kg = Some(412);
    let s = o.to_summary();
    let f = row_fields(&s, "->");
    assert_eq!(f.len(), 10);
    assert_eq!(f[0], s.currency);
    assert_eq!(f[1], "1");
    assert_eq!(f[2], s.airline);
    assert_eq!(f[3], s.flight_numbers);
    assert_eq!(f[4], "t1");
    assert_eq!(f[5], "t4");
    assert_eq!(f[6], "PT12H");
    assert_eq!(f[7], s.cabin_class);
    assert_eq!(f[8], "SFO->JFK | JFK->SFO");
    assert_eq!(f[9], "412");
    o.total_emissions_kg = None;
    let f = row_fields(&o.to_summary(), "→");
    assert_eq!(f[8], "SFO→JFK | JFK→SFO");
    assert_eq!(f[9], "");
}

#[test]
fn long_integers_read_as_to_string_writes_them() {
    for n in [0i64, 7, -7, 1234567890123, i64::MAX, i64::MIN] {
        assert_eq!(long_to_text(n), n.to_string());
    }
}
