//! The search request, the offers of the response stream, and the
//! summaries that the command line prints.
use vstd::prelude::*;

verus! {

// ---------------------------------------------------------------------------
// Request models
// ---------------------------------------------------------------------------

/// The cabin of a request that names none.
pub fn default_cabin() -> (s: String)
    ensures
        s@ == "economy"@,
{
    "economy".to_string()
}

/// The number of passengers of a request that names none.
pub fn default_passengers() -> (n: i32)
    ensures
        n == 1,
{
    1
}

/// A search: either the flat fields (`origin`, `destination`, `date`,
/// optional `return_date`) or a list of `slices`.
#[derive(Debug, Clone)]
pub struct SearchRequest {
    pub origin: Option<String>,
    pub destination: Option<String>,
    pub date: Option<String>,
    pub return_date: Option<String>,
    pub slices: Option<Vec<SliceRequest>>,
    pub cabin: String,
    pub passengers: i32,
}

/// One leg of a multi-city search.
#[derive(Debug, Clone)]
pub struct SliceRequest {
    pub origin: String,
    pub destination: String,
    pub departure_date: String,
}

// ---------------------------------------------------------------------------
// Response models (SSE offer payloads)
// ---------------------------------------------------------------------------

#[derive(Debug, Clone)]
pub struct Offer {
    pub id: String,
    pub provider: Option<String>,
    pub requested_cabin: Option<String>,
    pub search_cabin: Option<String>,
    pub total_amount: String,
    pub total_currency: String,
    pub base_amount: Option<String>,
    pub base_currency: Option<String>,
    pub tax_amount: Option<String>,
    pub tax_currency: Option<String>,
    pub expires_at: Option<String>,
    pub total_emissions_kg: Option<i64>,
    pub conditions: Option<Conditions>,
    pub slices: Vec<Slice>,
}

#[derive(Debug, Clone)]
pub struct Conditions {
    pub refundable: Option<bool>,
    pub refund_penalty_amount: Option<String>,
    pub changeable: Option<bool>,
    pub change_penalty_amount: Option<String>,
}

#[derive(Debug, Clone)]
pub struct Slice {
    pub origin: String,
    pub origin_name: Option<String>,
    pub origin_city: Option<String>,
    pub destination: String,
    pub destination_name: Option<String>,
    pub destination_city: Option<String>,
    pub duration: Option<String>,
    pub fare_brand: Option<String>,
    pub cabin_class: Option<String>,
    pub segments: Vec<Segment>,
}

#[derive(Debug, Clone)]
pub struct Segment {
    pub carrier_iata: String,
    pub carrier_name: Option<String>,
    pub carrier_logo: Option<String>,
    pub operating_carrier_iata: Option<String>,
    pub operating_carrier_name: Option<String>,
    pub is_codeshare: Option<bool>,
    pub flight_number: String,
    pub operating_flight_number: Option<String>,
    pub departure: String,
    pub arrival: String,
    pub departure_display: Option<String>,
    pub arrival_display: Option<String>,
    pub origin: String,
    pub origin_name: Option<String>,
    pub origin_time_zone: Option<String>,
    pub origin_terminal: Option<String>,
    pub destination: String,
    pub destination_name: Option<String>,
    pub destination_time_zone: Option<String>,
    pub destination_terminal: Option<String>,
    pub aircraft: Option<String>,
    pub duration: Option<String>,
    pub cabin_class: Option<String>,
    pub fare_basis_code: Option<String>,
    pub fare_brand: Option<String>,
    pub baggage_carry_on: Option<i32>,
    pub baggage_checked: Option<i32>,
    pub amenities: Option<Amenities>,
}

#[derive(Debug, Clone)]
pub struct Amenities {
    pub wifi: Option<WifiAmenity>,
    pub power: Option<PowerAmenity>,
    pub source: Option<String>,
}

#[derive(Debug, Clone)]
pub struct WifiAmenity {
    pub available: Option<bool>,
    pub cost: Option<String>,
    pub partial: Option<bool>,
}

#[derive(Debug, Clone)]
pub struct PowerAmenity {
    pub available: Option<bool>,
}

// ---------------------------------------------------------------------------
// SSE event wrapper
// ---------------------------------------------------------------------------

/// The payload of an `error` event.
#[derive(Debug, Clone)]
pub struct SseError {
    pub error: String,
    pub status: Option<i32>,
}

// ---------------------------------------------------------------------------
// CLI output models
// ---------------------------------------------------------------------------

/// The summary of an offer. `price` is the offer's total amount as the
/// server wrote it, in decimal; its numeric reading is left to the printer.
#[derive(Debug, Clone)]
pub struct OfferSummary {
    pub price: String,
    pub currency: String,
    pub slices: Vec<SliceSummary>,
    pub stops: usize,
    pub airline: String,
    pub flight_numbers: String,
    pub depart_time: String,
    pub arrive_time: String,
    pub duration: String,
    pub cabin_class: String,
    pub emissions_kg: Option<i64>,
    pub expires_at: Option<String>,
}

#[derive(Debug, Clone)]
pub struct SliceSummary {
    pub origin: String,
    pub destination: String,
    pub departure: String,
    pub arrival: String,
    pub stops: usize,
    pub segments: Vec<SegmentSummary>,
}

#[derive(Debug, Clone)]
pub struct SegmentSummary {
    pub carrier: String,
    pub carrier_name: String,
    pub flight_number: String,
    pub origin: String,
    pub destination: String,
    pub departure: String,
    pub arrival: String,
    pub aircraft: String,
    pub cabin_class: String,
}

/// The text of an optional string, or the empty text.
pub open spec fn text_or_empty(s: Option<String>) -> Seq<char> {
    match s {
        Some(t) => t@,
        None => Seq::empty(),
    }
}

} // verus!
