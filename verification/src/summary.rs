//! The short form of an offer that the command line prints.
use vstd::prelude::*;

use crate::models::{
    text_or_empty, Offer, OfferSummary, Segment, SegmentSummary, Slice, SliceSummary,
};
use crate::search::{digits_of, int_text, long_to_text, nat_digits};
use crate::text::{join, join_strings};

verus! {

/// The text of an optional string, or `fallback`.
pub open spec fn text_or(s: Option<String>, fallback: Seq<char>) -> Seq<char> {
    match s {
        Some(t) => t@,
        None => fallback,
    }
}

/// The summary of a segment of a slice: carrier name defaults to its code,
/// aircraft to the empty text, cabin to the slice's cabin.
pub open spec fn summarizes_segment(ss: SegmentSummary, seg: Segment, slice: Slice) -> bool {
    &&& ss.carrier@ == seg.carrier_iata@
    &&& ss.carrier_name@ == text_or(seg.carrier_name, seg.carrier_iata@)
    &&& ss.flight_number@ == seg.flight_number@
    &&& ss.origin@ == seg.origin@
    &&& ss.destination@ == seg.destination@
    &&& ss.departure@ == seg.departure@
    &&& ss.arrival@ == seg.arrival@
    &&& ss.aircraft@ == text_or_empty(seg.aircraft)
    &&& ss.cabin_class@ == text_or(seg.cabin_class, text_or_empty(slice.cabin_class))
}

/// The summary of a slice: its route, the departure of its first segment
/// and the arrival of its last, its stops (segments less one), and each
/// segment summarized.
pub open spec fn summarizes_slice(ss: SliceSummary, s: Slice) -> bool {
    let segs = s.segments@;
    &&& ss.origin@ == s.origin@
    &&& ss.destination@ == s.destination@
    &&& ss.departure@ == (if segs.len() > 0 {
        segs[0].departure@
    } else {
        Seq::empty()
    })
    &&& ss.arrival@ == (if segs.len() > 0 {
        segs.last().arrival@
    } else {
        Seq::empty()
    })
    &&& ss.stops == (if segs.len() > 0 {
        segs.len() - 1
    } else {
        0
    })
    &&& ss.segments@.len() == segs.len()
    &&& forall|i: int|
        0 <= i < segs.len() ==> summarizes_segment(#[trigger] ss.segments@[i], segs[i], s)
}

/// `<carrier code><flight number>` of a segment.
pub open spec fn flight_code(seg: Segment) -> Seq<char> {
    seg.carrier_iata@ + seg.flight_number@
}

/// The summary of an offer: price text and currency, every slice
/// summarized, and the first slice's stops, airline (its first segment's
/// carrier name, or code), flight codes joined with `, `, first departure,
/// last arrival, duration and cabin (the first segment's, else the slice's).
pub open spec fn summarizes_offer(os: OfferSummary, o: Offer) -> bool {
    let first = o.slices@[0];
    let segs = first.segments@;
    &&& os.price@ == o.total_amount@
    &&& os.currency@ == o.total_currency@
    &&& os.slices@.len() == o.slices@.len()
    &&& forall|i: int|
        0 <= i < o.slices@.len() ==> summarizes_slice(#[trigger] os.slices@[i], o.slices@[i])
    &&& os.stops == segs.len() - 1
    &&& os.airline@ == text_or(segs[0].carrier_name, segs[0].carrier_iata@)
    &&& os.flight_numbers@ == join(segs.map_values(|seg: Segment| flight_code(seg)), ", "@)
    &&& os.depart_time@ == segs[0].departure@
    &&& os.arrive_time@ == segs.last().arrival@
    &&& os.duration@ == text_or_empty(first.duration)
    &&& os.cabin_class@ == text_or(segs[0].cabin_class, text_or_empty(first.cabin_class))
    &&& os.emissions_kg == o.total_emissions_kg
    &&& match os.expires_at {
        Some(e) => o.expires_at matches Some(x) && e@ == x@,
        None => o.expires_at is None,
    }
}

/// Law: a summary follows the offer's own segments. Each slice's summary
/// keeps the slice's ends, runs from the departure of its first segment to
/// the arrival of its last (not of the first, at a connection), and counts
/// one stop fewer than it has segments; each segment's summary keeps that
/// segment's flight number, airports and times. The offer's departure and
/// arrival are those of its first slice, and so are its stops.
pub proof fn law_summary_follows_segments(os: OfferSummary, o: Offer)
    requires
        o.slices@.len() > 0,
        o.slices@[0].segments@.len() > 0,
        summarizes_offer(os, o),
    ensures
        os.price@ == o.total_amount@,
        os.currency@ == o.total_currency@,
        os.slices@.len() == o.slices@.len(),
        forall|i: int|
            0 <= i < o.slices@.len() ==> (#[trigger] os.slices@[i]).origin@ == o.slices@[i].origin@
                && os.slices@[i].destination@ == o.slices@[i].destination@
                && os.slices@[i].segments@.len() == o.slices@[i].segments@.len(),
        forall|i: int|
            0 <= i < o.slices@.len() && (#[trigger] o.slices@[i]).segments@.len() > 0 ==> os.slices@[i].departure@
                == o.slices@[i].segments@[0].departure@ && os.slices@[i].arrival@ == o.slices@[i].segments@[o.slices@[i].segments@.len()
                - 1].arrival@ && os.slices@[i].stops + 1 == o.slices@[i].segments@.len(),
        forall|i: int, k: int|
            0 <= i < o.slices@.len() && 0 <= k < o.slices@[i].segments@.len() ==> {
                let ss = #[trigger] os.slices@[i].segments@[k];
                let seg = o.slices@[i].segments@[k];
                &&& ss.flight_number@ == seg.flight_number@
                &&& ss.carrier@ == seg.carrier_iata@
                &&& ss.origin@ == seg.origin@
                &&& ss.destination@ == seg.destination@
                &&& ss.departure@ == seg.departure@
                &&& ss.arrival@ == seg.arrival@
            },
        os.depart_time@ == o.slices@[0].segments@[0].departure@,
        os.arrive_time@ == o.slices@[0].segments@[o.slices@[0].segments@.len() - 1].arrival@,
        os.slices@[0].arrival@ == os.arrive_time@,
        os.slices@[0].departure@ == os.depart_time@,
        os.stops + 1 == o.slices@[0].segments@.len(),
        os.airline@ == match o.slices@[0].segments@[0].carrier_name {
            Some(name) => name@,
            None => o.slices@[0].segments@[0].carrier_iata@,
        },
        os.duration@ == match o.slices@[0].duration {
            Some(d) => d@,
            None => Seq::<char>::empty(),
        },
        os.flight_numbers@ == join(
            Seq::new(
                o.slices@[0].segments@.len(),
                |k: int| o.slices@[0].segments@[k].carrier_iata@ + o.slices@[0].segments@[k].flight_number@,
            ),
            ", "@,
        ),
        os.emissions_kg == o.total_emissions_kg,
{
    assert(o.slices@[0].segments@.map_values(|seg: Segment| flight_code(seg)) =~= Seq::new(
        o.slices@[0].segments@.len(),
        |k: int| o.slices@[0].segments@[k].carrier_iata@ + o.slices@[0].segments@[k].flight_number@,
    ));
    assert forall|i: int|
        0 <= i < o.slices@.len() implies (#[trigger] os.slices@[i]).origin@ == o.slices@[i].origin@
            && os.slices@[i].destination@ == o.slices@[i].destination@
            && os.slices@[i].segments@.len() == o.slices@[i].segments@.len() by {
        assert(summarizes_slice(os.slices@[i], o.slices@[i]));
    }
    assert forall|i: int|
        0 <= i < o.slices@.len() && (#[trigger] o.slices@[i]).segments@.len() > 0 implies os.slices@[i].departure@
            == o.slices@[i].segments@[0].departure@ && os.slices@[i].arrival@ == o.slices@[i].segments@[o.slices@[i].segments@.len()
            - 1].arrival@ && os.slices@[i].stops + 1 == o.slices@[i].segments@.len() by {
        assert(summarizes_slice(os.slices@[i], o.slices@[i]));
    }
    assert forall|i: int, k: int|
        0 <= i < o.slices@.len() && 0 <= k < o.slices@[i].segments@.len() implies {
            let ss = #[trigger] os.slices@[i].segments@[k];
            let seg = o.slices@[i].segments@[k];
            &&& ss.flight_number@ == seg.flight_number@
            &&& ss.carrier@ == seg.carrier_iata@
            &&& ss.origin@ == seg.origin@
            &&& ss.destination@ == seg.destination@
            &&& ss.departure@ == seg.departure@
            &&& ss.arrival@ == seg.arrival@
        } by {
        assert(summarizes_slice(os.slices@[i], o.slices@[i]));
        assert(summarizes_segment(os.slices@[i].segments@[k], o.slices@[i].segments@[k], o.slices@[i]));
    }
    assert(summarizes_slice(os.slices@[0], o.slices@[0]));
}

fn text_or_else(s: &Option<String>, fallback: &String) -> (r: String)
    ensures
        r@ == text_or(*s, fallback@),
{
    match s {
        Some(t) => t.clone(),
        None => fallback.clone(),
    }
}

fn text_or_default(s: &Option<String>) -> (r: String)
    ensures
        r@ == text_or_empty(*s),
{
    match s {
        Some(t) => t.clone(),
        None => String::new(),
    }
}

fn summarize_segment(seg: &Segment, slice: &Slice) -> (ss: SegmentSummary)
    ensures
        summarizes_segment(ss, *seg, *slice),
{
    let slice_cabin = text_or_default(&slice.cabin_class);
    SegmentSummary {
        carrier: seg.carrier_iata.clone(),
        carrier_name: text_or_else(&seg.carrier_name, &seg.carrier_iata),
        flight_number: seg.flight_number.clone(),
        origin: seg.origin.clone(),
        destination: seg.destination.clone(),
        departure: seg.departure.clone(),
        arrival: seg.arrival.clone(),
        aircraft: text_or_default(&seg.aircraft),
        cabin_class: text_or_else(&seg.cabin_class, &slice_cabin),
    }
}

fn summarize_slice(s: &Slice) -> (ss: SliceSummary)
    ensures
        summarizes_slice(ss, *s),
{
    let n = s.segments.len();
    let mut segments: Vec<SegmentSummary> = Vec::new();
    let mut i: usize = 0;
    while i < n
        invariant
            i <= n == s.segments.len(),
            segments@.len() == i,
            forall|k: int|
                0 <= k < i ==> summarizes_segment(#[trigger] segments@[k], s.segments@[k], *s),
        decreases n - i,
    {
        segments.push(summarize_segment(&s.segments[i], s));
        i = i + 1;
    }
    SliceSummary {
        origin: s.origin.clone(),
        destination: s.destination.clone(),
        departure: if n > 0 {
            s.segments[0].departure.clone()
        } else {
            String::new()
        },
        arrival: if n > 0 {
            s.segments[n - 1].arrival.clone()
        } else {
            String::new()
        },
        stops: if n > 0 {
            n - 1
        } else {
            0
        },
        segments,
    }
}

fn flight_codes(segs: &Vec<Segment>) -> (r: Vec<String>)
    ensures
        r@.map_values(|c: String| c@) == segs@.map_values(|seg: Segment| flight_code(seg)),
{
    let mut r: Vec<String> = Vec::new();
    let mut i: usize = 0;
    while i < segs.len()
        invariant
            i <= segs.len(),
            r@.len() == i,
            forall|k: int| 0 <= k < i ==> (#[trigger] r@[k])@ == flight_code(segs@[k]),
        decreases segs.len() - i,
    {
        let mut code = segs[i].carrier_iata.clone();
        code.append(segs[i].flight_number.as_str());
        r.push(code);
        i = i + 1;
    }
    assert(r@.map_values(|c: String| c@) =~= segs@.map_values(|seg: Segment| flight_code(seg)));
    r
}

impl Offer {
    /// The summary of this offer; see `summarizes_offer`. The offer needs a
    /// first slice with at least one segment.
    pub fn to_summary(&self) -> (os: OfferSummary)
        requires
            self.slices@.len() > 0,
            self.slices@[0].segments@.len() > 0,
        ensures
            summarizes_offer(os, *self),
            os.slices@.len() == self.slices@.len(),
            forall|i: int|
                0 <= i < self.slices@.len() && (#[trigger] self.slices@[i]).segments@.len() > 0
                    ==> os.slices@[i].departure@ == self.slices@[i].segments@[0].departure@
                    && os.slices@[i].arrival@ == self.slices@[i].segments@[self.slices@[i].segments@.len()
                    - 1].arrival@ && os.slices@[i].stops + 1 == self.slices@[i].segments@.len(),
            os.depart_time@ == self.slices@[0].segments@[0].departure@,
            os.arrive_time@ == self.slices@[0].segments@[self.slices@[0].segments@.len() - 1].arrival@,
            os.stops + 1 == self.slices@[0].segments@.len(),
    {
        let n = self.slices.len();
        let mut slices: Vec<SliceSummary> = Vec::new();
        let mut i: usize = 0;
        while i < n
            invariant
                i <= n == self.slices.len(),
                slices@.len() == i,
                forall|k: int|
                    0 <= k < i ==> summarizes_slice(#[trigger] slices@[k], self.slices@[k]),
            decreases n - i,
        {
            slices.push(summarize_slice(&self.slices[i]));
            i = i + 1;
        }
        let first_slice = &self.slices[0];
        let segs = &first_slice.segments;
        let m = segs.len();
        let first_seg = &segs[0];
        let last_seg = &segs[m - 1];
        let slice_cabin = text_or_default(&first_slice.cabin_class);
        let os = OfferSummary {
            price: self.total_amount.clone(),
            currency: self.total_currency.clone(),
            slices,
            stops: m - 1,
            airline: text_or_else(&first_seg.carrier_name, &first_seg.carrier_iata),
            flight_numbers: join_strings(&flight_codes(segs), ", "),
            depart_time: first_seg.departure.clone(),
            arrive_time: last_seg.arrival.clone(),
            duration: text_or_default(&first_slice.duration),
            cabin_class: text_or_else(&first_seg.cabin_class, &slice_cabin),
            emissions_kg: self.total_emissions_kg,
            expires_at: match &self.expires_at {
                Some(e) => Some(e.clone()),
                None => None,
            },
        };
        proof {
            law_summary_follows_segments(os, *self);
        }
        os
    }
}

/// `<origin><arrow><destination>` of a slice summary.
pub open spec fn leg_text(s: SliceSummary, arrow: Seq<char>) -> Seq<char> {
    s.origin@ + arrow + s.destination@
}

/// The route of an offer summary: each slice as origin, `arrow`,
/// destination, joined with ` | `.
pub fn route_label(os: &OfferSummary, arrow: &str) -> (r: String)
    ensures
        r@ == join(os.slices@.map_values(|s: SliceSummary| leg_text(s, arrow@)), " | "@),
{
    let mut legs: Vec<String> = Vec::new();
    let mut i: usize = 0;
    while i < os.slices.len()
        invariant
            i <= os.slices.len(),
            legs@.len() == i,
            forall|k: int| 0 <= k < i ==> (#[trigger] legs@[k])@ == leg_text(os.slices@[k], arrow@),
        decreases os.slices.len() - i,
    {
        let mut leg = os.slices[i].origin.clone();
        leg.append(arrow);
        leg.append(os.slices[i].destination.as_str());
        legs.push(leg);
        i = i + 1;
    }
    assert(legs@.map_values(|l: String| l@) =~= os.slices@.map_values(
        |s: SliceSummary| leg_text(s, arrow@),
    ));
    join_strings(&legs, " | ")
}


/// The route of an offer summary as `route_label` writes it.
pub open spec fn route_text(os: OfferSummary, arrow: Seq<char>) -> Seq<char> {
    join(os.slices@.map_values(|s: SliceSummary| leg_text(s, arrow)), " | "@)
}

/// The emissions of an offer in kilograms, or the empty text when unknown.
pub open spec fn emissions_text(e: Option<i64>) -> Seq<char> {
    match e {
        Some(kg) => int_text(kg as int),
        None => Seq::empty(),
    }
}

/// The fields that a printed row shows of an offer, but for its price:
/// currency, stops, airline, flight numbers, departure, arrival, duration,
/// cabin, the route with `arrow` between the ends of each slice, and the
/// emissions in kilograms.
pub open spec fn row_text(os: OfferSummary, arrow: Seq<char>) -> Seq<Seq<char>> {
    seq![
        os.currency@,
        nat_digits(os.stops as nat),
        os.airline@,
        os.flight_numbers@,
        os.depart_time@,
        os.arrive_time@,
        os.duration@,
        os.cabin_class@,
        route_text(os, arrow),
        emissions_text(os.emissions_kg),
    ]
}

/// The fields of a printed row of an offer, in the order of `row_text`;
/// the price is the caller's to write.
pub fn row_fields(os: &OfferSummary, arrow: &str) -> (r: Vec<String>)
    ensures
        r@.map_values(|f: String| f@) == row_text(*os, arrow@),
{
    let mut r: Vec<String> = Vec::new();
    r.push(os.currency.clone());
    r.push(crate::text::string_from_chars(digits_of(os.stops as u64).as_slice()));
    r.push(os.airline.clone());
    r.push(os.flight_numbers.clone());
    r.push(os.depart_time.clone());
    r.push(os.arrive_time.clone());
    r.push(os.duration.clone());
    r.push(os.cabin_class.clone());
    r.push(route_label(os, arrow));
    let emissions = match os.emissions_kg {
        Some(kg) => long_to_text(kg),
        None => String::new(),
    };
    r.push(emissions);
    assert(r@.map_values(|f: String| f@) =~= row_text(*os, arrow@));
    r
}

} // verus!
