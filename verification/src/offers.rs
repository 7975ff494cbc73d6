//! Ordering and filtering the offers of a search.
use vstd::prelude::*;

use crate::duration::{duration_seconds, duration_value};
use crate::models::{text_or_empty, Offer};
use crate::ordering::{
    is_stable_sort_of, key_lt, keys_view, law_stable_sort_idempotent, permuted, sort_by_keys, sorts_stably, KeyView, SortKey,
};
use crate::text::{chars_of, lex_lt, str_eq};

verus! {

/// The departure of the first segment of the first slice, or the empty text.
pub open spec fn first_departure(o: Offer) -> Seq<char> {
    if o.slices@.len() > 0 && o.slices@[0].segments@.len() > 0 {
        o.slices@[0].segments@[0].departure@
    } else {
        Seq::empty()
    }
}

/// The duration text of the first slice, or the empty text.
pub open spec fn first_duration(o: Offer) -> Seq<char> {
    if o.slices@.len() > 0 {
        text_or_empty(o.slices@[0].duration)
    } else {
        Seq::empty()
    }
}

/// The key by departure: the first departure, compared as text.
pub open spec fn departure_key(o: Offer) -> KeyView {
    KeyView::Text(first_departure(o))
}

/// The key by duration: the seconds of the first slice's duration when it
/// reads as one; otherwise its text, which orders after every number.
pub open spec fn duration_key(o: Offer) -> KeyView {
    match duration_value(first_duration(o)) {
        Some(v) => KeyView::Number(v as u64),
        None => KeyView::Text(first_duration(o)),
    }
}

pub open spec fn rank_keys(ranks: Seq<u64>) -> Seq<KeyView> {
    ranks.map_values(|r: u64| KeyView::Number(r))
}

pub open spec fn departure_keys(offers: Seq<Offer>) -> Seq<KeyView> {
    offers.map_values(|o: Offer| departure_key(o))
}

pub open spec fn duration_keys(offers: Seq<Offer>) -> Seq<KeyView> {
    offers.map_values(|o: Offer| duration_key(o))
}

/// The keys by which `sort_offers` orders `offers` under `sort_by`; `None`
/// for an order it does not know, which leaves the offers as they are.
/// Under `price`, offer `i` is ordered by `price_ranks[i]`.
pub open spec fn offer_keys(offers: Seq<Offer>, sort_by: Seq<char>, price_ranks: Seq<u64>) -> Option<
    Seq<KeyView>,
> {
    if sort_by == "price"@ {
        Some(rank_keys(price_ranks))
    } else if sort_by == "depart_time"@ {
        Some(departure_keys(offers))
    } else if sort_by == "duration"@ {
        Some(duration_keys(offers))
    } else {
        None
    }
}

fn departure_sort_key(o: &Offer) -> (k: SortKey)
    ensures
        k@ == departure_key(*o),
{
    if o.slices.len() > 0 && o.slices[0].segments.len() > 0 {
        SortKey::Text(chars_of(o.slices[0].segments[0].departure.as_str()))
    } else {
        SortKey::Text(Vec::new())
    }
}

fn duration_sort_key(o: &Offer) -> (k: SortKey)
    ensures
        k@ == duration_key(*o),
{
    let text: &str = if o.slices.len() > 0 {
        match &o.slices[0].duration {
            Some(d) => d.as_str(),
            None => "",
        }
    } else {
        ""
    };
    proof {
        reveal_strlit("");
    }
    assert(text@ == first_duration(*o));
    match duration_seconds(text) {
        Some(v) => SortKey::Number(v),
        None => SortKey::Text(chars_of(text)),
    }
}

/// Sorts offers in place, stably, by `price`, `depart_time` or `duration`;
/// any other `sort_by` leaves them as they are.
///
/// Under `depart_time` the key is the first departure of the first slice,
/// compared as text (a missing one is the empty text). Under `duration` it is
/// the first slice's ISO-8601 duration in seconds; durations that do not
/// read as one come after all that do, ordered as text. Under `price`, offer
/// `i` is ordered by `price_ranks[i]`, the rank of its price among the
/// prices of all offers (the numeric reading of a price is the caller's).
pub fn sort_offers(offers: &mut Vec<Offer>, sort_by: &str, price_ranks: &Vec<u64>)
    requires
        sort_by@ == "price"@ ==> price_ranks.len() == old(offers).len(),
    ensures
        offer_keys(old(offers)@, sort_by@, price_ranks@) is None ==> final(offers)@ == old(offers)@,
        offer_keys(old(offers)@, sort_by@, price_ranks@) matches Some(ks) ==> is_stable_sort_of(
            final(offers)@,
            old(offers)@,
            ks,
        ),
        sort_by@ == "depart_time"@ ==> forall|i: int, j: int|
            0 <= i < j < final(offers)@.len() && (#[trigger] final(offers)@[i]).slices@.len() > 0
                && final(offers)@[i].slices@[0].segments@.len() > 0 && (#[trigger] final(offers)@[j]).slices@.len()
                > 0 && final(offers)@[j].slices@[0].segments@.len() > 0 ==> !lex_lt(
                final(offers)@[j].slices@[0].segments@[0].departure@,
                final(offers)@[i].slices@[0].segments@[0].departure@,
            ),
        sort_by@ == "duration"@ ==> forall|i: int, j: int|
            0 <= i < j < final(offers)@.len() && (#[trigger] final(offers)@[i]).slices@.len() > 0
                && final(offers)@[i].slices@[0].duration is Some && duration_value(
                final(offers)@[i].slices@[0].duration->0@,
            ) is Some && (#[trigger] final(offers)@[j]).slices@.len() > 0
                && final(offers)@[j].slices@[0].duration is Some && duration_value(
                final(offers)@[j].slices@[0].duration->0@,
            ) is Some ==> duration_value(final(offers)@[i].slices@[0].duration->0@)->0 <= duration_value(
                final(offers)@[j].slices@[0].duration->0@,
            )->0,
{
    let n = offers.len();
    let mut keys: Vec<SortKey> = Vec::new();
    if str_eq(sort_by, "price") {
        let mut i: usize = 0;
        while i < n
            invariant
                i <= n == price_ranks.len(),
                keys.len() == i,
                keys_view(keys@) == rank_keys(price_ranks@.take(i as int)),
            decreases n - i,
        {
            let ghost prev = keys@;
            keys.push(SortKey::Number(price_ranks[i]));
            assert(price_ranks@.take(i + 1) =~= price_ranks@.take(i as int).push(price_ranks@[i as int]));
            assert forall|j: int| 0 <= j < i + 1 implies keys_view(keys@)[j] == rank_keys(price_ranks@.take(i + 1))[j] by {
                if j < i {
                    assert(keys@[j] == prev[j]);
                    assert(keys_view(prev)[j] == rank_keys(price_ranks@.take(i as int))[j]);
                }
            }
            assert(keys_view(keys@) =~= rank_keys(price_ranks@.take(i + 1)));
            i = i + 1;
        }
        assert(price_ranks@.take(n as int) =~= price_ranks@);
    } else if str_eq(sort_by, "depart_time") {
        let mut i: usize = 0;
        while i < n
            invariant
                i <= n == offers.len(),
                keys.len() == i,
                keys_view(keys@) == departure_keys(offers@.take(i as int)),
            decreases n - i,
        {
            let ghost prev = keys@;
            keys.push(departure_sort_key(&offers[i]));
            assert(offers@.take(i + 1) =~= offers@.take(i as int).push(offers@[i as int]));
            assert forall|j: int| 0 <= j < i + 1 implies keys_view(keys@)[j] == departure_keys(offers@.take(i + 1))[j] by {
                if j < i {
                    assert(keys@[j] == prev[j]);
                    assert(keys_view(prev)[j] == departure_keys(offers@.take(i as int))[j]);
                }
            }
            assert(keys_view(keys@) =~= departure_keys(offers@.take(i + 1)));
            i = i + 1;
        }
        assert(offers@.take(n as int) =~= offers@);
    } else if str_eq(sort_by, "duration") {
        let mut i: usize = 0;
        while i < n
            invariant
                i <= n == offers.len(),
                keys.len() == i,
                keys_view(keys@) == duration_keys(offers@.take(i as int)),
            decreases n - i,
        {
            let ghost prev = keys@;
            keys.push(duration_sort_key(&offers[i]));
            assert(offers@.take(i + 1) =~= offers@.take(i as int).push(offers@[i as int]));
            assert forall|j: int| 0 <= j < i + 1 implies keys_view(keys@)[j] == duration_keys(offers@.take(i + 1))[j] by {
                if j < i {
                    assert(keys@[j] == prev[j]);
                    assert(keys_view(prev)[j] == duration_keys(offers@.take(i as int))[j]);
                }
            }
            assert(keys_view(keys@) =~= duration_keys(offers@.take(i + 1)));
            i = i + 1;
        }
        assert(offers@.take(n as int) =~= offers@);
    } else {
        assert(offer_keys(offers@, sort_by@, price_ranks@) is None);
        return;
    }
    let ghost by_departure = sort_by@ == "depart_time"@;
    let ghost by_duration = sort_by@ == "duration"@;
    let ghost kb = keys_view(keys@);
    assert(offer_keys(old(offers)@, sort_by@, price_ranks@) == Some(kb));
    sort_by_keys(offers, &mut keys);
    proof {
        let p = choose|p: Seq<int>| sorts_stably(kb, p) && offers@ == permuted(old(offers)@, p);
        assert(sorts_stably(kb, p) && offers@ == permuted(old(offers)@, p));
        if by_departure {
            law_depart_time_orders_first_departures(old(offers)@, offers@, price_ranks@);
        }
        if by_duration {
            law_duration_orders_first_durations(old(offers)@, offers@, price_ranks@);
        }
    }
}

/// Law: under `price` the offers come out by their ranks, lowest first,
/// and offers of equal rank keep the order they had: the result takes
/// offer `p[i]` at place `i` for a reordering `p` of the places, with the
/// ranks of the taken offers never decreasing.
pub proof fn law_price_orders_ranks(offers: Seq<Offer>, out: Seq<Offer>, ranks: Seq<u64>)
    requires
        ranks.len() == offers.len(),
        is_stable_sort_of(out, offers, offer_keys(offers, "price"@, ranks).unwrap()),
    ensures
        exists|p: Seq<int>|
            {
                &&& p.len() == offers.len()
                &&& out.len() == offers.len()
                &&& forall|i: int| 0 <= i < out.len() ==> 0 <= #[trigger] p[i] < offers.len() && out[i] == offers[p[i]]
                &&& forall|i: int, j: int| 0 <= i < j < out.len() ==> #[trigger] p[i] != #[trigger] p[j]
                &&& forall|i: int, j: int|
                    0 <= i < j < out.len() ==> ranks[#[trigger] p[i]] <= ranks[#[trigger] p[j]]
                &&& forall|i: int, j: int|
                    0 <= i < j < out.len() && ranks[#[trigger] p[i]] == ranks[#[trigger] p[j]] ==> p[i] < p[j]
            },
{
    reveal_strlit("price");
    let keys = rank_keys(ranks);
    assert(offer_keys(offers, "price"@, ranks) == Some(keys));
    let p = choose|p: Seq<int>| sorts_stably(keys, p) && out == permuted(offers, p);
    assert forall|i: int, j: int| 0 <= i < j < out.len() implies ranks[#[trigger] p[i]] <= ranks[#[trigger] p[j]] by {
        assert(!key_lt(keys[p[j]], keys[p[i]]));
    }
    assert forall|i: int, j: int|
        0 <= i < j < out.len() && ranks[#[trigger] p[i]] == ranks[#[trigger] p[j]] implies p[i] < p[j] by {
        assert(keys[p[i]] == keys[p[j]]);
    }
}

/// Law: under `depart_time` the offers come out ordered by the departure
/// of the first segment of their first slice, compared as text, whatever
/// their later slices hold; an offer whose first departure is known and not
/// empty comes after every offer without one.
pub proof fn law_depart_time_orders_first_departures(offers: Seq<Offer>, out: Seq<Offer>, ranks: Seq<u64>)
    requires
        is_stable_sort_of(out, offers, offer_keys(offers, "depart_time"@, ranks).unwrap()),
    ensures
        out.len() == offers.len(),
        forall|i: int, j: int|
            0 <= i < j < out.len() && (#[trigger] out[i]).slices@.len() > 0 && out[i].slices@[0].segments@.len()
                > 0 && (#[trigger] out[j]).slices@.len() > 0 && out[j].slices@[0].segments@.len() > 0
                ==> !lex_lt(
                out[j].slices@[0].segments@[0].departure@,
                out[i].slices@[0].segments@[0].departure@,
            ),
        forall|i: int, j: int|
            0 <= i < j < out.len() && (#[trigger] out[i]).slices@.len() > 0 && out[i].slices@[0].segments@.len()
                > 0 && out[i].slices@[0].segments@[0].departure@.len() > 0 ==> (#[trigger] out[j]).slices@.len()
                > 0 && out[j].slices@[0].segments@.len() > 0,
{
    reveal_strlit("price");
    reveal_strlit("depart_time");
    assert("price"@ != "depart_time"@) by {
        assert("price"@.len() != "depart_time"@.len());
    }
    let keys = departure_keys(offers);
    assert(offer_keys(offers, "depart_time"@, ranks) == Some(keys));
    let p = choose|p: Seq<int>| sorts_stably(keys, p) && out == permuted(offers, p);
    assert forall|i: int, j: int| 0 <= i < j < out.len() implies !key_lt(
        departure_key(#[trigger] out[j]),
        departure_key(#[trigger] out[i]),
    ) by {
        assert(out[i] == offers[p[i]]);
        assert(out[j] == offers[p[j]]);
        assert(keys[p[i]] == departure_key(offers[p[i]]));
        assert(keys[p[j]] == departure_key(offers[p[j]]));
    }
    assert forall|i: int, j: int|
        0 <= i < j < out.len() && (#[trigger] out[i]).slices@.len() > 0 && out[i].slices@[0].segments@.len()
            > 0 && out[i].slices@[0].segments@[0].departure@.len() > 0 implies (
        #[trigger] out[j]).slices@.len() > 0 && out[j].slices@[0].segments@.len() > 0 by {
        assert(!key_lt(departure_key(out[j]), departure_key(out[i])));
    }
}

/// Law: under `duration` the offers come out ordered by the seconds of
/// their first slice's duration, and every offer whose first slice has a
/// duration that reads as one comes before every offer without one.
pub proof fn law_duration_orders_first_durations(offers: Seq<Offer>, out: Seq<Offer>, ranks: Seq<u64>)
    requires
        is_stable_sort_of(out, offers, offer_keys(offers, "duration"@, ranks).unwrap()),
    ensures
        out.len() == offers.len(),
        forall|i: int, j: int|
            0 <= i < j < out.len() && (#[trigger] out[i]).slices@.len() > 0 && out[i].slices@[0].duration is Some
                && duration_value(out[i].slices@[0].duration->0@) is Some && (#[trigger] out[j]).slices@.len() > 0
                && out[j].slices@[0].duration is Some && duration_value(out[j].slices@[0].duration->0@) is Some
                ==> duration_value(out[i].slices@[0].duration->0@)->0 <= duration_value(
                out[j].slices@[0].duration->0@,
            )->0,
        forall|i: int, j: int|
            0 <= i < j < out.len() && (#[trigger] out[j]).slices@.len() > 0 && out[j].slices@[0].duration is Some
                && duration_value(out[j].slices@[0].duration->0@) is Some ==> (#[trigger] out[i]).slices@.len() > 0
                && out[i].slices@[0].duration is Some && duration_value(out[i].slices@[0].duration->0@) is Some,
{
    reveal_strlit("price");
    reveal_strlit("depart_time");
    reveal_strlit("duration");
    assert("price"@ != "duration"@ && "depart_time"@ != "duration"@) by {
        assert("price"@.len() != "duration"@.len());
        assert("depart_time"@.len() != "duration"@.len());
    }
    let keys = duration_keys(offers);
    assert(offer_keys(offers, "duration"@, ranks) == Some(keys));
    let p = choose|p: Seq<int>| sorts_stably(keys, p) && out == permuted(offers, p);
    assert forall|i: int, j: int| 0 <= i < j < out.len() implies !key_lt(
        duration_key(#[trigger] out[j]),
        duration_key(#[trigger] out[i]),
    ) by {
        assert(out[i] == offers[p[i]]);
        assert(out[j] == offers[p[j]]);
        assert(keys[p[i]] == duration_key(offers[p[i]]));
        assert(keys[p[j]] == duration_key(offers[p[j]]));
    }
    assert forall|i: int, j: int|
        0 <= i < j < out.len() && (#[trigger] out[i]).slices@.len() > 0 && out[i].slices@[0].duration is Some
            && duration_value(out[i].slices@[0].duration->0@) is Some && (#[trigger] out[j]).slices@.len() > 0
            && out[j].slices@[0].duration is Some && duration_value(out[j].slices@[0].duration->0@) is Some
            implies duration_value(out[i].slices@[0].duration->0@)->0 <= duration_value(
        out[j].slices@[0].duration->0@,
    )->0 by {
        assert(!key_lt(duration_key(out[j]), duration_key(out[i])));
    }
    assert forall|i: int, j: int|
        0 <= i < j < out.len() && (#[trigger] out[j]).slices@.len() > 0 && out[j].slices@[0].duration is Some
            && duration_value(out[j].slices@[0].duration->0@) is Some implies (#[trigger] out[i]).slices@.len() > 0
            && out[i].slices@[0].duration is Some && duration_value(out[i].slices@[0].duration->0@) is Some by {
        assert(!key_lt(duration_key(out[j]), duration_key(out[i])));
        reveal_strlit("PT");
        assert(duration_value(Seq::<char>::empty()) is None) by {
            assert(!"PT"@.is_prefix_of(Seq::<char>::empty()));
        }
        assert(duration_key(out[i]) is Number);
        if out[i].slices@.len() > 0 && out[i].slices@[0].duration is None {
            assert(first_duration(out[i]) =~= Seq::<char>::empty());
        }
    }
}

/// Law: sorting offers by departure or by duration a second time changes
/// nothing: what `sort_offers` returns is already in its final order.
pub proof fn law_sort_offers_idempotent(
    offers: Seq<Offer>,
    sort_by: Seq<char>,
    once: Seq<Offer>,
    twice: Seq<Offer>,
    ranks: Seq<u64>,
)
    requires
        sort_by == "depart_time"@ || sort_by == "duration"@,
        is_stable_sort_of(once, offers, offer_keys(offers, sort_by, ranks).unwrap()),
        is_stable_sort_of(twice, once, offer_keys(once, sort_by, ranks).unwrap()),
    ensures
        twice == once,
{
    reveal_strlit("price");
    reveal_strlit("depart_time");
    reveal_strlit("duration");
    assert("price"@ != "depart_time"@ && "price"@ != "duration"@) by {
        assert("price"@.len() != "depart_time"@.len());
        assert("price"@.len() != "duration"@.len());
    }
    let keys = offer_keys(offers, sort_by, ranks).unwrap();
    let p = choose|p: Seq<int>| sorts_stably(keys, p) && once == permuted(offers, p);
    let k1 = offer_keys(once, sort_by, ranks).unwrap();
    let q = choose|q: Seq<int>| sorts_stably(k1, q) && twice == permuted(once, q);
    assert(keys.len() == offers.len());
    assert(once.len() == p.len());
    if sort_by == "depart_time"@ {
        assert(k1 =~= permuted(keys, p));
    } else {
        assert(k1 =~= permuted(keys, p));
    }
    law_stable_sort_idempotent(offers, keys, p, q);
}

/// Tells whether every slice of an offer is a single segment.
pub open spec fn is_nonstop(o: Offer) -> bool {
    forall|i: int| 0 <= i < o.slices@.len() ==> (#[trigger] o.slices@[i]).segments@.len() == 1
}

fn offer_is_nonstop(o: &Offer) -> (r: bool)
    ensures
        r == is_nonstop(*o),
{
    let mut i: usize = 0;
    while i < o.slices.len()
        invariant
            i <= o.slices.len(),
            forall|m: int| 0 <= m < i ==> (#[trigger] o.slices@[m]).segments@.len() == 1,
        decreases o.slices.len() - i,
    {
        if o.slices[i].segments.len() != 1 {
            return false;
        }
        i = i + 1;
    }
    true
}

/// Law: filtering to nonstop offers twice keeps the same offers as once.
pub proof fn law_filter_nonstop_idempotent(offers: Seq<Offer>)
    ensures
        offers.filter(|o: Offer| is_nonstop(o)).filter(|o: Offer| is_nonstop(o)) == offers.filter(
            |o: Offer| is_nonstop(o),
        ),
    decreases offers.len(),
{
    reveal_with_fuel(Seq::<_>::filter, 1);
    if offers.len() > 0 {
        law_filter_nonstop_idempotent(offers.drop_last());
        let f = offers.drop_last().filter(|o: Offer| is_nonstop(o));
        if is_nonstop(offers.last()) {
            assert(f.push(offers.last()).drop_last() =~= f);
        }
    }
}

/// Law: the nonstop filter keeps an offer exactly when every one of its
/// slices, not only the first, is a single segment: each kept offer has one
/// segment in each slice, an offer with a slice of any other segment count
/// is left out, and an offer whose slices are all single segments stays.
pub proof fn law_nonstop_is_every_slice_direct(offers: Seq<Offer>, kept: Seq<Offer>)
    requires
        kept == offers.filter(|o: Offer| is_nonstop(o)),
    ensures
        forall|k: int, i: int|
            0 <= k < kept.len() && 0 <= i < kept[k].slices@.len() ==> (#[trigger] kept[k].slices@[i]).segments@.len()
                == 1,
        forall|k: int, i: int|
            0 <= k < offers.len() && 0 <= i < offers[k].slices@.len() && (
            #[trigger] offers[k].slices@[i]).segments@.len() != 1 ==> !kept.contains(offers[k]),
        forall|k: int|
            0 <= k < offers.len() && (forall|i: int|
                0 <= i < offers[k].slices@.len() ==> (#[trigger] offers[k].slices@[i]).segments@.len()
                    == 1) ==> #[trigger] kept.contains(offers[k]),
{
    let pred = |o: Offer| is_nonstop(o);
    assert forall|k: int, i: int|
        0 <= k < kept.len() && 0 <= i < kept[k].slices@.len() implies (
        #[trigger] kept[k].slices@[i]).segments@.len() == 1 by {
        offers.lemma_filter_pred(pred, k);
    }
    assert forall|k: int, i: int|
        0 <= k < offers.len() && 0 <= i < offers[k].slices@.len() && (
        #[trigger] offers[k].slices@[i]).segments@.len() != 1 implies !kept.contains(offers[k]) by {
        if kept.contains(offers[k]) {
            let m = choose|m: int| 0 <= m < kept.len() && kept[m] == offers[k];
            offers.lemma_filter_pred(pred, m);
            assert(kept[m].slices@[i].segments@.len() == 1);
        }
    }
    assert forall|k: int|
        0 <= k < offers.len() && (forall|i: int|
            0 <= i < offers[k].slices@.len() ==> (#[trigger] offers[k].slices@[i]).segments@.len()
                == 1) implies #[trigger] kept.contains(offers[k]) by {
        assert(is_nonstop(offers[k]));
        offers.lemma_filter_contains(pred, k);
    }
}

/// Keeps the offers whose every slice is nonstop, in their order.
pub fn filter_nonstop(offers: Vec<Offer>) -> (r: Vec<Offer>)
    ensures
        r@ == offers@.filter(|o: Offer| is_nonstop(o)),
        forall|k: int, i: int|
            0 <= k < r@.len() && 0 <= i < r@[k].slices@.len() ==> (#[trigger] r@[k].slices@[i]).segments@.len()
                == 1,
        forall|k: int, i: int|
            0 <= k < offers@.len() && 0 <= i < offers@[k].slices@.len() && (
            #[trigger] offers@[k].slices@[i]).segments@.len() != 1 ==> !r@.contains(offers@[k]),
        forall|k: int|
            0 <= k < offers@.len() && (forall|i: int|
                0 <= i < offers@[k].slices@.len() ==> (#[trigger] offers@[k].slices@[i]).segments@.len()
                    == 1) ==> #[trigger] r@.contains(offers@[k]),
{
    let ghost all = offers@;
    let mut r: Vec<Offer> = Vec::new();
    for o in it: offers.into_iter()
        invariant
            it.seq() == all,
            r@ == all.take(it.index() as int).filter(|o: Offer| is_nonstop(o)),
    {
        proof {
            let i = it.index() as int;
            assert(all.take(i + 1).drop_last() =~= all.take(i));
            reveal_with_fuel(Seq::<_>::filter, 1);
        }
        if offer_is_nonstop(&o) {
            r.push(o);
        }
    }
    assert(all.take(all.len() as int) =~= all);
    proof {
        law_nonstop_is_every_slice_direct(all, r@);
    }
    r
}


/// The ranks of the nonstop offers, in their order: `ranks[i]` belongs to
/// offer `i`.
pub open spec fn nonstop_ranks(offers: Seq<Offer>, ranks: Seq<u64>) -> Seq<u64>
    decreases offers.len(),
{
    if offers.len() == 0 {
        Seq::empty()
    } else {
        let n = offers.len() - 1;
        let before = nonstop_ranks(offers.take(n), ranks);
        if is_nonstop(offers[n]) {
            before.push(ranks[n])
        } else {
            before
        }
    }
}

/// Keeps the nonstop offers, in their order, and with them their price
/// ranks when there is one rank for each offer.
pub fn filter_nonstop_ranked(offers: Vec<Offer>, ranks: &Vec<u64>) -> (r: (Vec<Offer>, Vec<u64>))
    ensures
        r.0@ == offers@.filter(|o: Offer| is_nonstop(o)),
        ranks.len() == offers.len() ==> r.1@ == nonstop_ranks(offers@, ranks@) && r.1.len()
            == r.0.len(),
{
    let ghost all = offers@;
    let with_ranks = ranks.len() == offers.len();
    let mut kept: Vec<Offer> = Vec::new();
    let mut kept_ranks: Vec<u64> = Vec::new();
    let mut i: usize = 0;
    for o in it: offers.into_iter()
        invariant
            it.seq() == all,
            i == it.index(),
            i <= all.len() <= usize::MAX,
            with_ranks == (ranks.len() == all.len()),
            kept@ == all.take(i as int).filter(|o: Offer| is_nonstop(o)),
            with_ranks ==> kept_ranks@ == nonstop_ranks(all.take(i as int), ranks@)
                && kept_ranks.len() == kept.len(),
    {
        proof {
            assert(all.take(i + 1).drop_last() =~= all.take(i as int));
            assert(all.take(i + 1).take(i as int) =~= all.take(i as int));
            reveal_with_fuel(Seq::<_>::filter, 1);
        }
        if offer_is_nonstop(&o) {
            kept.push(o);
            if with_ranks {
                kept_ranks.push(ranks[i]);
            }
        }
        i = i + 1;
    }
    assert(all.take(all.len() as int) =~= all);
    (kept, kept_ranks)
}

} // verus!
