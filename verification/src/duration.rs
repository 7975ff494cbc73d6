//! ISO-8601 time durations such as `PT5H48M`, read as a number of seconds.
use vstd::prelude::*;

use crate::text::{chars_of, digits_value, is_ascii_digit};

verus! {

/// Seconds per unit of a duration component: `H`, `M` or `S`; 0 for any
/// other character.
pub open spec fn unit_seconds(c: char) -> nat {
    if c == 'H' {
        3600
    } else if c == 'M' {
        60
    } else if c == 'S' {
        1
    } else {
        0
    }
}

/// The number of decimal digits at the start of `t`.
pub open spec fn digit_run(t: Seq<char>) -> nat
    decreases t.len(),
{
    if t.len() > 0 && is_ascii_digit(t[0]) {
        1 + digit_run(t.drop_first())
    } else {
        0
    }
}

/// The seconds of the first component of `t` (its digits times its unit).
pub open spec fn first_component(t: Seq<char>) -> nat {
    let k = digit_run(t);
    digits_value(t.take(k as int)) * unit_seconds(t[k as int])
}

/// The total of a non-empty run of components `<digits><unit>`, each unit
/// one of `H`, `M`, `S`; `None` when `t` is not such a run.
pub open spec fn components_total(t: Seq<char>) -> Option<nat>
    decreases t.len(),
{
    let k = digit_run(t);
    if k == 0 || k >= t.len() || unit_seconds(t[k as int]) == 0 {
        None
    } else {
        let rest = t.skip(k as int + 1);
        if rest.len() == 0 {
            Some(first_component(t))
        } else {
            match components_total(rest) {
                Some(r) => Some(first_component(t) + r),
                None => None,
            }
        }
    }
}

/// The seconds of a duration `PT<components>`, when it is one and the total
/// fits in a `u64`.
pub open spec fn duration_value(s: Seq<char>) -> Option<nat> {
    if "PT"@.is_prefix_of(s) {
        match components_total(s.skip(2)) {
            Some(v) => if v <= u64::MAX {
                Some(v)
            } else {
                None
            },
            None => None,
        }
    } else {
        None
    }
}

pub open spec fn add_opt(a: nat, o: Option<nat>) -> Option<nat> {
    match o {
        Some(r) => Some(a + r),
        None => None,
    }
}

proof fn lemma_digit_run(s: Seq<char>, k: int)
    requires
        0 <= k <= s.len(),
        forall|m: int| 0 <= m < k ==> is_ascii_digit(#[trigger] s[m]),
        k == s.len() || !is_ascii_digit(s[k]),
    ensures
        digit_run(s) == k,
    decreases k,
{
    if k > 0 {
        lemma_digit_run(s.drop_first(), k - 1);
    }
}

proof fn lemma_digits_value_step(s: Seq<char>, m: int)
    requires
        0 <= m < s.len(),
    ensures
        digits_value(s.take(m + 1)) == digits_value(s.take(m)) * 10 + ((s[m] as u32) - ('0' as u32)) as nat,
{
    assert(s.take(m + 1).drop_last() =~= s.take(m));
}

proof fn lemma_first_component_bound(t: Seq<char>)
    requires
        components_total(t) is Some,
    ensures
        components_total(t).unwrap() >= first_component(t),
        digit_run(t) < t.len(),
        unit_seconds(t[digit_run(t) as int]) >= 1,
        first_component(t) >= digits_value(t.take(digit_run(t) as int)),
{
    let k = digit_run(t);
    let d = digits_value(t.take(k as int));
    let u = unit_seconds(t[k as int]);
    assert(d * u >= d) by (nonlinear_arith)
        requires
            u >= 1,
    ;
}

proof fn lemma_digit_run_all_digits(t: Seq<char>)
    ensures
        digit_run(t) <= t.len(),
        forall|i: int| 0 <= i < digit_run(t) ==> is_ascii_digit(#[trigger] t[i]),
    decreases t.len(),
{
    if t.len() > 0 && is_ascii_digit(t[0]) {
        lemma_digit_run_all_digits(t.drop_first());
        assert forall|i: int| 0 <= i < digit_run(t) implies is_ascii_digit(#[trigger] t[i]) by {
            if i > 0 {
                assert(t[i] == t.drop_first()[i - 1]);
            }
        }
    }
}

/// A single component `<digits><unit>`.
pub open spec fn is_component(c: Seq<char>) -> bool {
    &&& c.len() >= 2
    &&& forall|i: int| 0 <= i < c.len() - 1 ==> is_ascii_digit(#[trigger] c[i])
    &&& unit_seconds(c.last()) > 0
}

proof fn lemma_component_run(c: Seq<char>, rest: Seq<char>)
    requires
        is_component(c),
    ensures
        digit_run(c + rest) == c.len() - 1,
        (c + rest).take(c.len() - 1) == c.drop_last(),
        (c + rest)[c.len() - 1] == c.last(),
        (c + rest).skip(c.len() as int) == rest,
{
    let t = c + rest;
    let k = c.len() - 1;
    assert forall|m: int| 0 <= m < k implies is_ascii_digit(#[trigger] t[m]) by {
        assert(t[m] == c[m]);
    }
    assert(t[k] == c.last());
    assert(!is_ascii_digit(c.last()));
    lemma_digit_run(t, k);
    assert(t.take(k) =~= c.drop_last());
    assert(t.skip(c.len() as int) =~= rest);
}

/// Law: a single component is worth its digits times its unit: `H` 3600
/// seconds, `M` 60, `S` 1.
pub proof fn law_single_component(c: Seq<char>)
    requires
        c.len() >= 2,
        forall|i: int| 0 <= i < c.len() - 1 ==> '0' <= #[trigger] c[i] <= '9',
        c.last() == 'H' || c.last() == 'M' || c.last() == 'S',
    ensures
        components_total(c) == Some(
            digits_value(c.drop_last()) * (if c.last() == 'H' {
                3600nat
            } else if c.last() == 'M' {
                60nat
            } else {
                1nat
            }),
        ),
{
    assert(is_component(c)) by {
        assert forall|i: int| 0 <= i < c.len() - 1 implies is_ascii_digit(#[trigger] c[i]) by {}
    }
    lemma_component_run(c, Seq::empty());
    assert(c + Seq::<char>::empty() =~= c);
}

/// Law: only text that starts with `PT` reads as a duration, and `PT`
/// followed by one component `<digits><unit>` reads as its digits times
/// 3600 for `H`, 60 for `M` or 1 for `S`, when that fits in a `u64`.
pub proof fn law_duration_of_one_component(s: Seq<char>, c: Seq<char>)
    requires
        c.len() >= 2,
        forall|i: int| 0 <= i < c.len() - 1 ==> '0' <= #[trigger] c[i] <= '9',
        c.last() == 'H' || c.last() == 'M' || c.last() == 'S',
    ensures
        !(s.len() >= 2 && s[0] == 'P' && s[1] == 'T') ==> duration_value(s) is None,
        ({
            let v = digits_value(c.drop_last()) * (if c.last() == 'H' {
                3600nat
            } else if c.last() == 'M' {
                60nat
            } else {
                1nat
            });
            duration_value(seq!['P', 'T'] + c) == if v <= u64::MAX {
                Some(v)
            } else {
                None
            }
        }),
{
    reveal_strlit("PT");
    assert("PT"@ =~= seq!['P', 'T']);
    law_single_component(c);
    let t = seq!['P', 'T'] + c;
    assert("PT"@.is_prefix_of(t));
    assert(t.skip(2) =~= c);
    if "PT"@.is_prefix_of(s) {
        assert(s[0] == "PT"@[0] && s[1] == "PT"@[1]);
    }
}

/// Law: a duration is worth the sum of its components; a run of
/// components followed by another run is worth the two totals added.
pub proof fn law_components_add(a: Seq<char>, b: Seq<char>)
    requires
        components_total(a) is Some,
        components_total(b) is Some,
    ensures
        components_total(a + b) == Some(components_total(a).unwrap() + components_total(b).unwrap()),
    decreases a.len(),
{
    lemma_first_component_bound(a);
    let k = digit_run(a);
    let c = a.take(k as int + 1);
    let rest = a.skip(k as int + 1);
    assert(a =~= c + rest);
    lemma_digit_run_all_digits(a);
    assert(is_component(c)) by {
        assert forall|i: int| 0 <= i < c.len() - 1 implies is_ascii_digit(#[trigger] c[i]) by {
            assert(c[i] == a[i]);
        }
    }
    lemma_component_run(c, rest + b);
    assert(a + b =~= c + (rest + b));
    assert((a + b).take(k as int) =~= a.take(k as int));
    assert(first_component(a + b) == first_component(a));
    if rest.len() == 0 {
        assert(rest + b =~= b);
    } else {
        law_components_add(rest, b);
    }
}

/// The number of seconds of an ISO-8601 duration such as `PT1H30M`.
pub fn duration_seconds(duration: &str) -> (r: Option<u64>)
    ensures
        match duration_value(duration@) {
            Some(v) => r == Some(v as u64),
            None => r is None,
        },
{
    proof {
        reveal_strlit("PT");
    }
    let t = chars_of(duration);
    let n = t.len();
    if n < 2 || t[0] != 'P' || t[1] != 'T' {
        proof {
            if "PT"@.is_prefix_of(duration@) {
                assert(duration@.subrange(0, 2)[0] == 'P');
                assert(duration@.subrange(0, 2)[1] == 'T');
            }
        }
        return None;
    }
    assert("PT"@.is_prefix_of(t@)) by {
        assert(t@.subrange(0, 2) =~= "PT"@);
    }
    let ghost whole = components_total(t@.skip(2));
    if n == 2 {
        assert(digit_run(t@.skip(2)) == 0);
        return None;
    }
    let mut i: usize = 2;
    let mut total: u64 = 0;
    while i < n
        invariant
            2 <= i <= n == t.len(),
            t@ == duration@,
            whole == components_total(t@.skip(2)),
            whole == (if i < n {
                add_opt(total as nat, components_total(t@.skip(i as int)))
            } else {
                Some(total as nat)
            }),
        decreases n - i,
    {
        let ghost rest = t@.skip(i as int);
        // read the digits of the component that starts at i
        let mut j: usize = i;
        let mut value: u64 = 0;
        let mut too_big = false;
        while j < n && '0' <= t[j] && t[j] <= '9'
            invariant
                i <= j <= n == t.len(),
                rest == t@.skip(i as int),
                forall|m: int| 0 <= m < j - i ==> is_ascii_digit(#[trigger] rest[m]),
                !too_big ==> value == digits_value(rest.take(j - i)),
                too_big ==> digits_value(rest.take(j - i)) > u64::MAX,
            decreases n - j,
        {
            let d = (t[j] as u32) - ('0' as u32);
            proof {
                lemma_digits_value_step(rest, j - i);
                assert(rest[j - i] == t@[j as int]);
            }
            if !too_big {
                match value.checked_mul(10) {
                    Some(v10) => match v10.checked_add(d as u64) {
                        Some(v) => {
                            value = v;
                        },
                        None => {
                            too_big = true;
                        },
                    },
                    None => {
                        too_big = true;
                    },
                }
            }
            j = j + 1;
        }
        let k = j - i;
        proof {
            lemma_digit_run(rest, k as int);
            lemma_digit_run_all_digits(rest);
        }
        if k == 0 || j == n {
            return None;
        }
        let unit = t[j];
        assert(rest[k as int] == unit);
        let mult: u64 = if unit == 'H' {
            3600
        } else if unit == 'M' {
            60
        } else if unit == 'S' {
            1
        } else {
            return None;
        };
        if too_big {
            proof {
                if whole is Some {
                    lemma_first_component_bound(rest);
                }
            }
            return None;
        }
        let part = match value.checked_mul(mult) {
            Some(p) => p,
            None => {
                proof {
                    if whole is Some {
                        lemma_first_component_bound(rest);
                    }
                }
                return None;
            },
        };
        assert(part as nat == first_component(rest));
        let next = match total.checked_add(part) {
            Some(s) => s,
            None => {
                proof {
                    if whole is Some {
                        lemma_first_component_bound(rest);
                    }
                }
                return None;
            },
        };
        proof {
            assert(rest.skip(k as int + 1) =~= t@.skip(j + 1));
        }
        total = next;
        i = j + 1;
    }
    Some(total)
}

} // verus!
