//! Sort keys, their total order, and a stable sort by key.
use vstd::prelude::*;

use crate::text::lex_lt;

verus! {

/// A key by which items are ordered: numbers come first, in numeric order,
/// then texts, in lexicographic order.
pub enum SortKey {
    Number(u64),
    Text(Vec<char>),
}

/// The mathematical value of a sort key.
pub enum KeyView {
    Number(u64),
    Text(Seq<char>),
}

impl View for SortKey {
    type V = KeyView;

    open spec fn view(&self) -> KeyView {
        match self {
            SortKey::Number(n) => KeyView::Number(*n),
            SortKey::Text(t) => KeyView::Text(t@),
        }
    }
}

/// The strict order on keys.
pub open spec fn key_lt(a: KeyView, b: KeyView) -> bool {
    match (a, b) {
        (KeyView::Number(x), KeyView::Number(y)) => x < y,
        (KeyView::Number(_), KeyView::Text(_)) => true,
        (KeyView::Text(_), KeyView::Number(_)) => false,
        (KeyView::Text(x), KeyView::Text(y)) => lex_lt(x, y),
    }
}

pub open spec fn keys_view(keys: Seq<SortKey>) -> Seq<KeyView> {
    keys.map_values(|k: SortKey| k@)
}

/// `p` lists each index below `n` exactly once.
pub open spec fn is_permutation(p: Seq<int>, n: nat) -> bool {
    &&& p.len() == n
    &&& forall|i: int| 0 <= i < n ==> 0 <= #[trigger] p[i] < n
    &&& forall|i: int, j: int| 0 <= i < j < n ==> #[trigger] p[i] != #[trigger] p[j]
}

/// The items of `s` in the order that `p` lists their indices.
pub open spec fn permuted<T>(s: Seq<T>, p: Seq<int>) -> Seq<T> {
    p.map_values(|i: int| s[i])
}

/// Taking the items in the order `p` gives a stable sort by `keys`: the keys
/// come out in non-decreasing order, and items with equal keys keep the
/// order they had.
pub open spec fn sorts_stably(keys: Seq<KeyView>, p: Seq<int>) -> bool {
    &&& is_permutation(p, keys.len())
    &&& forall|i: int, j: int|
        0 <= i < j < keys.len() ==> !key_lt(#[trigger] keys[p[j]], #[trigger] keys[p[i]])
    &&& forall|i: int, j: int|
        0 <= i < j < keys.len() && #[trigger] keys[p[i]] == #[trigger] keys[p[j]] ==> p[i] < p[j]
}

/// `out` is `input` stably sorted by `keys` (one key per item of `input`).
pub open spec fn is_stable_sort_of<T>(out: Seq<T>, input: Seq<T>, keys: Seq<KeyView>) -> bool {
    exists|p: Seq<int>| sorts_stably(keys, p) && out == permuted(input, p)
}

pub proof fn lemma_lex_irreflexive(a: Seq<char>)
    ensures
        !lex_lt(a, a),
    decreases a.len(),
{
    if a.len() > 0 {
        lemma_lex_irreflexive(a.drop_first());
    }
}

pub proof fn lemma_lex_transitive(a: Seq<char>, b: Seq<char>, c: Seq<char>)
    requires
        lex_lt(a, b),
        lex_lt(b, c),
    ensures
        lex_lt(a, c),
    decreases a.len(),
{
    if a.len() > 0 && b.len() > 0 && c.len() > 0 && a[0] == b[0] && b[0] == c[0] {
        lemma_lex_transitive(a.drop_first(), b.drop_first(), c.drop_first());
    }
}

pub proof fn lemma_lex_total(a: Seq<char>, b: Seq<char>)
    ensures
        a == b || lex_lt(a, b) || lex_lt(b, a),
    decreases a.len(),
{
    if a.len() > 0 && b.len() > 0 {
        if a[0] == b[0] {
            lemma_lex_total(a.drop_first(), b.drop_first());
            if a.drop_first() == b.drop_first() {
                assert(a =~= seq![a[0]] + a.drop_first());
                assert(b =~= seq![b[0]] + b.drop_first());
            }
        }
    } else if a.len() == 0 && b.len() == 0 {
        assert(a =~= b);
    }
}

pub proof fn lemma_key_irreflexive(a: KeyView)
    ensures
        !key_lt(a, a),
{
    if let KeyView::Text(x) = a {
        lemma_lex_irreflexive(x);
    }
}

pub proof fn lemma_key_transitive(a: KeyView, b: KeyView, c: KeyView)
    requires
        key_lt(a, b),
        key_lt(b, c),
    ensures
        key_lt(a, c),
{
    match (a, b, c) {
        (KeyView::Text(x), KeyView::Text(y), KeyView::Text(z)) => lemma_lex_transitive(x, y, z),
        _ => {},
    }
}

pub proof fn lemma_key_total(a: KeyView, b: KeyView)
    ensures
        a == b || key_lt(a, b) || key_lt(b, a),
{
    match (a, b) {
        (KeyView::Text(x), KeyView::Text(y)) => lemma_lex_total(x, y),
        _ => {},
    }
}

/// The keys are already in non-decreasing order.
pub open spec fn keys_ordered(keys: Seq<KeyView>) -> bool {
    forall|i: int, j: int| 0 <= i < j < keys.len() ==> !key_lt(#[trigger] keys[j], #[trigger] keys[i])
}

proof fn lemma_increasing_lower(q: Seq<int>, n: int, a: int)
    requires
        q.len() == n,
        0 <= a < n,
        forall|i: int| 0 <= i < n ==> 0 <= #[trigger] q[i] < n,
        forall|i: int, j: int| 0 <= i < j < n ==> #[trigger] q[i] < #[trigger] q[j],
    ensures
        q[a] >= a,
    decreases a,
{
    if a > 0 {
        lemma_increasing_lower(q, n, a - 1);
    }
}

proof fn lemma_increasing_upper(q: Seq<int>, n: int, a: int)
    requires
        q.len() == n,
        0 <= a < n,
        forall|i: int| 0 <= i < n ==> 0 <= #[trigger] q[i] < n,
        forall|i: int, j: int| 0 <= i < j < n ==> #[trigger] q[i] < #[trigger] q[j],
    ensures
        q[a] <= a,
    decreases n - a,
{
    if a < n - 1 {
        lemma_increasing_upper(q, n, a + 1);
    }
}

/// A stable sort of keys that are already in order keeps every item in
/// place.
pub proof fn lemma_sort_of_ordered_is_identity(keys: Seq<KeyView>, q: Seq<int>)
    requires
        keys_ordered(keys),
        sorts_stably(keys, q),
    ensures
        forall|a: int| 0 <= a < keys.len() ==> #[trigger] q[a] == a,
{
    let n = keys.len() as int;
    assert forall|a: int, b: int| 0 <= a < b < n implies #[trigger] q[a] < #[trigger] q[b] by {
        assert(!key_lt(keys[q[b]], keys[q[a]]));
        if keys[q[a]] != keys[q[b]] {
            lemma_key_total(keys[q[a]], keys[q[b]]);
            assert(key_lt(keys[q[a]], keys[q[b]]));
            if q[a] > q[b] {
                assert(!key_lt(keys[q[a]], keys[q[b]]));
            }
            assert(q[a] != q[b]);
        }
    }
    assert forall|a: int| 0 <= a < n implies #[trigger] q[a] == a by {
        lemma_increasing_lower(q, n, a);
        lemma_increasing_upper(q, n, a);
    }
}

/// Law: sorting stably what is already sorted by the same keys changes
/// nothing.
pub proof fn law_stable_sort_idempotent<T>(
    input: Seq<T>,
    keys: Seq<KeyView>,
    p: Seq<int>,
    q: Seq<int>,
)
    requires
        input.len() == keys.len(),
        sorts_stably(keys, p),
        sorts_stably(permuted(keys, p), q),
    ensures
        permuted(permuted(input, p), q) == permuted(input, p),
{
    let k1 = permuted(keys, p);
    assert forall|i: int, j: int| 0 <= i < j < k1.len() implies !key_lt(
        #[trigger] k1[j],
        #[trigger] k1[i],
    ) by {
        assert(!key_lt(keys[p[j]], keys[p[i]]));
    }
    lemma_sort_of_ordered_is_identity(k1, q);
    assert(permuted(permuted(input, p), q) =~= permuted(input, p));
}

/// Lexicographic comparison of two character vectors.
pub fn text_less(a: &Vec<char>, b: &Vec<char>) -> (r: bool)
    ensures
        r == lex_lt(a@, b@),
{
    let mut i: usize = 0;
    assert(a@.skip(0) =~= a@);
    assert(b@.skip(0) =~= b@);
    while i < a.len() && i < b.len() && a[i] == b[i]
        invariant
            i <= a.len(),
            i <= b.len(),
            lex_lt(a@, b@) == lex_lt(a@.skip(i as int), b@.skip(i as int)),
        decreases a.len() - i,
    {
        assert(a@.skip(i as int).drop_first() =~= a@.skip(i + 1));
        assert(b@.skip(i as int).drop_first() =~= b@.skip(i + 1));
        i = i + 1;
    }
    assert(a@.skip(0) =~= a@);
    if i == a.len() {
        i < b.len()
    } else if i == b.len() {
        false
    } else {
        a[i] < b[i]
    }
}

/// The strict order on keys.
pub fn key_less(a: &SortKey, b: &SortKey) -> (r: bool)
    ensures
        r == key_lt(a@, b@),
{
    match (a, b) {
        (SortKey::Number(x), SortKey::Number(y)) => *x < *y,
        (SortKey::Number(_), SortKey::Text(_)) => true,
        (SortKey::Text(_), SortKey::Number(_)) => false,
        (SortKey::Text(x), SortKey::Text(y)) => text_less(x, y),
    }
}

proof fn lemma_insert_step(kk: Seq<KeyView>, p: Seq<int>, i: int, j: int)
    requires
        0 <= j <= i < kk.len(),
        is_permutation(p, kk.len()),
        forall|m: int| i <= m < kk.len() ==> #[trigger] p[m] == m,
        forall|a: int| 0 <= a < i ==> #[trigger] p[a] < i,
        forall|a: int, b: int|
            0 <= a < b < i ==> !key_lt(#[trigger] kk[p[b]], #[trigger] kk[p[a]]),
        forall|a: int, b: int|
            0 <= a < b < i && #[trigger] kk[p[a]] == #[trigger] kk[p[b]] ==> p[a] < p[b],
        forall|m: int| 0 <= m < j ==> !key_lt(kk[i], #[trigger] kk[p[m]]),
        j < i ==> key_lt(kk[i], kk[p[j]]),
    ensures
        ({
            let q = p.remove(i).insert(j, i);
            &&& is_permutation(q, kk.len())
            &&& forall|m: int| i + 1 <= m < kk.len() ==> #[trigger] q[m] == m
            &&& forall|a: int| 0 <= a < i + 1 ==> #[trigger] q[a] < i + 1
            &&& forall|a: int, b: int|
                0 <= a < b < i + 1 ==> !key_lt(#[trigger] kk[q[b]], #[trigger] kk[q[a]])
            &&& forall|a: int, b: int|
                0 <= a < b < i + 1 && #[trigger] kk[q[a]] == #[trigger] kk[q[b]] ==> q[a] < q[b]
        }),
{
    let n = kk.len() as int;
    let q = p.remove(i).insert(j, i);
    assert(q.len() == n);
    // where each entry of q came from in p
    assert forall|a: int| 0 <= a < n implies #[trigger] q[a] == (if a < j {
        p[a]
    } else if a == j {
        i
    } else if a <= i {
        p[a - 1]
    } else {
        p[a]
    }) by {}
    assert(p[i] == i);
    assert forall|a: int, b: int| 0 <= a < b < n implies #[trigger] q[a] != #[trigger] q[b] by {
        if a < j && b > j && b <= i {
            assert(p[a] != p[b - 1]);
        } else if a < j && b > i {
            assert(p[a] != p[b]);
        } else if a == j && b > j && b <= i {
            assert(p[b - 1] < i);
        } else if a == j && b > i {
            assert(p[b] == b);
        } else if a > j && a <= i && b <= i {
            assert(p[a - 1] != p[b - 1]);
        } else if a > j && a <= i && b > i {
            assert(p[a - 1] != p[b]);
        } else if b == j {
            assert(p[a] < i);
        } else {
            assert(p[a] != p[b]);
        }
    }
    assert forall|a: int| 0 <= a < n implies 0 <= #[trigger] q[a] < n by {}
    assert forall|a: int, b: int|
        0 <= a < b < i + 1 implies !key_lt(#[trigger] kk[q[b]], #[trigger] kk[q[a]]) by {
        if a < j && b == j {
            assert(!key_lt(kk[i], kk[p[a]]));
        } else if a < j && b > j {
            assert(!key_lt(kk[p[b - 1]], kk[p[a]]));
        } else if a == j && b > j {
            // kk[i] < kk[p[j]] <= kk[p[b - 1]]
            if key_lt(kk[p[b - 1]], kk[i]) {
                if b - 1 == j {
                    lemma_key_transitive(kk[p[j]], kk[i], kk[p[j]]);
                    lemma_key_irreflexive(kk[p[j]]);
                } else {
                    assert(!key_lt(kk[p[b - 1]], kk[p[j]]));
                    lemma_key_transitive(kk[p[b - 1]], kk[i], kk[p[j]]);
                }
            }
        } else if a > j {
            assert(!key_lt(kk[p[b - 1]], kk[p[a - 1]]));
        } else {
            assert(!key_lt(kk[p[b]], kk[p[a]]));
        }
    }
    assert forall|a: int, b: int|
        0 <= a < b < i + 1 && #[trigger] kk[q[a]] == #[trigger] kk[q[b]] implies q[a] < q[b] by {
        if a < j && b == j {
            assert(p[a] < i);
        } else if a < j && b > j {
            assert(kk[p[a]] == kk[p[b - 1]]);
        } else if a == j && b > j {
            if b - 1 == j {
                lemma_key_irreflexive(kk[i]);
            } else {
                assert(!key_lt(kk[p[b - 1]], kk[p[j]]));
            }
        } else if a > j {
            assert(kk[p[a - 1]] == kk[p[b - 1]]);
        } else {
            assert(kk[p[a]] == kk[p[b]]);
        }
    }
}

/// Sorts `items` stably by `keys` (one key per item), moving each key along
/// with its item.
pub fn sort_by_keys<T>(items: &mut Vec<T>, keys: &mut Vec<SortKey>)
    requires
        old(keys).len() == old(items).len(),
    ensures
        exists|p: Seq<int>|
            {
                &&& sorts_stably(keys_view(old(keys)@), p)
                &&& final(items)@ == permuted(old(items)@, p)
                &&& keys_view(final(keys)@) == permuted(keys_view(old(keys)@), p)
            },
{
    let n = items.len();
    let ghost s0 = items@;
    let ghost kk = keys_view(keys@);
    let ghost mut p: Seq<int> = Seq::new(n as nat, |m: int| m);
    assert(items@ =~= permuted(s0, p));
    assert(keys_view(keys@) =~= permuted(kk, p));
    let mut i: usize = 0;
    while i < n
        invariant
            i <= n == items.len() == keys.len() == s0.len() == kk.len(),
            is_permutation(p, n as nat),
            items@ == permuted(s0, p),
            keys_view(keys@) == permuted(kk, p),
            forall|m: int| i <= m < n ==> #[trigger] p[m] == m,
            forall|a: int| 0 <= a < i ==> #[trigger] p[a] < i,
            forall|a: int, b: int|
                0 <= a < b < i ==> !key_lt(#[trigger] kk[p[b]], #[trigger] kk[p[a]]),
            forall|a: int, b: int|
                0 <= a < b < i && #[trigger] kk[p[a]] == #[trigger] kk[p[b]] ==> p[a] < p[b],
        decreases n - i,
    {
        let ghost before = keys@;
        let ghost before_items = items@;
        assert(p[i as int] == i);
        let x = items.remove(i);
        assert(x == s0[i as int]) by {
            assert(before_items[i as int] == s0[p[i as int]]);
        }
        let k = keys.remove(i);
        assert(k@ == kk[i as int]) by {
            assert(keys_view(before)[i as int] == before[i as int]@);
        }
        assert(keys_view(keys@) =~= permuted(kk, p).remove(i as int));
        let mut j: usize = 0;
        while j < i && !key_less(&k, &keys[j])
            invariant
                j <= i < n,
                keys.len() == n - 1,
                p.len() == n,
                kk.len() == n,
                keys_view(keys@) == permuted(kk, p).remove(i as int),
                k@ == kk[i as int],
                forall|m: int| 0 <= m < j ==> !key_lt(kk[i as int], #[trigger] kk[p[m]]),
            decreases i - j,
        {
            assert(keys_view(keys@)[j as int] == keys@[j as int]@);
            assert(permuted(kk, p).remove(i as int)[j as int] == kk[p[j as int]]);
            j = j + 1;
        }
        proof {
            if j < i {
                assert(keys_view(keys@)[j as int] == keys@[j as int]@);
                assert(permuted(kk, p).remove(i as int)[j as int] == kk[p[j as int]]);
            }
            lemma_insert_step(kk, p, i as int, j as int);
        }
        let ghost keys_mid = keys@;
        items.insert(j, x);
        keys.insert(j, k);
        assert(keys_view(keys@) =~= keys_view(keys_mid).insert(j as int, k@));
        proof {
            let q = p.remove(i as int).insert(j as int, i as int);
            assert(before_items.remove(i as int) =~= permuted(s0, p).remove(i as int));
            assert(items@ =~= permuted(s0, q));
            assert(keys_view(keys@) =~= permuted(kk, q));
            p = q;
        }
        i = i + 1;
    }
    assert(sorts_stably(kk, p));
}

} // verus!
