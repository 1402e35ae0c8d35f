//! Ascending listings: the elements of a sequence, each once, in strict order.

use vstd::prelude::*;

verus! {

/// A strict order: nothing precedes itself, and precedence is transitive.
pub open spec fn is_strict_order<T>(less: spec_fn(T, T) -> bool) -> bool {
    &&& forall|a: T| !(#[trigger] less(a, a))
    &&& forall|a: T, b: T, c: T| #[trigger] less(a, b) && #[trigger] less(b, c) ==> less(a, c)
}

/// A sequence in strictly ascending order.
pub open spec fn ascends<T>(s: Seq<T>, less: spec_fn(T, T) -> bool) -> bool {
    forall|i: int, j: int| 0 <= i < j < s.len() ==> less(#[trigger] s[i], #[trigger] s[j])
}

/// A sequence with the elements of another, each once, in ascending order.
pub open spec fn is_listing<T>(s: Seq<T>, of: Seq<T>, less: spec_fn(T, T) -> bool) -> bool {
    &&& ascends(s, less)
    &&& forall|x: T| #[trigger] s.contains(x) <==> of.contains(x)
}

/// Appending an element adds it to what a sequence holds.
pub proof fn lemma_push_contains<T>(s: Seq<T>, e: T)
    ensures
        forall|x: T| #[trigger] s.push(e).contains(x) <==> s.contains(x) || x == e,
{
    assert forall|x: T| #[trigger] s.push(e).contains(x) <==> s.contains(x) || x == e by {
        if s.contains(x) {
            let i = choose|i: int| 0 <= i < s.len() && s[i] == x;
            assert(s.push(e)[i] == x);
        }
        assert(s.push(e)[s.len() as int] == e);
    }
}

/// Inserting an element where it belongs keeps the order and adds just that element.
pub proof fn lemma_insert<T>(before: Seq<T>, k: int, e: T, less: spec_fn(T, T) -> bool)
    requires
        is_strict_order(less),
        ascends(before, less),
        0 <= k <= before.len(),
        forall|i: int| 0 <= i < k ==> less(#[trigger] before[i], e),
        k < before.len() ==> less(e, before[k]),
    ensures
        ascends(before.insert(k, e), less),
        forall|x: T| #[trigger] before.insert(k, e).contains(x) <==> before.contains(x) || x == e,
{
    let after = before.insert(k, e);
    assert forall|i: int| k <= i < before.len() implies less(e, #[trigger] before[i]) by {
        if i > k {
            assert(less(before[k], before[i]));
        }
    }
    assert forall|i: int, j: int| 0 <= i < j < after.len() implies less(
        #[trigger] after[i],
        #[trigger] after[j],
    ) by {
        let bi = if i < k {
            i
        } else {
            i - 1
        };
        let bj = if j < k {
            j
        } else {
            j - 1
        };
        if i != k && j != k {
            assert(after[i] == before[bi] && after[j] == before[bj]);
            assert(less(before[bi], before[bj]));
        } else if i == k {
            assert(after[j] == before[bj]);
        } else {
            assert(after[i] == before[bi]);
        }
    }
    assert forall|x: T| #[trigger] after.contains(x) <==> before.contains(x) || x == e by {
        if before.contains(x) {
            let i = choose|i: int| 0 <= i < before.len() && before[i] == x;
            let at = if i < k {
                i
            } else {
                i + 1
            };
            assert(after[at] == x);
        }
        if after.contains(x) && x != e {
            let i = choose|i: int| 0 <= i < after.len() && after[i] == x;
            let at = if i < k {
                i
            } else {
                i - 1
            };
            assert(before[at] == x);
        }
        assert(after[k] == e);
    }
}

/// Two ascending sequences with the same elements are equal.
pub proof fn lemma_ascending_equal<T>(a: Seq<T>, b: Seq<T>, less: spec_fn(T, T) -> bool)
    requires
        is_strict_order(less),
        ascends(a, less),
        ascends(b, less),
        forall|x: T| #[trigger] a.contains(x) <==> b.contains(x),
    ensures
        a == b,
    decreases a.len(),
{
    if a.len() == 0 {
        if b.len() > 0 {
            assert(b.contains(b[0]));
            assert(a.contains(b[0]));
        }
        assert(a =~= b);
    } else {
        assert(a.contains(a[0]));
        assert(b.contains(a[0]));
        let k = choose|k: int| 0 <= k < b.len() && b[k] == a[0];
        assert(b.contains(b[0]));
        assert(a.contains(b[0]));
        let j = choose|j: int| 0 <= j < a.len() && a[j] == b[0];
        if k > 0 {
            assert(less(b[0], b[k]));
            if j > 0 {
                assert(less(a[0], a[j]));
                assert(less(a[0], a[0]));
            } else {
                assert(less(a[0], a[0]));
            }
        }
        assert(a[0] == b[0]);
        let x = a.drop_first();
        let y = b.drop_first();
        assert forall|i: int, l: int| 0 <= i < l < x.len() implies less(
            #[trigger] x[i],
            #[trigger] x[l],
        ) by {
            assert(less(a[i + 1], a[l + 1]));
        }
        assert forall|i: int, l: int| 0 <= i < l < y.len() implies less(
            #[trigger] y[i],
            #[trigger] y[l],
        ) by {
            assert(less(b[i + 1], b[l + 1]));
        }
        assert forall|e: T| #[trigger] x.contains(e) <==> y.contains(e) by {
            if x.contains(e) {
                let i = choose|i: int| 0 <= i < x.len() && x[i] == e;
                assert(a[i + 1] == e);
                assert(a.contains(e));
                assert(b.contains(e));
                let l = choose|l: int| 0 <= l < b.len() && b[l] == e;
                assert(less(a[0], a[i + 1]));
                if l == 0 {
                    assert(less(e, e));
                }
                assert(y[l - 1] == e);
            }
            if y.contains(e) {
                let i = choose|i: int| 0 <= i < y.len() && y[i] == e;
                assert(b[i + 1] == e);
                assert(b.contains(e));
                assert(a.contains(e));
                let l = choose|l: int| 0 <= l < a.len() && a[l] == e;
                assert(less(b[0], b[i + 1]));
                if l == 0 {
                    assert(less(e, e));
                }
                assert(x[l - 1] == e);
            }
        }
        lemma_ascending_equal(x, y, less);
        assert(a =~= seq![a[0]] + x);
        assert(b =~= seq![b[0]] + y);
    }
}

/// The place of an element in an ascending sequence.
pub proof fn lemma_place<T>(s: Seq<T>, e: T, less: spec_fn(T, T) -> bool) -> (k: int)
    requires
        is_strict_order(less),
        ascends(s, less),
    ensures
        0 <= k <= s.len(),
        forall|i: int| 0 <= i < k ==> less(#[trigger] s[i], e),
        k < s.len() ==> !less(s[k], e),
    decreases s.len(),
{
    if s.len() > 0 && !less(s.last(), e) {
        let k = lemma_place(s.drop_last(), e, less);
        assert forall|i: int| 0 <= i < k implies less(#[trigger] s[i], e) by {
            assert(s.drop_last()[i] == s[i]);
        }
        k
    } else {
        assert forall|i: int| 0 <= i < s.len() implies less(#[trigger] s[i], e) by {
            if i < s.len() - 1 {
                assert(less(s[i], s[s.len() - 1]));
            }
        }
        s.len() as int
    }
}

/// Every sequence whose different elements are comparable has an ascending listing.
pub proof fn lemma_listing_exists<T>(of: Seq<T>, less: spec_fn(T, T) -> bool) -> (s: Seq<T>)
    requires
        is_strict_order(less),
        forall|a: T, b: T|
            #![trigger of.contains(a), of.contains(b)]
            of.contains(a) && of.contains(b) ==> a == b || less(a, b) || less(b, a),
    ensures
        is_listing(s, of, less),
    decreases of.len(),
{
    if of.len() == 0 {
        Seq::empty()
    } else {
        let rest = of.drop_last();
        let e = of.last();
        assert(of =~= rest.push(e));
        lemma_push_contains(rest, e);
        assert(rest.push(e).contains(e));
        assert forall|a: T, b: T|
            #![trigger rest.contains(a), rest.contains(b)]
            rest.contains(a) && rest.contains(b) implies a == b || less(a, b) || less(b, a) by {
            assert(of.contains(a) && of.contains(b));
        }
        let s = lemma_listing_exists(rest, less);
        let k = lemma_place(s, e, less);
        if k < s.len() && s[k] == e {
            assert(s.contains(e));
            s
        } else {
            if k < s.len() {
                assert(s.contains(s[k]));
                assert(of.contains(s[k]) && of.contains(e));
            }
            lemma_insert(s, k, e, less);
            s.insert(k, e)
        }
    }
}

} // verus!
