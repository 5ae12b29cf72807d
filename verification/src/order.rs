use vstd::prelude::*;

use crate::text::chars_of;

verus! {

/// Strict lexicographic order of character sequences by code point: the order of
/// `String`, whose bytes are UTF-8 and so compare as the code points do.
pub open spec fn seq_less(a: Seq<char>, b: Seq<char>) -> bool
    decreases a.len(),
{
    if a.len() == 0 {
        b.len() > 0
    } else if b.len() == 0 {
        false
    } else if a[0] < b[0] {
        true
    } else if a[0] > b[0] {
        false
    } else {
        seq_less(a.drop_first(), b.drop_first())
    }
}

pub proof fn lemma_less_irreflexive(a: Seq<char>)
    ensures
        !seq_less(a, a),
    decreases a.len(),
{
    if a.len() > 0 {
        lemma_less_irreflexive(a.drop_first());
    }
}

pub proof fn lemma_less_transitive(a: Seq<char>, b: Seq<char>, c: Seq<char>)
    requires
        seq_less(a, b),
        seq_less(b, c),
    ensures
        seq_less(a, c),
    decreases a.len(),
{
    if a.len() > 0 && b.len() > 0 && c.len() > 0 {
        if a[0] == b[0] && b[0] == c[0] {
            lemma_less_transitive(a.drop_first(), b.drop_first(), c.drop_first());
        }
    }
}

pub proof fn lemma_less_total(a: Seq<char>, b: Seq<char>)
    ensures
        seq_less(a, b) || seq_less(b, a) || a == b,
    decreases a.len(),
{
    if a.len() > 0 && b.len() > 0 {
        lemma_less_total(a.drop_first(), b.drop_first());
        if a[0] == b[0] && a.drop_first() == b.drop_first() {
            assert(a =~= seq![a[0]] + a.drop_first());
            assert(b =~= seq![b[0]] + b.drop_first());
        }
    } else if a.len() == 0 && b.len() == 0 {
        assert(a =~= b);
    }
}

pub proof fn lemma_less_asymmetric(a: Seq<char>, b: Seq<char>)
    requires
        seq_less(a, b),
    ensures
        !seq_less(b, a),
        a != b,
{
    if seq_less(b, a) {
        lemma_less_transitive(a, b, a);
        lemma_less_irreflexive(a);
    }
    if a == b {
        lemma_less_irreflexive(a);
    }
}

/// Whether `a` sorts strictly before `b`.
pub fn less(a: &Vec<char>, b: &Vec<char>) -> (r: bool)
    ensures
        r == seq_less(a@, b@),
{
    let mut i: usize = 0;
    assert(a@.skip(0) =~= a@);
    assert(b@.skip(0) =~= b@);
    while i < a.len() && i < b.len()
        invariant
            i <= a.len(),
            i <= b.len(),
            seq_less(a@, b@) == seq_less(a@.skip(i as int), b@.skip(i as int)),
        decreases a.len() - i,
    {
        let x = a[i];
        let y = b[i];
        if x < y {
            return true;
        }
        if x > y {
            return false;
        }
        assert(a@.skip(i as int).drop_first() =~= a@.skip(i + 1));
        assert(b@.skip(i as int).drop_first() =~= b@.skip(i + 1));
        i += 1;
    }
    i == a.len() && i < b.len()
}

/// Every element strictly before the next: sorted, without repeats.
pub open spec fn strictly_sorted(s: Seq<Seq<char>>) -> bool {
    forall|i: int, j: int| 0 <= i < j < s.len() ==> seq_less(#[trigger] s[i], #[trigger] s[j])
}

/// Two strictly sorted sequences with the same elements are equal.
pub proof fn lemma_sorted_unique(a: Seq<Seq<char>>, b: Seq<Seq<char>>)
    requires
        strictly_sorted(a),
        strictly_sorted(b),
        a.to_set() == b.to_set(),
    ensures
        a == b,
    decreases a.len(),
{
    if a.len() == 0 {
        if b.len() > 0 {
            assert(b.to_set().contains(b[0]));
        }
        assert(a =~= b);
    } else if b.len() == 0 {
        assert(a.to_set().contains(a[0]));
    } else {
        // Both first elements are the least element of the common set.
        assert(b.to_set().contains(a[0]));
        assert(a.to_set().contains(b[0]));
        let i = choose|i: int| 0 <= i < b.len() && b[i] == a[0];
        let j = choose|j: int| 0 <= j < a.len() && a[j] == b[0];
        if a[0] != b[0] {
            assert(i > 0 && j > 0);
            assert(seq_less(b[0], b[i]));
            assert(seq_less(a[0], a[j]));
            lemma_less_asymmetric(a[0], b[0]);
        }
        let a1 = a.drop_first();
        let b1 = b.drop_first();
        assert forall|x: Seq<char>| a1.to_set().contains(x) <==> b1.to_set().contains(x) by {
            if a1.to_set().contains(x) {
                let k = choose|k: int| 0 <= k < a1.len() && a1[k] == x;
                assert(a[k + 1] == x);
                assert(seq_less(a[0], x));
                lemma_less_asymmetric(a[0], x);
                assert(b.to_set().contains(x));
                let m = choose|m: int| 0 <= m < b.len() && b[m] == x;
                assert(m != 0);
                assert(b1[m - 1] == x);
            }
            if b1.to_set().contains(x) {
                let k = choose|k: int| 0 <= k < b1.len() && b1[k] == x;
                assert(b[k + 1] == x);
                assert(seq_less(b[0], x));
                lemma_less_asymmetric(b[0], x);
                assert(a.to_set().contains(x));
                let m = choose|m: int| 0 <= m < a.len() && a[m] == x;
                assert(m != 0);
                assert(a1[m - 1] == x);
            }
        }
        assert(a1.to_set() =~= b1.to_set());
        lemma_sorted_unique(a1, b1);
        assert(a =~= seq![a[0]] + a1);
        assert(b =~= seq![b[0]] + b1);
    }
}

pub open spec fn views(v: Seq<String>) -> Seq<Seq<char>> {
    v.map_values(|s: String| s@)
}

/// Whether one of the strings of `v` equals `s`.
pub fn contains_str(v: &Vec<String>, s: &str) -> (r: bool)
    ensures
        r == views(v@).contains(s@),
{
    let mut i: usize = 0;
    while i < v.len()
        invariant
            i <= v.len(),
            forall|j: int| 0 <= j < i ==> v@[j]@ != s@,
        decreases v.len() - i,
    {
        if crate::text::str_eq(v[i].as_str(), s) {
            assert(views(v@)[i as int] == s@);
            return true;
        }
        i += 1;
    }
    assert forall|j: int| 0 <= j < views(v@).len() implies views(v@)[j] != s@ by {
        assert(views(v@)[j] == v@[j]@);
    }
    false
}

/// The strings of `items`, sorted and without repeats (a `BTreeSet` read in order).
pub fn to_set(items: Vec<String>) -> (r: Vec<String>)
    ensures
        strictly_sorted(views(r@)),
        views(r@).to_set() == views(items@).to_set(),
{
    let mut out: Vec<String> = Vec::new();
    let mut keys: Vec<Vec<char>> = Vec::new();
    let mut k: usize = 0;
    while k < items.len()
        invariant
            k <= items.len(),
            keys@.len() == out@.len(),
            forall|i: int| 0 <= i < keys@.len() ==> #[trigger] keys@[i]@ == out@[i]@,
            strictly_sorted(views(out@)),
            views(out@).to_set() == views(items@.take(k as int)).to_set(),
        decreases items.len() - k,
    {
        let x = chars_of(items[k].as_str());
        // find the first element not less than x
        let mut p: usize = 0;
        while p < keys.len() && less(&keys[p], &x)
            invariant
                p <= keys@.len(),
                keys@.len() == out@.len(),
                forall|i: int| 0 <= i < keys@.len() ==> #[trigger] keys@[i]@ == out@[i]@,
                forall|i: int| 0 <= i < p ==> seq_less(#[trigger] views(out@)[i], x@),
            decreases keys.len() - p,
        {
            p += 1;
        }
        let ghost vo = views(out@);
        let ghost xv = x@;
        assert(views(items@.take(k + 1)) =~= views(items@.take(k as int)).push(xv));
        proof { views(items@.take(k as int)).lemma_push_to_set_commute(xv); }
        let dup = p < keys.len() && !less(&x, &keys[p]);
        if dup {
            proof { lemma_less_total(vo[p as int], xv); }
            assert(vo[p as int] == xv);
            assert(vo.to_set() =~= vo.to_set().insert(xv));
        } else {
            // every element from p on is greater than x
            assert forall|i: int| p <= i < vo.len() implies seq_less(xv, #[trigger] vo[i]) by {
                if i == p {
                    lemma_less_total(vo[p as int], xv);
                } else {
                    lemma_less_total(vo[p as int], xv);
                    lemma_less_transitive(xv, vo[p as int], vo[i]);
                }
            }
            let ghost old_keys = keys@;
            let s = items[k].clone();
            out.insert(p, s);
            keys.insert(p, x);
            let ghost vn = views(out@);
            assert(vn =~= vo.insert(p as int, xv));
            assert forall|i: int| 0 <= i < keys@.len() implies #[trigger] keys@[i]@ == out@[i]@ by {
                if i < p {
                    assert(keys@[i] == old_keys[i]);
                } else if i > p {
                    assert(keys@[i] == old_keys[i - 1]);
                }
            }
            assert forall|i: int, j: int| 0 <= i < j < vn.len() implies seq_less(#[trigger] vn[i], #[trigger] vn[j]) by {
                if j < p {
                } else if j == p {
                    assert(vn[i] == vo[i]);
                } else if i < p {
                    assert(vn[i] == vo[i]);
                    assert(vn[j] == vo[j - 1]);
                    lemma_less_transitive(vo[i], xv, vo[j - 1]);
                } else if i == p {
                    assert(vn[j] == vo[j - 1]);
                } else {
                    assert(vn[i] == vo[i - 1]);
                    assert(vn[j] == vo[j - 1]);
                }
            }
            assert forall|y: Seq<char>| vn.to_set().contains(y) <==> vo.to_set().insert(xv).contains(y) by {
                if vn.to_set().contains(y) {
                    let m = choose|m: int| 0 <= m < vn.len() && vn[m] == y;
                    if m < p {
                        assert(vo[m] == y);
                    } else if m > p {
                        assert(vo[m - 1] == y);
                    }
                }
                if vo.to_set().contains(y) {
                    let m = choose|m: int| 0 <= m < vo.len() && vo[m] == y;
                    if m < p {
                        assert(vn[m] == y);
                    } else {
                        assert(vn[m + 1] == y);
                    }
                }
                if y == xv {
                    assert(vn[p as int] == y);
                }
            }
            assert(vn.to_set() =~= vo.to_set().insert(xv));
        }
        k += 1;
    }
    assert(items@.take(items.len() as int) =~= items@);
    out
}

/// Keys that are strings, compared by their characters.
pub open spec fn has_key(keys: Seq<String>, k: Seq<char>) -> bool {
    exists|i: int| 0 <= i < keys.len() && keys[i]@ == k
}

pub open spec fn key_index(keys: Seq<String>, k: Seq<char>) -> int {
    choose|i: int| 0 <= i < keys.len() && keys[i]@ == k
}

pub open spec fn distinct_keys(keys: Seq<String>) -> bool {
    forall|i: int, j: int| 0 <= i < j < keys.len() ==> (#[trigger] keys[i])@ != (#[trigger] keys[j])@
}

pub proof fn lemma_key_index(keys: Seq<String>, i: int)
    requires
        distinct_keys(keys),
        0 <= i < keys.len(),
    ensures
        has_key(keys, keys[i]@),
        key_index(keys, keys[i]@) == i,
{
    let k = keys[i]@;
    assert(has_key(keys, k));
    let j = key_index(keys, k);
    if j < i {
        assert(keys[j]@ != keys[i]@);
    } else if j > i {
        assert(keys[i]@ != keys[j]@);
    }
}

} // verus!
