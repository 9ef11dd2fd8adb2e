//! Stable orders: the positions of a list in the order of their keys, equal
//! keys in the order in which they stand.

use vstd::prelude::*;

use crate::text;

verus! {

/// Whether position `a` comes before position `b`.
pub open spec fn before(keys: Seq<u64>, a: int, b: int) -> bool {
    keys[a] < keys[b] || (keys[a] == keys[b] && a < b)
}

/// Whether `p` lists all positions of `keys` in stable order.
pub open spec fn is_stable_order(keys: Seq<u64>, p: Seq<usize>) -> bool {
    &&& p.len() == keys.len()
    &&& forall|i: int| 0 <= i < p.len() ==> 0 <= #[trigger] p[i] < keys.len()
    &&& forall|i: int, j: int|
        0 <= i < j < p.len() ==> before(keys, #[trigger] p[i] as int, #[trigger] p[j] as int)
}

/// `list` read in the order of the positions in `p`.
pub open spec fn permuted<A>(list: Seq<A>, p: Seq<usize>) -> Seq<A> {
    Seq::new(p.len(), |i: int| list[p[i] as int])
}

/// The positions of `keys` in stable order.
pub fn stable_order(keys: &Vec<u64>) -> (p: Vec<usize>)
    ensures
        is_stable_order(keys@, p@),
{
    let mut p: Vec<usize> = Vec::new();
    let mut n: usize = 0;
    while n < keys.len()
        invariant
            n <= keys@.len(),
            is_stable_order(keys@.take(n as int), p@),
        decreases keys@.len() - n,
    {
        let ghost was = p@;
        let ghost small = keys@.take(n as int);
        let ghost large = keys@.take(n + 1);
        let mut at: usize = n;
        while at > 0 && keys[p[at - 1]] > keys[n]
            invariant
                at <= n < keys@.len(),
                p@ == was,
                small == keys@.take(n as int),
                is_stable_order(small, was),
                forall|k: int| at <= k < n ==> keys@[#[trigger] was[k] as int] > keys@[n as int],
            decreases at,
        {
            at = at - 1;
        }
        p.insert(at, n);
        proof {
            assert(p@ =~= was.insert(at as int, n));
            assert forall|i: int| 0 <= i < p@.len() implies 0 <= #[trigger] p@[i] < large.len() by {
                if i < at {
                    assert(p@[i] == was[i]);
                } else if i > at {
                    assert(p@[i] == was[i - 1]);
                }
            }
            assert forall|i: int, j: int| 0 <= i < j < p@.len() implies before(
                large,
                #[trigger] p@[i] as int,
                #[trigger] p@[j] as int,
            ) by {
                let a = if i < at {
                    i
                } else {
                    i - 1
                };
                let b = if j < at {
                    j
                } else {
                    j - 1
                };
                if i != at && j != at {
                    assert(p@[i] == was[a] && p@[j] == was[b]);
                    assert(before(small, was[a] as int, was[b] as int));
                    assert(small[was[a] as int] == large[was[a] as int]);
                    assert(small[was[b] as int] == large[was[b] as int]);
                } else if i == at {
                    assert(p@[i] == n && p@[j] == was[b]);
                    assert(keys@[was[b] as int] > keys@[n as int]);
                } else {
                    assert(p@[j] == n && p@[i] == was[a]);
                    if at > 0 {
                        let e = at - 1;
                        assert(keys@[was[e as int] as int] <= keys@[n as int]);
                        if a < e {
                            assert(before(small, was[a] as int, was[e as int] as int));
                        }
                    }
                }
            }
        }
        n = n + 1;
    }
    assert(keys@.take(n as int) =~= keys@);
    p
}

/// Every position occurs exactly once in a stable order.
pub proof fn law_stable_order_is_permutation(keys: Seq<u64>, p: Seq<usize>, k: int)
    requires
        is_stable_order(keys, p),
        0 <= k < keys.len(),
    ensures
        exists|i: int| 0 <= i < p.len() && p[i] == k,
        forall|i: int, j: int| 0 <= i < p.len() && 0 <= j < p.len() && p[i] == p[j] ==> i == j,
{
    assert forall|i: int, j: int|
        0 <= i < p.len() && 0 <= j < p.len() && p[i] == p[j] implies i == j by {
        if i < j {
            assert(before(keys, p[i] as int, p[j] as int));
        } else if j < i {
            assert(before(keys, p[j] as int, p[i] as int));
        }
    }
    lemma_covers(p, keys.len() as int, k);
}

/// A list of `n` different positions below `n` holds all of them.
proof fn lemma_covers(p: Seq<usize>, n: int, k: int)
    requires
        p.len() == n,
        forall|i: int| 0 <= i < p.len() ==> 0 <= #[trigger] p[i] < n,
        forall|i: int, j: int| 0 <= i < p.len() && 0 <= j < p.len() && p[i] == p[j] ==> i == j,
        0 <= k < n,
    ensures
        exists|i: int| 0 <= i < p.len() && p[i] == k,
{
    let q = p.map_values(|x: usize| x as int);
    assert(q.no_duplicates()) by {
        assert forall|i: int, j: int| 0 <= i < q.len() && 0 <= j < q.len() && i != j implies q[i]
            != q[j] by {
            assert(q[i] == p[i] && q[j] == p[j]);
        }
    }
    let full = vstd::set_lib::set_int_range(0, n);
    vstd::set_lib::lemma_int_range(0, n);
    q.unique_seq_to_set();
    assert(q.to_set().subset_of(full)) by {
        assert forall|x: int| q.to_set().contains(x) implies full.contains(x) by {
            let i = choose|i: int| 0 <= i < q.len() && q[i] == x;
            assert(q[i] == p[i]);
        }
    }
    vstd::set_lib::lemma_subset_equality(q.to_set(), full);
    assert(q.to_set().contains(k));
    let i = choose|i: int| 0 <= i < q.len() && q[i] == k;
    assert(p[i] == k);
}

/// Where the first `a` keys are less than all others, their positions come first.
pub proof fn lemma_split_order(keys: Seq<u64>, p: Seq<usize>, a: int, i: int)
    requires
        is_stable_order(keys, p),
        0 <= a <= keys.len(),
        forall|k: int, l: int| 0 <= k < a <= l < keys.len() ==> #[trigger] keys[k] < #[trigger] keys[l],
        0 <= i < p.len(),
    ensures
        p[i] < a <==> i < a,
{
    if p[i] >= a && i < a {
        let q = p.take(i).map_values(|x: usize| x as int);
        let full = vstd::set_lib::set_int_range(0, a);
        vstd::set_lib::lemma_int_range(0, a);
        assert forall|k: int| full.contains(k) implies q.to_set().contains(k) by {
            law_stable_order_is_permutation(keys, p, k);
            let j = choose|j: int| 0 <= j < p.len() && p[j] == k;
            if j > i {
                assert(before(keys, p[i] as int, p[j] as int));
            }
            assert(q[j] == k);
        }
        vstd::seq_lib::seq_to_set_is_finite(q);
        q.lemma_cardinality_of_set();
        vstd::set_lib::lemma_len_subset(full, q.to_set());
    } else if p[i] < a && i >= a {
        let q = p.take(i + 1).map_values(|x: usize| x as int);
        let full = vstd::set_lib::set_int_range(0, a);
        vstd::set_lib::lemma_int_range(0, a);
        law_stable_order_is_permutation(keys, p, p[i] as int);
        assert(q.no_duplicates()) by {
            assert forall|j: int, k: int| 0 <= j < q.len() && 0 <= k < q.len() && j != k implies q[j]
                != q[k] by {
                assert(q[j] == p[j] && q[k] == p[k]);
            }
        }
        q.unique_seq_to_set();
        assert forall|x: int| q.to_set().contains(x) implies full.contains(x) by {
            let j = choose|j: int| 0 <= j < q.len() && q[j] == x;
            assert(q[j] == p[j]);
            if j < i {
                assert(before(keys, p[j] as int, p[i] as int));
            }
        }
        vstd::set_lib::lemma_len_subset(q.to_set(), full);
    }
}

/// There is only one stable order.
pub proof fn law_stable_order_unique(keys: Seq<u64>, p: Seq<usize>, q: Seq<usize>)
    requires
        is_stable_order(keys, p),
        is_stable_order(keys, q),
    ensures
        p == q,
{
    lemma_order_prefix(keys, p, q, p.len() as int);
    assert(p =~= q);
}

proof fn lemma_order_prefix(keys: Seq<u64>, p: Seq<usize>, q: Seq<usize>, n: int)
    requires
        is_stable_order(keys, p),
        is_stable_order(keys, q),
        0 <= n <= p.len(),
    ensures
        forall|i: int| 0 <= i < n ==> p[i] == q[i],
    decreases n,
{
    if n > 0 {
        lemma_order_prefix(keys, p, q, n - 1);
        let m = n - 1;
        if p[m] != q[m] {
            law_stable_order_is_permutation(keys, q, p[m] as int);
            law_stable_order_is_permutation(keys, p, q[m] as int);
            let a = choose|i: int| 0 <= i < q.len() && q[i] == p[m];
            let b = choose|i: int| 0 <= i < p.len() && p[i] == q[m];
            if a < m {
                assert(p[a] == q[a]);
                assert(before(keys, p[a] as int, p[m] as int));
            } else if b < m {
                assert(p[b] == q[b]);
                assert(before(keys, q[b] as int, q[m] as int));
            } else {
                assert(before(keys, q[m] as int, q[a] as int));
                assert(before(keys, p[m] as int, p[b] as int));
            }
        }
    }
}

// ── Texts ─────────────────────────────────────────────────────────────────

/// Lexicographic order by code point, which is the order of the UTF-8 bytes.
pub open spec fn text_less(a: Seq<char>, b: Seq<char>) -> bool
    decreases a.len(),
{
    if b.len() == 0 {
        false
    } else if a.len() == 0 {
        true
    } else if a[0] != b[0] {
        a[0] < b[0]
    } else {
        text_less(a.skip(1), b.skip(1))
    }
}

/// Whether position `a` comes before position `b`, by text.
pub open spec fn text_before(keys: Seq<Seq<char>>, a: int, b: int) -> bool {
    text_less(keys[a], keys[b]) || (keys[a] == keys[b] && a < b)
}

/// Whether `p` lists all positions of `keys` in stable order of the texts.
pub open spec fn is_text_order(keys: Seq<Seq<char>>, p: Seq<usize>) -> bool {
    &&& p.len() == keys.len()
    &&& forall|i: int| 0 <= i < p.len() ==> 0 <= #[trigger] p[i] < keys.len()
    &&& forall|i: int, j: int|
        0 <= i < j < p.len() ==> text_before(
            keys,
            #[trigger] p[i] as int,
            #[trigger] p[j] as int,
        )
}

/// Of two different texts one is less than the other.
pub proof fn lemma_text_total(a: Seq<char>, b: Seq<char>)
    ensures
        text_less(a, b) || text_less(b, a) || a == b,
        !(text_less(a, b) && text_less(b, a)),
        !text_less(a, a),
    decreases a.len(),
{
    if a.len() == 0 || b.len() == 0 {
        if a.len() == 0 && b.len() == 0 {
            assert(a =~= b);
        }
        if a.len() > 0 {
            lemma_text_total(a.skip(1), a.skip(1));
        }
    } else {
        lemma_text_total(a.skip(1), b.skip(1));
        if a[0] == b[0] && a.skip(1) == b.skip(1) {
            assert(a =~= b) by {
                assert forall|i: int| 0 <= i < a.len() implies i < b.len() && a[i] == b[i] by {
                    if i > 0 {
                        assert(a.skip(1)[i - 1] == a[i]);
                        assert(b.skip(1)[i - 1] == b[i]);
                    }
                }
                assert(a.skip(1).len() == b.skip(1).len());
            }
        }
    }
}

/// The order of texts is transitive.
pub proof fn lemma_text_transitive(a: Seq<char>, b: Seq<char>, c: Seq<char>)
    requires
        text_less(a, b),
        text_less(b, c),
    ensures
        text_less(a, c),
    decreases a.len(),
{
    if a.len() > 0 && b.len() > 0 && c.len() > 0 && a[0] == b[0] && b[0] == c[0] {
        lemma_text_transitive(a.skip(1), b.skip(1), c.skip(1));
    }
}

/// Whether `a` comes before `b` in lexicographic order.
pub fn str_less(a: &str, b: &str) -> (r: bool)
    ensures
        r == text_less(a@, b@),
{
    let x = text::chars_of(a);
    let y = text::chars_of(b);
    let mut i: usize = 0;
    assert(x@.skip(0) =~= a@);
    assert(y@.skip(0) =~= b@);
    loop
        invariant
            i <= x@.len(),
            i <= y@.len(),
            text_less(a@, b@) == text_less(x@.skip(i as int), y@.skip(i as int)),
        decreases x@.len() - i,
    {
        if i == y.len() {
            return false;
        }
        if i == x.len() {
            return true;
        }
        assert(x@.skip(i as int)[0] == x@[i as int]);
        assert(y@.skip(i as int)[0] == y@[i as int]);
        if x[i] != y[i] {
            return x[i] < y[i];
        }
        assert(x@.skip(i as int).skip(1) =~= x@.skip(i + 1));
        assert(y@.skip(i as int).skip(1) =~= y@.skip(i + 1));
        i = i + 1;
    }
}

/// The positions of `keys` in stable order of the texts.
pub fn text_order(keys: &Vec<String>) -> (p: Vec<usize>)
    ensures
        is_text_order(text::texts(keys@), p@),
{
    let ghost all = text::texts(keys@);
    let mut p: Vec<usize> = Vec::new();
    let mut n: usize = 0;
    while n < keys.len()
        invariant
            n <= keys@.len(),
            all == text::texts(keys@),
            is_text_order(all.take(n as int), p@),
        decreases keys@.len() - n,
    {
        let ghost was = p@;
        let ghost small = all.take(n as int);
        let ghost large = all.take(n + 1);
        let mut at: usize = n;
        while at > 0 && str_less(keys[n].as_str(), keys[p[at - 1]].as_str())
            invariant
                at <= n < keys@.len(),
                p@ == was,
                all == text::texts(keys@),
                small == all.take(n as int),
                is_text_order(small, was),
                forall|k: int|
                    at <= k < n ==> text_less(all[n as int], all[#[trigger] was[k] as int]),
            decreases at,
        {
            at = at - 1;
        }
        p.insert(at, n);
        proof {
            assert(p@ =~= was.insert(at as int, n));
            assert forall|i: int| 0 <= i < p@.len() implies 0 <= #[trigger] p@[i] < large.len() by {
                if i < at {
                    assert(p@[i] == was[i]);
                } else if i > at {
                    assert(p@[i] == was[i - 1]);
                }
            }
            assert forall|i: int, j: int| 0 <= i < j < p@.len() implies text_before(
                large,
                #[trigger] p@[i] as int,
                #[trigger] p@[j] as int,
            ) by {
                let a = if i < at {
                    i
                } else {
                    i - 1
                };
                let b = if j < at {
                    j
                } else {
                    j - 1
                };
                if i != at && j != at {
                    assert(p@[i] == was[a] && p@[j] == was[b]);
                    assert(text_before(small, was[a] as int, was[b] as int));
                    assert(small[was[a] as int] == large[was[a] as int]);
                    assert(small[was[b] as int] == large[was[b] as int]);
                } else if i == at {
                    assert(p@[i] == n && p@[j] == was[b]);
                    assert(text_less(all[n as int], all[was[b] as int]));
                } else {
                    assert(p@[j] == n && p@[i] == was[a]);
                    if at > 0 {
                        let e = at - 1;
                        let last = all[was[e as int] as int];
                        assert(!text_less(all[n as int], last));
                        lemma_text_total(all[n as int], last);
                        if a < e {
                            assert(text_before(small, was[a] as int, was[e as int] as int));
                            if text_less(all[was[a] as int], last) && text_less(
                                last,
                                all[n as int],
                            ) {
                                lemma_text_transitive(
                                    all[was[a] as int],
                                    last,
                                    all[n as int],
                                );
                            }
                        }
                    }
                }
            }
        }
        n = n + 1;
    }
    assert(all.take(n as int) =~= all);
    p
}

/// Every position occurs exactly once in an order by text.
pub proof fn law_text_order_is_permutation(keys: Seq<Seq<char>>, p: Seq<usize>, k: int)
    requires
        is_text_order(keys, p),
        0 <= k < keys.len(),
    ensures
        exists|i: int| 0 <= i < p.len() && p[i] == k,
        forall|i: int, j: int| 0 <= i < p.len() && 0 <= j < p.len() && p[i] == p[j] ==> i == j,
{
    assert forall|i: int, j: int|
        0 <= i < p.len() && 0 <= j < p.len() && p[i] == p[j] implies i == j by {
        lemma_text_total(keys[p[i] as int], keys[p[j] as int]);
        if i < j {
            assert(text_before(keys, p[i] as int, p[j] as int));
        } else if j < i {
            assert(text_before(keys, p[j] as int, p[i] as int));
        }
    }
    lemma_covers(p, keys.len() as int, k);
}

/// What is read in stable order of its keys: as long as the list, every entry of it
/// in it, no key before a smaller one.
pub proof fn law_stable_order_sorts<A>(list: Seq<A>, keys: Seq<u64>, p: Seq<usize>)
    requires
        list.len() == keys.len(),
        is_stable_order(keys, p),
    ensures
        permuted(list, p).len() == list.len(),
        forall|k: int| 0 <= k < list.len() ==> permuted(list, p).contains(#[trigger] list[k]),
        forall|i: int, j: int|
            #![trigger p[i], p[j]]
            0 <= i < j < p.len() ==> keys[p[i] as int] < keys[p[j] as int] || (keys[p[i] as int]
                == keys[p[j] as int] && p[i] < p[j]),
{
    assert forall|k: int| 0 <= k < list.len() implies permuted(list, p).contains(
        #[trigger] list[k],
    ) by {
        law_stable_order_is_permutation(keys, p, k);
        let i = choose|i: int| 0 <= i < p.len() && p[i] == k;
        assert(permuted(list, p)[i] == list[k]);
    }
    assert forall|i: int, j: int| #![trigger p[i], p[j]] 0 <= i < j < p.len() implies keys[p[i] as int]
        < keys[p[j] as int] || (keys[p[i] as int] == keys[p[j] as int] && p[i] < p[j]) by {
        assert(before(keys, p[i] as int, p[j] as int));
    }
}

/// A text is less than another where it is the beginning of it, or has the smaller
/// character at the first place where they differ.
pub proof fn law_text_less_is_dictionary_order(a: Seq<char>, b: Seq<char>)
    ensures
        text_less(a, b) <==> exists|n: int|
            #![trigger a.take(n)]
            {
                &&& 0 <= n <= a.len() && n < b.len()
                &&& a.take(n) == b.take(n)
                &&& n < a.len() ==> a[n] < b[n]
            },
    decreases a.len(),
{
    if text_less(a, b) {
        if a.len() == 0 {
            assert(a.take(0) =~= b.take(0));
        } else if a[0] != b[0] {
            assert(a.take(0) =~= b.take(0));
        } else {
            let x = a.skip(1);
            let y = b.skip(1);
            law_text_less_is_dictionary_order(x, y);
            let n = choose|n: int|
                #![trigger x.take(n)]
                {
                    &&& 0 <= n <= x.len() && n < y.len()
                    &&& x.take(n) == y.take(n)
                    &&& n < x.len() ==> x[n] < y[n]
                };
            assert forall|k: int| 0 <= k < n + 1 implies a[k] == b[k] by {
                if k > 0 {
                    assert(x.take(n)[k - 1] == y.take(n)[k - 1]);
                }
            }
            assert(a.take(n + 1) =~= b.take(n + 1));
        }
    }
    if exists|n: int|
        #![trigger a.take(n)]
        {
            &&& 0 <= n <= a.len() && n < b.len()
            &&& a.take(n) == b.take(n)
            &&& n < a.len() ==> a[n] < b[n]
        } {
        let n = choose|n: int|
            #![trigger a.take(n)]
            {
                &&& 0 <= n <= a.len() && n < b.len()
                &&& a.take(n) == b.take(n)
                &&& n < a.len() ==> a[n] < b[n]
            };
        if n > 0 {
            assert(a.take(n)[0] == b.take(n)[0]);
            let x = a.skip(1);
            let y = b.skip(1);
            assert forall|k: int| 0 <= k < n - 1 implies x[k] == y[k] by {
                assert(a.take(n)[k + 1] == b.take(n)[k + 1]);
            }
            assert(x.take(n - 1) =~= y.take(n - 1));
            law_text_less_is_dictionary_order(x, y);
        }
    }
}

} // verus!
