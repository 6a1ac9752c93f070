//! Stable insertion sort, stated once as a specification.
//!
//! `sort_by(s, le)` inserts the elements of `s` one after another, each
//! after every element already placed that is `le` it. For a total order
//! this is the stable sort of `s`; the executable sorts in the library
//! perform exactly these insertions.

use vstd::prelude::*;

verus! {

/// Where `x` goes in `s`: after the leading elements that are `le` it.
pub open spec fn ins_pos<A>(s: Seq<A>, x: A, le: spec_fn(A, A) -> bool) -> nat
    decreases s.len(),
{
    if s.len() == 0 {
        0
    } else if !le(s[0], x) {
        0
    } else {
        1 + ins_pos(s.drop_first(), x, le)
    }
}

pub open spec fn insert_sorted<A>(s: Seq<A>, x: A, le: spec_fn(A, A) -> bool) -> Seq<A> {
    s.insert(ins_pos(s, x, le) as int, x)
}

pub open spec fn sort_by<A>(s: Seq<A>, le: spec_fn(A, A) -> bool) -> Seq<A>
    decreases s.len(),
{
    if s.len() == 0 {
        s
    } else {
        insert_sorted(sort_by(s.drop_last(), le), s.last(), le)
    }
}

/// `s` if it has at most `n` elements, else its first `n`.
pub open spec fn first_n<A>(s: Seq<A>, n: nat) -> Seq<A> {
    if s.len() <= n {
        s
    } else {
        s.take(n as int)
    }
}

pub open spec fn total_order<A>(le: spec_fn(A, A) -> bool) -> bool {
    &&& forall|a: A, b: A| #[trigger] le(a, b) || #[trigger] le(b, a)
    &&& forall|a: A, b: A, c: A| #[trigger] le(a, b) && #[trigger] le(b, c) ==> le(a, c)
}

pub open spec fn sorted_by<A>(s: Seq<A>, le: spec_fn(A, A) -> bool) -> bool {
    forall|i: int, j: int| 0 <= i < j < s.len() ==> le(#[trigger] s[i], #[trigger] s[j])
}

/// The scan that stops at the first element not `le` `x` finds `ins_pos`.
pub proof fn lemma_ins_pos_scan<A>(s: Seq<A>, x: A, le: spec_fn(A, A) -> bool, i: int)
    requires
        0 <= i <= s.len(),
        forall|j: int| 0 <= j < i ==> le(#[trigger] s[j], x),
        i == s.len() || !le(s[i], x),
    ensures
        ins_pos(s, x, le) == i,
    decreases i,
{
    if i > 0 {
        assert(le(s[0], x));
        let t = s.drop_first();
        assert forall|j: int| 0 <= j < i - 1 implies le(#[trigger] t[j], x) by {
            assert(t[j] == s[j + 1]);
        }
        if i < s.len() {
            assert(t[i - 1] == s[i]);
        }
        lemma_ins_pos_scan(t, x, le, i - 1);
    }
}

pub proof fn lemma_ins_pos_bound<A>(s: Seq<A>, x: A, le: spec_fn(A, A) -> bool)
    ensures
        ins_pos(s, x, le) <= s.len(),
    decreases s.len(),
{
    if s.len() > 0 && le(s[0], x) {
        lemma_ins_pos_bound(s.drop_first(), x, le);
    }
}

pub proof fn lemma_ins_pos_prefix<A>(s: Seq<A>, x: A, le: spec_fn(A, A) -> bool)
    ensures
        ins_pos(s, x, le) <= s.len(),
        forall|j: int| 0 <= j < ins_pos(s, x, le) ==> le(#[trigger] s[j], x),
        ins_pos(s, x, le) < s.len() ==> !le(s[ins_pos(s, x, le) as int], x),
    decreases s.len(),
{
    lemma_ins_pos_bound(s, x, le);
    if s.len() > 0 && le(s[0], x) {
        let t = s.drop_first();
        lemma_ins_pos_prefix(t, x, le);
        assert forall|j: int| 0 <= j < ins_pos(s, x, le) implies le(#[trigger] s[j], x) by {
            if j > 0 {
                assert(s[j] == t[j - 1]);
            }
        }
    }
}

pub proof fn lemma_sort_len<A>(s: Seq<A>, le: spec_fn(A, A) -> bool)
    ensures
        sort_by(s, le).len() == s.len(),
    decreases s.len(),
{
    if s.len() > 0 {
        lemma_sort_len(s.drop_last(), le);
        lemma_ins_pos_bound(sort_by(s.drop_last(), le), s.last(), le);
    }
}

/// Inserting into a sorted sequence keeps it sorted.
pub proof fn lemma_insert_sorted<A>(s: Seq<A>, x: A, le: spec_fn(A, A) -> bool)
    requires
        total_order(le),
        sorted_by(s, le),
    ensures
        sorted_by(insert_sorted(s, x, le), le),
        insert_sorted(s, x, le).len() == s.len() + 1,
{
    lemma_ins_pos_prefix(s, x, le);
    let p = ins_pos(s, x, le) as int;
    let r = insert_sorted(s, x, le);
    assert forall|i: int, j: int| 0 <= i < j < r.len() implies le(#[trigger] r[i], #[trigger] r[j]) by {
        if j < p {
            assert(r[i] == s[i] && r[j] == s[j]);
        } else if j == p {
            assert(r[i] == s[i]);
        } else if i < p {
            assert(r[i] == s[i] && r[j] == s[j - 1]);
            assert(le(s[i], s[j - 1]));
        } else if i == p {
            assert(r[j] == s[j - 1]);
            assert(!le(s[p], x));
            assert(le(x, s[p]));
            if j - 1 > p {
                assert(le(s[p], s[j - 1]));
            }
        } else {
            assert(r[i] == s[i - 1] && r[j] == s[j - 1]);
        }
    }
}

pub proof fn lemma_sort_sorted<A>(s: Seq<A>, le: spec_fn(A, A) -> bool)
    requires
        total_order(le),
    ensures
        sorted_by(sort_by(s, le), le),
        sort_by(s, le).len() == s.len(),
    decreases s.len(),
{
    lemma_sort_len(s, le);
    if s.len() > 0 {
        lemma_sort_sorted(s.drop_last(), le);
        lemma_insert_sorted(sort_by(s.drop_last(), le), s.last(), le);
    }
}

/// Every element of the sorted sequence comes from the input, and back.
pub proof fn lemma_sort_contains<A>(s: Seq<A>, le: spec_fn(A, A) -> bool)
    ensures
        forall|x: A| sort_by(s, le).contains(x) <==> s.contains(x),
        sort_by(s, le).to_multiset() == s.to_multiset(),
    decreases s.len(),
{
    broadcast use vstd::seq_lib::group_seq_properties;
    if s.len() > 0 {
        let t = sort_by(s.drop_last(), le);
        lemma_sort_contains(s.drop_last(), le);
        lemma_ins_pos_bound(t, s.last(), le);
        let p = ins_pos(t, s.last(), le) as int;
        t.insert_ensures(p, s.last());
        assert(s =~= s.drop_last().push(s.last()));
        assert forall|x: A| sort_by(s, le).contains(x) <==> s.contains(x) by {
            if sort_by(s, le).contains(x) {
                let k = choose|k: int| 0 <= k < sort_by(s, le).len() && sort_by(s, le)[k] == x;
                if k != p {
                    let kk = if k < p { k } else { k - 1 };
                    assert(t[kk] == x);
                    assert(s.drop_last().contains(x));
                    let m = choose|m: int| 0 <= m < s.drop_last().len() && s.drop_last()[m] == x;
                    assert(s[m] == x);
                } else {
                    assert(s[s.len() - 1] == x);
                }
            }
            if s.contains(x) {
                let m = choose|m: int| 0 <= m < s.len() && s[m] == x;
                if m < s.len() - 1 {
                    assert(s.drop_last()[m] == x);
                    assert(s.drop_last().contains(x));
                    assert(t.contains(x));
                    let k = choose|k: int| 0 <= k < t.len() && t[k] == x;
                    if k < p {
                        assert(sort_by(s, le)[k] == x);
                    } else {
                        assert(sort_by(s, le)[k + 1] == x);
                    }
                } else {
                    assert(sort_by(s, le)[p] == x);
                }
            }
        }
    }
}

/// Sorting keeps the keys of the elements distinct.
pub proof fn lemma_sort_distinct_keys<A, K>(s: Seq<A>, le: spec_fn(A, A) -> bool, key: spec_fn(A) -> K)
    requires
        forall|i: int, j: int| 0 <= i < j < s.len() ==> key(#[trigger] s[i]) != key(#[trigger] s[j]),
    ensures
        forall|i: int, j: int|
            0 <= i < j < sort_by(s, le).len() ==> key(#[trigger] sort_by(s, le)[i]) != key(
                #[trigger] sort_by(s, le)[j],
            ),
    decreases s.len(),
{
    if s.len() > 0 {
        let d = s.drop_last();
        let x = s.last();
        assert forall|i: int, j: int| 0 <= i < j < d.len() implies key(#[trigger] d[i]) != key(#[trigger] d[j]) by {
            assert(d[i] == s[i] && d[j] == s[j]);
        }
        lemma_sort_distinct_keys(d, le, key);
        lemma_sort_contains(d, le);
        lemma_ins_pos_bound(sort_by(d, le), x, le);
        let t = sort_by(d, le);
        let p = ins_pos(t, x, le) as int;
        let r = sort_by(s, le);
        assert(r == t.insert(p, x));
        assert forall|k: int| 0 <= k < t.len() implies key(#[trigger] t[k]) != key(x) by {
            assert(t.contains(t[k]));
            assert(d.contains(t[k]));
            let m = choose|m: int| 0 <= m < d.len() && d[m] == t[k];
            assert(s[m] == t[k]);
            assert(key(s[m]) != key(s[s.len() - 1]));
        }
        assert forall|i: int, j: int| 0 <= i < j < r.len() implies key(#[trigger] r[i]) != key(#[trigger] r[j]) by {
            if j < p {
                assert(r[i] == t[i] && r[j] == t[j]);
            } else if j == p {
                assert(r[i] == t[i]);
            } else if i < p {
                assert(r[i] == t[i] && r[j] == t[j - 1]);
            } else if i == p {
                assert(r[j] == t[j - 1]);
            } else {
                assert(r[i] == t[i - 1] && r[j] == t[j - 1]);
            }
        }
    }
}

} // verus!
