//! Similarity measures between incidents.
//!
//! Two measures, both in basis points (`10000` is identity):
//!
//!   * the Jaccard index of two sets of names: shared / distinct-in-either;
//!   * the longest-common-subsequence ratio of two ordered service chains:
//!     LCS length over the longer chain's length.

use vstd::prelude::*;
use crate::text::str_eq;

verus! {

broadcast use vstd::seq_lib::group_seq_properties;

/// The character views of a list of strings.
pub open spec fn names(v: Seq<String>) -> Seq<Seq<char>> {
    v.map_values(|s: String| s@)
}

/// Jaccard index of two finite sets, in basis points, rounded down; `0`
/// when both are empty.
pub open spec fn spec_jaccard(a: Set<Seq<char>>, b: Set<Seq<char>>) -> u32 {
    if (a + b).len() == 0 {
        0
    } else {
        ((a.intersect(b).len() * 10000) / (a + b).len()) as u32
    }
}

/// Length of a longest common subsequence.
pub open spec fn lcs(a: Seq<Seq<char>>, b: Seq<Seq<char>>) -> nat
    decreases a.len() + b.len(),
{
    if a.len() == 0 || b.len() == 0 {
        0
    } else if a.last() == b.last() {
        1 + lcs(a.drop_last(), b.drop_last())
    } else {
        let x = lcs(a.drop_last(), b);
        let y = lcs(a, b.drop_last());
        if x >= y {
            x
        } else {
            y
        }
    }
}

/// LCS length over the longer length, in basis points, rounded down; `0`
/// when either chain is empty.
pub open spec fn spec_lcs_ratio(a: Seq<Seq<char>>, b: Seq<Seq<char>>) -> u32 {
    if a.len() == 0 || b.len() == 0 {
        0
    } else {
        ((lcs(a, b) * 10000) / (if a.len() >= b.len() {
            a.len()
        } else {
            b.len()
        })) as u32
    }
}

pub proof fn lemma_lcs_bound(a: Seq<Seq<char>>, b: Seq<Seq<char>>)
    ensures
        lcs(a, b) <= a.len(),
        lcs(a, b) <= b.len(),
    decreases a.len() + b.len(),
{
    if a.len() > 0 && b.len() > 0 {
        lemma_lcs_bound(a.drop_last(), b.drop_last());
        lemma_lcs_bound(a.drop_last(), b);
        lemma_lcs_bound(a, b.drop_last());
    }
}

pub proof fn lemma_jaccard_bound(a: Set<Seq<char>>, b: Set<Seq<char>>)
    requires
        a.finite(),
        b.finite(),
    ensures
        spec_jaccard(a, b) <= 10000,
{
    broadcast use vstd::set_lib::group_set_lib_default;
    vstd::set_lib::lemma_len_subset(a.intersect(b), a + b);
    if (a + b).len() > 0 {
        assert(a.intersect(b).len() * 10000 <= (a + b).len() * 10000) by (nonlinear_arith)
            requires
                a.intersect(b).len() <= (a + b).len(),
        ;
        assert((a.intersect(b).len() * 10000) / (a + b).len() <= 10000) by (nonlinear_arith)
            requires
                a.intersect(b).len() * 10000 <= (a + b).len() * 10000,
                (a + b).len() > 0,
        ;
    }
}

pub proof fn lemma_lcs_ratio_bound(a: Seq<Seq<char>>, b: Seq<Seq<char>>)
    ensures
        spec_lcs_ratio(a, b) <= 10000,
{
    lemma_lcs_bound(a, b);
    if a.len() > 0 && b.len() > 0 {
        let m = if a.len() >= b.len() {
            a.len()
        } else {
            b.len()
        };
        assert(lcs(a, b) <= m);
        assert((lcs(a, b) * 10000) / m <= 10000) by (nonlinear_arith)
            requires
                lcs(a, b) <= m,
                m > 0,
        ;
    }
}

/// Whether `s` occurs in `v`, by characters.
pub fn contains_name(v: &Vec<String>, s: &String) -> (b: bool)
    ensures
        b == names(v@).contains(s@),
{
    let mut i: usize = 0;
    while i < v.len()
        invariant
            0 <= i <= v@.len(),
            forall|k: int| 0 <= k < i ==> names(v@)[k] != s@,
        decreases v.len() - i,
    {
        if str_eq(v[i].as_str(), s.as_str()) {
            assert(names(v@)[i as int] == s@);
            return true;
        }
        i += 1;
    }
    false
}

/// The distinct names of `v`, each once, in order of first occurrence.
pub fn distinct(v: &Vec<String>) -> (d: Vec<String>)
    ensures
        names(d@).no_duplicates(),
        names(d@).to_set() == names(v@).to_set(),
{
    let mut d: Vec<String> = Vec::new();
    let mut i: usize = 0;
    while i < v.len()
        invariant
            0 <= i <= v@.len(),
            names(d@).no_duplicates(),
            names(d@).to_set() == names(v@.take(i as int)).to_set(),
        decreases v.len() - i,
    {
        let ghost before = names(d@);
        proof {
            assert(names(v@.take(i + 1)) =~= names(v@.take(i as int)).push(v@[i as int]@));
        }
        if !contains_name(&d, &v[i]) {
            d.push(v[i].clone());
            proof {
                assert(names(d@) =~= before.push(v@[i as int]@));
                assert(names(d@).to_set() =~= before.to_set().insert(v@[i as int]@));
            }
        } else {
            proof {
                assert(before.to_set() =~= before.to_set().insert(v@[i as int]@));
            }
        }
        i += 1;
    }
    proof {
        assert(v@.take(v@.len() as int) =~= v@);
    }
    d
}

/// Jaccard index of the name sets of `a` and `b`, in basis points.
pub fn jaccard(a: &Vec<String>, b: &Vec<String>) -> (j: u32)
    ensures
        j == spec_jaccard(names(a@).to_set(), names(b@).to_set()),
        j <= 10000,
{
    broadcast use vstd::set_lib::group_set_lib_default;
    let da = distinct(a);
    let db = distinct(b);
    let ghost sa = names(a@).to_set();
    let ghost sb = names(b@).to_set();
    let ghost na = names(da@);
    let mut inter: usize = 0;
    let ghost mut common: Seq<Seq<char>> = Seq::empty();
    let mut k: usize = 0;
    while k < da.len()
        invariant
            0 <= k <= da@.len(),
            na == names(da@),
            na.no_duplicates(),
            names(db@).to_set() == sb,
            common.no_duplicates(),
            common.to_set() == na.take(k as int).to_set().intersect(sb),
            inter == common.len(),
            inter <= k,
        decreases da.len() - k,
    {
        let ghost x = na[k as int];
        proof {
            assert(na.take(k + 1) =~= na.take(k as int).push(x));
            assert(!na.take(k as int).contains(x)) by {
                if na.take(k as int).contains(x) {
                    let j = choose|j: int| 0 <= j < k && na.take(k as int)[j] == x;
                    assert(na[j] == na[k as int]);
                }
            }
        }
        if contains_name(&db, &da[k]) {
            proof {
                assert(!common.contains(x)) by {
                    if common.contains(x) {
                        assert(common.to_set().contains(x));
                    }
                }
                assert(names(db@).contains(x));
                assert(sb.contains(x));
                let old_common = common;
                common = common.push(x);
                assert(common.to_set() =~= old_common.to_set().insert(x)) by {
                    assert forall|y: Seq<char>| common.to_set().contains(y) <==> old_common.to_set().insert(x).contains(y) by {
                        if common.contains(y) {
                            let j = choose|j: int| 0 <= j < common.len() && common[j] == y;
                            if j < old_common.len() {
                                assert(old_common[j] == y);
                            }
                        }
                        if old_common.contains(y) {
                            let j = choose|j: int| 0 <= j < old_common.len() && old_common[j] == y;
                            assert(common[j] == y);
                        }
                        if y == x {
                            assert(common[common.len() - 1] == x);
                        }
                    }
                }
                assert(na.take(k + 1).to_set() =~= na.take(k as int).to_set().insert(x));
                assert(common.to_set() =~= na.take(k + 1).to_set().intersect(sb));
            }
            inter += 1;
        } else {
            proof {
                assert(!names(db@).contains(x));
                assert(!sb.contains(x));
                assert(na.take(k + 1).to_set() =~= na.take(k as int).to_set().insert(x));
                assert(common.to_set() =~= na.take(k + 1).to_set().intersect(sb));
            }
        }
        k += 1;
    }
    proof {
        assert(na.take(na.len() as int) =~= na);
        common.unique_seq_to_set();
        na.unique_seq_to_set();
        names(db@).unique_seq_to_set();
        vstd::set_lib::lemma_set_intersect_union_lens(sa, sb);
        lemma_jaccard_bound(sa, sb);
    }
    let union: u128 = (da.len() as u128) + (db.len() as u128) - (inter as u128);
    if union == 0 {
        0
    } else {
        (((inter as u128) * 10000) / union) as u32
    }
}

/// Ratio of the longest common subsequence of two ordered chains to the
/// longer chain, in basis points.
pub fn order_lcs_ratio(a: &Vec<String>, b: &Vec<String>) -> (r: u32)
    ensures
        r == spec_lcs_ratio(names(a@), names(b@)),
        r <= 10000,
{
    let n = a.len();
    let m = b.len();
    proof {
        lemma_lcs_ratio_bound(names(a@), names(b@));
    }
    if n == 0 || m == 0 {
        return 0;
    }
    let ghost na = names(a@);
    let ghost nb = names(b@);
    let mut prev: Vec<usize> = Vec::new();
    prev.push(0);
    let mut j: usize = 0;
    while j < m
        invariant
            0 <= j <= m,
            m == nb.len(),
            prev@.len() == j + 1,
            forall|q: int| 0 <= q <= j ==> #[trigger] prev@[q] == lcs(na.take(0), nb.take(q)),
        decreases m - j,
    {
        prev.push(0);
        j += 1;
    }
    let mut i: usize = 0;
    while i < n
        invariant
            0 <= i <= n,
            n == na.len(),
            m == nb.len(),
            na == names(a@),
            nb == names(b@),
            prev@.len() == m + 1,
            forall|q: int| 0 <= q <= m ==> #[trigger] prev@[q] == lcs(na.take(i as int), nb.take(q)),
        decreases n - i,
    {
        let mut cur: Vec<usize> = Vec::new();
        cur.push(0);
        let mut j: usize = 0;
        while j < m
            invariant
                0 <= i < n,
                0 <= j <= m,
                n == na.len(),
                m == nb.len(),
                na == names(a@),
                nb == names(b@),
                prev@.len() == m + 1,
                forall|q: int| 0 <= q <= m ==> #[trigger] prev@[q] == lcs(na.take(i as int), nb.take(q)),
                cur@.len() == j + 1,
                forall|q: int| 0 <= q <= j ==> #[trigger] cur@[q] == lcs(na.take(i + 1), nb.take(q)),
            decreases m - j,
        {
            let ghost ai = na.take(i + 1);
            let ghost bj = nb.take(j + 1);
            proof {
                assert(ai.drop_last() =~= na.take(i as int));
                assert(bj.drop_last() =~= nb.take(j as int));
                assert(ai.last() == na[i as int]);
                assert(bj.last() == nb[j as int]);
                lemma_lcs_bound(ai, bj);
                lemma_lcs_bound(na.take(i as int), nb.take(j as int));
            }
            let v = if str_eq(a[i].as_str(), b[j].as_str()) {
                prev[j] + 1
            } else if prev[j + 1] >= cur[j] {
                prev[j + 1]
            } else {
                cur[j]
            };
            cur.push(v);
            j += 1;
        }
        prev = cur;
        i += 1;
    }
    proof {
        assert(na.take(n as int) =~= na);
        assert(nb.take(m as int) =~= nb);
        lemma_lcs_bound(na, nb);
    }
    let l = prev[m];
    let longer = if n >= m {
        n
    } else {
        m
    };
    (((l as u128) * 10000) / (longer as u128)) as u32
}

} // verus!
