//! A small table from names to strings: one row per name, in order of
//! first insertion. The service catalogue, the source-to-service pins and
//! the last service seen per source are such tables.

use vstd::prelude::*;
use crate::text::str_eq;

verus! {

/// A table as its `(name, value)` rows, by their characters.
pub type TableView = Seq<(Seq<char>, Seq<char>)>;

/// Index of the row for `name`, or `-1`.
pub open spec fn name_index(v: TableView, name: Seq<char>) -> int
    decreases v.len(),
{
    if v.len() == 0 {
        -1
    } else if v.last().0 == name {
        v.len() - 1
    } else {
        name_index(v.drop_last(), name)
    }
}

pub open spec fn distinct_names(v: TableView) -> bool {
    forall|i: int, j: int| 0 <= i < j < v.len() ==> #[trigger] v[i].0 != #[trigger] v[j].0
}

/// The value stored for `name`, if any.
pub open spec fn spec_get(v: TableView, name: Seq<char>) -> Option<Seq<char>> {
    let i = name_index(v, name);
    if i >= 0 {
        Some(v[i].1)
    } else {
        None
    }
}

/// The table with `name` set to `value`: its row is replaced, or a row is
/// appended.
pub open spec fn spec_set(v: TableView, name: Seq<char>, value: Seq<char>) -> TableView {
    let i = name_index(v, name);
    if i >= 0 {
        v.update(i, (name, value))
    } else {
        v.push((name, value))
    }
}

/// The table built from `pairs` in order: a later pair for the same name
/// wins.
pub open spec fn spec_table(pairs: TableView) -> TableView
    decreases pairs.len(),
{
    if pairs.len() == 0 {
        Seq::empty()
    } else {
        spec_set(spec_table(pairs.drop_last()), pairs.last().0, pairs.last().1)
    }
}

pub proof fn lemma_name_index(v: TableView, name: Seq<char>)
    ensures
        -1 <= name_index(v, name) < v.len(),
        name_index(v, name) >= 0 ==> v[name_index(v, name)].0 == name,
        name_index(v, name) == -1 ==> forall|i: int| 0 <= i < v.len() ==> #[trigger] v[i].0 != name,
    decreases v.len(),
{
    if v.len() > 0 {
        lemma_name_index(v.drop_last(), name);
        if name_index(v, name) == -1 {
            assert forall|i: int| 0 <= i < v.len() implies #[trigger] v[i].0 != name by {
                if i < v.len() - 1 {
                    assert(v[i] == v.drop_last()[i]);
                }
            }
        }
    }
}

/// In a table with distinct names, the row holding `name` is the one found.
pub proof fn lemma_name_index_unique(v: TableView, name: Seq<char>, p: int)
    requires
        distinct_names(v),
        0 <= p < v.len(),
        v[p].0 == name,
    ensures
        name_index(v, name) == p,
{
    lemma_name_index(v, name);
    let i = name_index(v, name);
    if i != p {
        if i < p {
            assert(v[i].0 != v[p].0);
        } else {
            assert(v[p].0 != v[i].0);
        }
    }
}

/// Setting a name keeps the names distinct, and reading it back gives the
/// value set; other names read as before.
pub proof fn lemma_set_get(v: TableView, name: Seq<char>, value: Seq<char>, other: Seq<char>)
    requires
        distinct_names(v),
    ensures
        distinct_names(spec_set(v, name, value)),
        spec_get(spec_set(v, name, value), name) == Some(value),
        other != name ==> spec_get(spec_set(v, name, value), other) == spec_get(v, other),
{
    let w = spec_set(v, name, value);
    lemma_name_index(v, name);
    lemma_name_index(v, other);
    let i = name_index(v, name);
    assert forall|a: int, b: int| 0 <= a < b < w.len() implies #[trigger] w[a].0 != #[trigger] w[b].0 by {
        if i >= 0 {
            if a != i && b != i {
                assert(w[a] == v[a] && w[b] == v[b]);
            } else if a == i {
                assert(w[b] == v[b]);
            } else {
                assert(w[a] == v[a]);
            }
        } else {
            assert(w[a] == v[a]);
            if b < v.len() {
                assert(w[b] == v[b]);
            }
        }
    }
    let pos = if i >= 0 {
        i
    } else {
        v.len() as int
    };
    assert(w[pos] == (name, value));
    lemma_name_index_unique(w, name, pos);
    if other != name {
        let k = name_index(v, other);
        lemma_name_index(w, other);
        if k >= 0 {
            assert(w[k] == v[k]);
            lemma_name_index_unique(w, other, k);
        } else {
            let kw = name_index(w, other);
            if kw >= 0 {
                if kw < v.len() && kw != i {
                    assert(w[kw] == v[kw]);
                }
            }
        }
    }
}

/// A table of strings keyed by name.
///
/// It stands where a `HashMap<String, String>` would: maps keyed by
/// strings do not prove here, so the rows are a vector with one row per
/// name (the `wf` invariant), in order of first insertion.
pub struct NameTable {
    rows: Vec<(String, String)>,
}

impl View for NameTable {
    type V = TableView;

    closed spec fn view(&self) -> TableView {
        self.rows@.map_values(|e: (String, String)| (e.0@, e.1@))
    }
}

impl NameTable {
    /// Each name has one row.
    pub closed spec fn wf(&self) -> bool {
        distinct_names(self@)
    }

    /// A well-formed table has one row per name.
    pub proof fn lemma_wf_names(&self)
        requires
            self.wf(),
        ensures
            distinct_names(self@),
    {
    }

    /// An empty table.
    pub fn new() -> (t: Self)
        ensures
            t.wf(),
            t@ == Seq::<(Seq<char>, Seq<char>)>::empty(),
    {
        let t = NameTable { rows: Vec::new() };
        assert(t@ =~= Seq::<(Seq<char>, Seq<char>)>::empty());
        t
    }

    fn index_of(&self, name: &str) -> (r: Option<usize>)
        ensures
            (match r {
                Some(i) => i == name_index(self@, name@) && i < self@.len(),
                None => name_index(self@, name@) == -1,
            }),
    {
        let mut k = self.rows.len();
        proof {
            assert(self@.take(k as int) =~= self@);
        }
        while k > 0
            invariant
                k <= self.rows@.len(),
                name_index(self@, name@) == name_index(self@.take(k as int), name@),
            decreases k,
        {
            let ghost t = self@.take(k as int);
            assert(t.drop_last() =~= self@.take(k - 1));
            if str_eq(self.rows[k - 1].0.as_str(), name) {
                return Some(k - 1);
            }
            k -= 1;
        }
        None
    }

    /// Set `name` to `value`.
    pub fn set(&mut self, name: String, value: String)
        requires
            old(self).wf(),
        ensures
            final(self).wf(),
            final(self)@ == spec_set(old(self)@, name@, value@),
    {
        let ghost v = self@;
        proof {
            lemma_name_index(v, name@);
            lemma_set_get(v, name@, value@, name@);
        }
        let ghost nv = name@;
        let ghost vv = value@;
        match self.index_of(name.as_str()) {
            Some(i) => {
                self.rows.set(i, (name, value));
                assert(self@ =~= spec_set(v, nv, vv));
            },
            None => {
                self.rows.push((name, value));
                assert(self@ =~= spec_set(v, nv, vv));
            },
        }
    }

    /// The value for `name`, if any.
    pub fn get(&self, name: &str) -> (r: Option<&str>)
        ensures
            (match r {
                Some(s) => spec_get(self@, name@) == Some(s@),
                None => spec_get(self@, name@) is None,
            }),
    {
        match self.index_of(name) {
            Some(i) => Some(self.rows[i].1.as_str()),
            None => None,
        }
    }

    /// A table holding `pairs`, set in order (a later pair for the same
    /// name wins).
    pub fn from_pairs(pairs: Vec<(String, String)>) -> (t: Self)
        ensures
            t.wf(),
            t@ == spec_table(pairs@.map_values(|e: (String, String)| (e.0@, e.1@))),
    {
        let ghost pv = pairs@.map_values(|e: (String, String)| (e.0@, e.1@));
        let mut t = NameTable::new();
        let mut i: usize = 0;
        while i < pairs.len()
            invariant
                t.wf(),
                0 <= i <= pairs@.len(),
                pv == pairs@.map_values(|e: (String, String)| (e.0@, e.1@)),
                t@ == spec_table(pv.take(i as int)),
            decreases pairs.len() - i,
        {
            let k = pairs[i].0.clone();
            let v = pairs[i].1.clone();
            proof {
                let s = pv.take(i + 1);
                assert(s.drop_last() =~= pv.take(i as int));
            }
            t.set(k, v);
            i += 1;
        }
        assert(pv.take(pv.len() as int) =~= pv);
        t
    }

    /// Number of rows (distinct names).
    pub fn len(&self) -> (n: usize)
        ensures
            n == self@.len(),
    {
        self.rows.len()
    }
}

impl Clone for NameTable {
    fn clone(&self) -> (c: Self)
        ensures
            c@ == self@,
            self.wf() ==> c.wf(),
    {
        let mut rows: Vec<(String, String)> = Vec::new();
        let mut i: usize = 0;
        while i < self.rows.len()
            invariant
                0 <= i <= self.rows@.len(),
                rows@.len() == i,
                rows@.map_values(|e: (String, String)| (e.0@, e.1@)) == self@.take(i as int),
            decreases self.rows.len() - i,
        {
            let k = self.rows[i].0.clone();
            let v = self.rows[i].1.clone();
            let ghost before = rows@;
            let ghost kv = (k@, v@);
            assert(kv == self@[i as int]);
            rows.push((k, v));
            i += 1;
            proof {
                let m = rows@.map_values(|e: (String, String)| (e.0@, e.1@));
                let mb = before.map_values(|e: (String, String)| (e.0@, e.1@));
                assert forall|j: int| 0 <= j < i implies #[trigger] m[j] == self@.take(i as int)[j] by {
                    if j < i - 1 {
                        assert(rows@[j] == before[j]);
                        assert(mb[j] == self@.take(i - 1)[j]);
                    }
                }
                assert(m =~= self@.take(i as int));
            }
        }
        let c = NameTable { rows };
        assert(self@.take(self@.len() as int) =~= self@);
        c
    }
}


/// The value of the last pair for `name`, if any.
pub open spec fn last_value(pairs: TableView, name: Seq<char>) -> Option<Seq<char>>
    decreases pairs.len(),
{
    if pairs.len() == 0 {
        None
    } else if pairs.last().0 == name {
        Some(pairs.last().1)
    } else {
        last_value(pairs.drop_last(), name)
    }
}

/// The names of the rows, in order.
pub open spec fn row_names(v: TableView) -> Seq<Seq<char>> {
    v.map_values(|r: (Seq<char>, Seq<char>)| r.0)
}

/// A table built from pairs keeps, for each name, the value of its last
/// pair, and has one row per distinct name.
pub proof fn law_table_last_wins(pairs: TableView, name: Seq<char>)
    ensures
        distinct_names(spec_table(pairs)),
        spec_get(spec_table(pairs), name) == last_value(pairs, name),
        row_names(spec_table(pairs)).to_set() == row_names(pairs).to_set(),
        spec_table(pairs).len() == row_names(pairs).to_set().len(),
    decreases pairs.len(),
{
    let t = spec_table(pairs);
    if pairs.len() == 0 {
        assert(row_names(t).to_set() =~= row_names(pairs).to_set());
    } else {
        let d = pairs.drop_last();
        let (n, val) = pairs.last();
        law_table_last_wins(d, name);
        let u = spec_table(d);
        lemma_set_get(u, n, val, name);
        lemma_name_index(u, n);
        let i = name_index(u, n);
        assert(row_names(pairs) =~= row_names(d).push(n));
        if i >= 0 {
            assert(row_names(t) =~= row_names(u).update(i, n));
            assert(row_names(u)[i] == n);
            assert forall|x: Seq<char>| row_names(t).to_set().contains(x) <==> row_names(pairs).to_set().contains(x) by {
                if row_names(t).to_set().contains(x) {
                    let k = choose|k: int| 0 <= k < row_names(t).len() && row_names(t)[k] == x;
                    assert(row_names(u)[k] == x);
                    assert(row_names(u).contains(x));
                    assert(row_names(d).to_set().contains(x));
                    let kk = choose|kk: int| 0 <= kk < row_names(d).len() && row_names(d)[kk] == x;
                    assert(row_names(pairs)[kk] == x);
                }
                if row_names(pairs).to_set().contains(x) {
                    let k = choose|k: int| 0 <= k < row_names(pairs).len() && row_names(pairs)[k] == x;
                    if k == pairs.len() - 1 {
                        assert(row_names(t)[i] == x);
                    } else {
                        assert(row_names(d)[k] == x);
                        assert(row_names(d).to_set().contains(x));
                        assert(row_names(u).to_set().contains(x));
                        let m = choose|m: int| 0 <= m < row_names(u).len() && row_names(u)[m] == x;
                        assert(row_names(t)[m] == x);
                    }
                }
            }
        } else {
            assert(row_names(t) =~= row_names(u).push(n));
            assert forall|x: Seq<char>| row_names(t).to_set().contains(x) <==> row_names(pairs).to_set().contains(x) by {
                if row_names(t).to_set().contains(x) {
                    let k = choose|k: int| 0 <= k < row_names(t).len() && row_names(t)[k] == x;
                    if k == row_names(u).len() {
                        assert(row_names(pairs)[pairs.len() - 1] == x);
                    } else {
                        assert(row_names(u)[k] == x);
                        assert(row_names(u).to_set().contains(x));
                        assert(row_names(d).to_set().contains(x));
                        let kk = choose|kk: int| 0 <= kk < row_names(d).len() && row_names(d)[kk] == x;
                        assert(row_names(pairs)[kk] == x);
                    }
                }
                if row_names(pairs).to_set().contains(x) {
                    let k = choose|k: int| 0 <= k < row_names(pairs).len() && row_names(pairs)[k] == x;
                    if k == pairs.len() - 1 {
                        assert(row_names(t)[row_names(u).len() as int] == x);
                    } else {
                        assert(row_names(d)[k] == x);
                        assert(row_names(d).to_set().contains(x));
                        assert(row_names(u).to_set().contains(x));
                        let m = choose|m: int| 0 <= m < row_names(u).len() && row_names(u)[m] == x;
                        assert(row_names(t)[m] == x);
                    }
                }
            }
        }
        assert(row_names(t).to_set() =~= row_names(pairs).to_set());
    }
    assert(row_names(t).no_duplicates()) by {
        assert forall|a: int, b: int| 0 <= a < row_names(t).len() && 0 <= b < row_names(t).len() && a != b implies row_names(t)[a] != row_names(t)[b] by {
            if a < b {
                assert(t[a].0 != t[b].0);
            } else {
                assert(t[b].0 != t[a].0);
            }
        }
    }
    row_names(t).unique_seq_to_set();
}

} // verus!
