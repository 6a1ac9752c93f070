//! Service catalogue — one-line business-impact text for each known service.
//!
//! When a chain points at `payment-api`, the decision card can say
//! "payment-api handles all transaction processing": enough context for an
//! on-call engineer at 2am. Operators load the catalogue from the
//! `[services]` table of the configuration file.
//!
//! Unknown services simply have no business-impact line attached to their
//! decision card.

use vstd::prelude::*;
use crate::table::{spec_get, spec_table, NameTable, TableView};

verus! {

/// Business-impact lines keyed by service name.
pub struct ServiceCatalog {
    table: NameTable,
}

impl View for ServiceCatalog {
    type V = TableView;

    closed spec fn view(&self) -> TableView {
        self.table@
    }
}

/// The impact line the catalogue `c` holds for `service`.
pub open spec fn spec_lookup(c: TableView, service: Seq<char>) -> Option<Seq<char>> {
    spec_get(c, service)
}

impl ServiceCatalog {
    /// Each service has one row.
    pub closed spec fn wf(&self) -> bool {
        self.table.wf()
    }

    /// Build a catalogue from `(name, impact)` pairs; a later pair for the
    /// same service wins.
    pub fn with_entries(entries: &[(&str, &str)]) -> (c: Self)
        ensures
            c.wf(),
            c@ == spec_table(entries@.map_values(|e: (&str, &str)| (e.0@, e.1@))),
    {
        let ghost pv = entries@.map_values(|e: (&str, &str)| (e.0@, e.1@));
        let mut t = NameTable::new();
        let mut i: usize = 0;
        while i < entries.len()
            invariant
                t.wf(),
                0 <= i <= entries@.len(),
                pv == entries@.map_values(|e: (&str, &str)| (e.0@, e.1@)),
                t@ == spec_table(pv.take(i as int)),
            decreases entries.len() - i,
        {
            let (k, v) = entries[i];
            proof {
                let s = pv.take(i + 1);
                assert(s.drop_last() =~= pv.take(i as int));
            }
            t.set(k.to_string(), v.to_string());
            i += 1;
        }
        assert(pv.take(pv.len() as int) =~= pv);
        ServiceCatalog { table: t }
    }

    /// Build a catalogue from owned `(name, impact)` pairs (the `[services]`
    /// table of the configuration file).
    pub fn from_map(map: Vec<(String, String)>) -> (c: Self)
        ensures
            c.wf(),
            c@ == spec_table(map@.map_values(|e: (String, String)| (e.0@, e.1@))),
    {
        ServiceCatalog { table: NameTable::from_pairs(map) }
    }

    /// The business-impact line for `service`, if it is catalogued.
    pub fn lookup(&self, service: &str) -> (r: Option<&str>)
        ensures
            (match r {
                Some(s) => spec_lookup(self@, service@) == Some(s@),
                None => spec_lookup(self@, service@) is None,
            }),
    {
        self.table.get(service)
    }

    pub fn is_empty(&self) -> (b: bool)
        ensures
            b == (self@.len() == 0),
    {
        self.table.len() == 0
    }

    /// Number of catalogued services.
    pub fn len(&self) -> (n: usize)
        ensures
            n == self@.len(),
    {
        self.table.len()
    }
}

impl Default for ServiceCatalog {
    fn default() -> (c: Self)
        ensures
            c@ == Seq::<(Seq<char>, Seq<char>)>::empty(),
            c.wf(),
    {
        ServiceCatalog { table: NameTable::new() }
    }
}

impl Clone for ServiceCatalog {
    fn clone(&self) -> (c: Self)
        ensures
            c@ == self@,
            self.wf() ==> c.wf(),
    {
        ServiceCatalog { table: self.table.clone() }
    }
}

} // verus!
