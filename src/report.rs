//! The two reports: every call site ever seen, and the call sites that still
//! hold outstanding allocations.

use crate::registry::{is_live_in, key_of, LiveRegistry};
use crate::table::{AggregationTable, Status};
use vstd::prelude::*;

verus! {

/// Every call site of `order` with its totals in `m`, in order.
pub open spec fn full_report(order: Seq<Seq<char>>, m: Map<Seq<char>, Status>) -> Seq<
    (Seq<char>, Status),
> {
    order.map_values(|s: Seq<char>| (s, m[s]))
}

/// The call sites of `order` that are live in `reg`, with their totals in
/// `m`, in order.
pub open spec fn live_report(
    order: Seq<Seq<char>>,
    m: Map<Seq<char>, Status>,
    reg: Map<u64, Seq<char>>,
) -> Seq<(Seq<char>, Status)>
    decreases order.len(),
{
    if order.len() == 0 {
        Seq::empty()
    } else {
        let rest = live_report(order.drop_last(), m, reg);
        let s = order.last();
        if is_live_in(reg, s) {
            rest.push((s, m[s]))
        } else {
            rest
        }
    }
}

/// The abstract value of a list of report rows.
pub open spec fn rows_view(rows: Seq<(String, Status)>) -> Seq<(Seq<char>, Status)> {
    rows.map_values(|e: (String, Status)| (e.0@, e.1))
}

proof fn lemma_live_rows(order: Seq<Seq<char>>, m: Map<Seq<char>, Status>, reg: Map<u64, Seq<char>>)
    requires
        forall|i: int| 0 <= i < order.len() ==> m.contains_key(#[trigger] order[i]),
    ensures
        forall|i: int|
            0 <= i < live_report(order, m, reg).len() ==> {
                let row = #[trigger] live_report(order, m, reg)[i];
                &&& is_live_in(reg, row.0)
                &&& m.contains_key(row.0)
                &&& row.1 == m[row.0]
            },
    decreases order.len(),
{
    if order.len() > 0 {
        let rest = order.drop_last();
        assert forall|i: int| 0 <= i < rest.len() implies m.contains_key(#[trigger] rest[i]) by {
            assert(rest[i] == order[i]);
        }
        lemma_live_rows(rest, m, reg);
        assert(m.contains_key(order[order.len() - 1]));
        let r = live_report(order, m, reg);
        let rr = live_report(rest, m, reg);
        assert forall|i: int| 0 <= i < r.len() implies {
            let row = #[trigger] r[i];
            &&& is_live_in(reg, row.0)
            &&& m.contains_key(row.0)
            &&& row.1 == m[row.0]
        } by {
            if i < rr.len() {
                assert(r[i] == rr[i]);
            }
        }
    }
}

/// The filtered report never lists a signature that the registry does not
/// hold: every row's signature is registered under its own key (so some
/// allocation that captured it is outstanding), has an entry in the table,
/// and comes with that entry's totals.
pub proof fn lemma_filtered_rows_are_registered(table: &AggregationTable, registry: &LiveRegistry)
    requires
        table.wf(),
        registry.wf(),
    ensures
        forall|i: int|
            0 <= i < live_report(table.order(), table@, registry@).len() ==> {
                let row = #[trigger] live_report(table.order(), table@, registry@)[i];
                &&& registry@.contains_key(key_of(row.0))
                &&& registry@[key_of(row.0)] == row.0
                &&& table@.contains_key(row.0)
                &&& row.1 == table@[row.0]
            },
{
    table.lemma_order();
    lemma_live_rows(table.order(), table@, registry@);
}

/// Every call site of the table with its totals, in table order.
pub fn all_trace(table: &AggregationTable) -> (r: Vec<(String, Status)>)
    requires
        table.wf(),
    ensures
        rows_view(r@) == full_report(table.order(), table@),
{
    let mut rows: Vec<(String, Status)> = Vec::new();
    let n = table.len();
    let mut i: usize = 0;
    while i < n
        invariant
            table.wf(),
            n == table.order().len(),
            i <= n,
            rows@.len() == i,
            rows_view(rows@) == full_report(table.order().subrange(0, i as int), table@),
        decreases n - i,
    {
        let (sig, st) = table.entry(i);
        let ghost before = rows@;
        rows.push((sig.clone(), st));
        assert(rows@ == before.push(rows@[i as int]));
        assert(rows_view(rows@) =~= full_report(table.order().subrange(0, i + 1), table@)) by {
            assert forall|j: int| 0 <= j < i implies #[trigger] rows_view(rows@)[j]
                == rows_view(before)[j] by {
                assert(rows@[j] == before[j]);
            }
            assert forall|j: int| 0 <= j < i implies #[trigger] full_report(table.order().subrange(0, i + 1), table@)[j]
                == full_report(table.order().subrange(0, i as int), table@)[j] by {
            }
        }
        i = i + 1;
    }
    assert(table.order().subrange(0, n as int) =~= table.order());
    rows
}

/// The call sites of the table whose signature the registry still holds,
/// with their totals, in table order.
pub fn filtered_trace(table: &AggregationTable, registry: &LiveRegistry) -> (r: Vec<(String, Status)>)
    requires
        table.wf(),
        registry.wf(),
    ensures
        rows_view(r@) == live_report(table.order(), table@, registry@),
{
    let mut rows: Vec<(String, Status)> = Vec::new();
    let n = table.len();
    let mut i: usize = 0;
    while i < n
        invariant
            table.wf(),
            registry.wf(),
            n == table.order().len(),
            i <= n,
            rows_view(rows@) == live_report(table.order().subrange(0, i as int), table@, registry@),
        decreases n - i,
    {
        let (sig, st) = table.entry(i);
        let ghost prefix = table.order().subrange(0, i + 1);
        assert(prefix.drop_last() =~= table.order().subrange(0, i as int));
        if registry.is_live(sig) {
            rows.push((sig.clone(), st));
            assert(rows_view(rows@) =~= live_report(prefix, table@, registry@));
        }
        i = i + 1;
    }
    assert(table.order().subrange(0, n as int) =~= table.order());
    rows
}

/// `(sig, st)` is a row of the full report of `table`.
pub open spec fn is_table_row(table: &AggregationTable, sig: Seq<char>, st: Status) -> bool {
    exists|i: int|
        0 <= i < full_report(table.order(), table@).len() && #[trigger] full_report(
            table.order(),
            table@,
        )[i] == (sig, st)
}

/// `(sig, st)` is a row of the live report of `table` and `registry`.
pub open spec fn is_live_row(
    table: &AggregationTable,
    registry: &LiveRegistry,
    sig: Seq<char>,
    st: Status,
) -> bool {
    exists|i: int|
        0 <= i < live_report(table.order(), table@, registry@).len() && #[trigger] live_report(
            table.order(),
            table@,
            registry@,
        )[i] == (sig, st)
}

/// Hands every call site of the table, with its totals, to `f`, in table
/// order. `f` need accept only rows of the full report, and gets no other.
pub fn print_all_trace<F>(table: &AggregationTable, f: F)
    where
        F: Fn(&str, &Status),
    requires
        table.wf(),
        forall|s: &str, st: &Status| is_table_row(table, s@, *st) ==> f.requires((s, st)),
{
    let rows = all_trace(table);
    let mut i: usize = 0;
    while i < rows.len()
        invariant
            table.wf(),
            rows_view(rows@) == full_report(table.order(), table@),
            forall|s: &str, st: &Status| is_table_row(table, s@, *st) ==> f.requires((s, st)),
        decreases rows@.len() - i,
    {
        let s = rows[i].0.as_str();
        let st = &rows[i].1;
        assert(rows_view(rows@)[i as int] == (s@, *st));
        assert(is_table_row(table, s@, *st));
        f(s, st);
        i = i + 1;
    }
}

/// Hands every call site that still holds outstanding allocations, with its
/// totals, to `f`, in table order. `f` need accept only rows of the live
/// report, and gets no other: never a signature that the registry lacks.
pub fn print_filtered_trace<F>(table: &AggregationTable, registry: &LiveRegistry, f: F)
    where
        F: Fn(&str, &Status),
    requires
        table.wf(),
        registry.wf(),
        forall|s: &str, st: &Status| is_live_row(table, registry, s@, *st) ==> f.requires((s, st)),
{
    let rows = filtered_trace(table, registry);
    let mut i: usize = 0;
    while i < rows.len()
        invariant
            table.wf(),
            registry.wf(),
            rows_view(rows@) == live_report(table.order(), table@, registry@),
            forall|s: &str, st: &Status|
                is_live_row(table, registry, s@, *st) ==> f.requires((s, st)),
        decreases rows@.len() - i,
    {
        let s = rows[i].0.as_str();
        let st = &rows[i].1;
        assert(rows_view(rows@)[i as int] == (s@, *st));
        assert(is_live_row(table, registry, s@, *st));
        f(s, st);
        i = i + 1;
    }
}

} // verus!
