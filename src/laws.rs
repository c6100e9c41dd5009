//! Laws that tie extraction and aggregation together over a whole run.

use vstd::prelude::*;
use crate::aggregate::{AggregateTables, Aggregator, absorbed_run, is_run, page_records};
use crate::counts::{CountTable, count_in, occurrences};
use crate::extract::{complete_entry, extract_outcome, last_visited_of, visited_in_year};
use crate::record::{EntryFragment, ExtractResult, WorkRecord, orphan_name};
use crate::text::{contains_seq, views};

verus! {

/// An entry whose visited date does not hold the target year is never
/// accepted: extraction says `NotInYear`.
pub proof fn lemma_out_of_year_rejected(f: EntryFragment, year: Seq<char>, r: ExtractResult)
    requires
        f.visited is Some,
        !contains_seq(last_visited_of(f.visited->0@), year),
        extract_outcome(r, f, year),
    ensures
        r is NotInYear,
{
}

/// Total number of ship-type tokens in a sequence of records.
pub open spec fn ship_type_tokens(ws: Seq<WorkRecord>) -> nat
    decreases ws.len(),
{
    if ws.len() == 0 {
        0
    } else {
        ship_type_tokens(ws.drop_last()) + ws.last().ship_types@.len()
    }
}

/// Over a run, the ship-type counts grow by exactly the number of
/// ship-type tokens of all records: none lost, none counted twice.
pub proof fn lemma_ship_type_total(ts: Seq<AggregateTables>, ws: Seq<WorkRecord>)
    requires
        is_run(ts, ws),
    ensures
        ts.last().ship_types.total_count() == ts[0].ship_types.total_count() + ship_type_tokens(ws),
    decreases ws.len(),
{
    if ws.len() > 0 {
        let n = ws.len() - 1;
        assert(AggregateTables::counted(ts[n], ts[n + 1], ws[n]));
        let ts0 = ts.drop_last();
        let ws0 = ws.drop_last();
        assert forall|i: int| 0 <= i < ws0.len() implies AggregateTables::counted(
            ts0[i],
            #[trigger] ts0[i + 1],
            ws0[i],
        ) by {
            assert(AggregateTables::counted(ts[i], ts[i + 1], ws[i]));
        }
        lemma_ship_type_total(ts0, ws0);
    }
}

proof fn lemma_absent_name(s: Seq<Seq<char>>, k: Seq<char>)
    requires
        forall|i: int| 0 <= i < s.len() ==> s[i] != k,
    ensures
        occurrences(s, k) == 0,
    decreases s.len(),
{
    if s.len() > 0 {
        lemma_absent_name(s.drop_last(), k);
    }
}

/// Counting a record whose authors leave out the orphan placeholder keeps
/// the placeholder out of the author table.
pub proof fn lemma_orphan_never_counted(old: AggregateTables, new: AggregateTables, w: WorkRecord)
    requires
        old.authors.count(orphan_name()) == 0,
        w.wf(),
        AggregateTables::counted(old, new, w),
    ensures
        new.authors.count(orphan_name()) == 0,
{
    let s = views(w.authors@);
    assert forall|i: int| 0 <= i < s.len() implies s[i] != orphan_name() by {
        assert(w.authors@[i]@ != orphan_name());
    }
    lemma_absent_name(s, orphan_name());
}

/// Over a run from tables without the orphan placeholder, of records that
/// extraction produced, the placeholder never becomes an author key.
pub proof fn lemma_orphan_never_in_run(ts: Seq<AggregateTables>, ws: Seq<WorkRecord>)
    requires
        is_run(ts, ws),
        ts[0].authors.count(orphan_name()) == 0,
        forall|i: int| 0 <= i < ws.len() ==> (#[trigger] ws[i]).wf(),
    ensures
        forall|i: int| 0 <= i < ts.len() ==> (#[trigger] ts[i]).authors.count(orphan_name()) == 0,
    decreases ws.len(),
{
    if ws.len() > 0 {
        let n = ws.len() - 1;
        let ts0 = ts.drop_last();
        let ws0 = ws.drop_last();
        assert forall|i: int| 0 <= i < ws0.len() implies AggregateTables::counted(
            ts0[i],
            #[trigger] ts0[i + 1],
            ws0[i],
        ) by {
            assert(AggregateTables::counted(ts[i], ts[i + 1], ws[i]));
        }
        assert forall|i: int| 0 <= i < ws0.len() implies (#[trigger] ws0[i]).wf() by {
            assert(ws[i].wf());
        }
        lemma_orphan_never_in_run(ts0, ws0);
        assert(ts0[n].authors.count(orphan_name()) == 0);
        assert(AggregateTables::counted(ts[n], ts[n + 1], ws[n]));
        assert(ws[n].wf());
        lemma_orphan_never_counted(ts[n], ts[n + 1], ws[n]);
        assert forall|i: int| 0 <= i < ts.len() implies (#[trigger] ts[i]).authors.count(orphan_name()) == 0 by {
            if i < ts.len() - 1 {
                assert(ts[i] == ts0[i]);
            }
        }
    }
}

/// A record that extraction accepts never lists the orphan placeholder.
pub proof fn lemma_extracted_has_no_orphan(f: EntryFragment, year: Seq<char>, w: WorkRecord)
    requires
        extract_outcome(ExtractResult::Matched(w), f, year),
    ensures
        w.wf(),
{
}

/// A table rebuilt from the pairs that another table exports holds the
/// same count for every key: replaying persisted counts reproduces them.
pub proof fn lemma_replay_keeps_counts(t: CountTable, pairs: Seq<(Seq<char>, u64)>, u: CountTable)
    requires
        pairs == t.entries_view(),
        forall|k: Seq<char>| #[trigger] u.count(k) == count_in(pairs, k),
    ensures
        forall|k: Seq<char>| #[trigger] u.count(k) == t.count(k),
{
}

/// Every record that a page yields keeps the orphan placeholder out.
pub proof fn lemma_page_records_wf(ws: Seq<WorkRecord>, entries: Seq<EntryFragment>, year: Seq<char>)
    requires
        page_records(ws, entries, year),
    ensures
        forall|i: int| 0 <= i < ws.len() ==> (#[trigger] ws[i]).wf(),
    decreases entries.len(),
{
    if entries.len() > 0 {
        if visited_in_year(entries.last(), year) && complete_entry(entries.last()) {
            lemma_page_records_wf(ws.drop_last(), entries.drop_last(), year);
            assert forall|i: int| 0 <= i < ws.len() implies (#[trigger] ws[i]).wf() by {
                if i < ws.len() - 1 {
                    assert(ws[i] == ws.drop_last()[i]);
                }
            }
        } else {
            lemma_page_records_wf(ws, entries.drop_last(), year);
        }
    }
}

/// After a page, the ship-type counts have grown by exactly the ship-type
/// tokens of the page's accepted records.
pub proof fn lemma_page_ship_types(
    old: Aggregator,
    new: Aggregator,
    ws: Seq<WorkRecord>,
    ts: Seq<AggregateTables>,
)
    requires
        absorbed_run(old, new, ws, ts),
    ensures
        new.tables.ship_types.total_count() == old.tables.ship_types.total_count() + ship_type_tokens(ws),
{
    lemma_ship_type_total(ts, ws);
}

/// A page never makes the orphan placeholder an author key.
pub proof fn lemma_page_orphan_never_counted(
    old: Aggregator,
    new: Aggregator,
    entries: Seq<EntryFragment>,
    year: Seq<char>,
    ws: Seq<WorkRecord>,
    ts: Seq<AggregateTables>,
)
    requires
        old.tables.authors.count(orphan_name()) == 0,
        page_records(ws, entries, year),
        absorbed_run(old, new, ws, ts),
    ensures
        new.tables.authors.count(orphan_name()) == 0,
{
    lemma_page_records_wf(ws, entries, year);
    lemma_orphan_never_in_run(ts, ws);
    assert(ts[ts.len() - 1].authors.count(orphan_name()) == 0);
}

} // verus!
