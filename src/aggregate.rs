//! The aggregation engine: frequency tables and the tabular dataset.

use vstd::prelude::*;
use crate::counts::{CountTable, occurrences};
use crate::extract::{
    complete_entry, entry_in_year, extract, extract_outcome, lemma_without_orphans_len, visited_in_year,
    without_orphans, words_of,
};
use crate::record::{EntryFragment, ExtractResult, WorkRecord};
use crate::text::{join, join_comma, lower_of, lowercase, split_pieces, views};

verus! {

/// One row of the tabular dataset; list fields are joined with commas.
#[derive(Clone, Debug)]
pub struct TabularRow {
    pub title: String,
    pub authors: String,
    pub last_updated: String,
    pub fandoms: String,
    pub characters: String,
    pub ship_types: String,
    pub rating: String,
    pub work_status: String,
    pub ships: String,
    pub additional_tags: String,
    pub word_count: u64,
    pub kudos: u64,
    pub hits: u64,
    pub user_last_visited: String,
    pub user_visitations: u64,
}

/// The row that stores a record.
pub open spec fn row_of(r: TabularRow, w: WorkRecord) -> bool {
    &&& r.title@ == w.title@
    &&& r.authors@ == join_comma(views(w.authors@))
    &&& r.last_updated@ == w.last_updated@
    &&& r.fandoms@ == join_comma(views(w.fandoms@))
    &&& r.characters@ == join_comma(views(w.characters@))
    &&& r.ship_types@ == join_comma(views(w.ship_types@))
    &&& r.rating@ == w.rating@
    &&& r.work_status@ == w.status@
    &&& r.ships@ == join_comma(views(w.ships@))
    &&& r.additional_tags@ == join_comma(views(w.tags@))
    &&& r.word_count == w.word_count
    &&& r.kudos == w.kudos
    &&& r.hits == w.hits
    &&& r.user_last_visited@ == w.last_visited@
    &&& r.user_visitations == w.visitations
}

/// Frequency tables per category, the running word total and the number of
/// titles written wholly in lower case.
pub struct AggregateTables {
    pub authors: CountTable,
    pub fandoms: CountTable,
    pub ship_types: CountTable,
    pub ratings: CountTable,
    pub statuses: CountTable,
    pub ships: CountTable,
    pub characters: CountTable,
    pub tags: CountTable,
    pub word_count: u64,
    pub title_lower_count: u64,
}

/// 1 when `b` holds, else 0.
pub open spec fn one_if(b: bool) -> nat {
    if b { 1 } else { 0 }
}

/// `k` occurs once in a one-item list.
pub open spec fn single(x: Seq<char>, k: Seq<char>) -> nat {
    one_if(x == k)
}

impl AggregateTables {
    pub open spec fn wf(&self) -> bool {
        &&& self.authors.wf()
        &&& self.fandoms.wf()
        &&& self.ship_types.wf()
        &&& self.ratings.wf()
        &&& self.statuses.wf()
        &&& self.ships.wf()
        &&& self.characters.wf()
        &&& self.tags.wf()
    }

    pub fn new() -> (r: AggregateTables)
        ensures
            r.wf(),
            r.is_empty(),
    {
        AggregateTables {
            authors: CountTable::new(),
            fandoms: CountTable::new(),
            ship_types: CountTable::new(),
            ratings: CountTable::new(),
            statuses: CountTable::new(),
            ships: CountTable::new(),
            characters: CountTable::new(),
            tags: CountTable::new(),
            word_count: 0,
            title_lower_count: 0,
        }
    }

    /// No count anywhere.
    pub open spec fn is_empty(&self) -> bool {
        &&& forall|k: Seq<char>| #[trigger] self.authors.count(k) == 0
        &&& forall|k: Seq<char>| #[trigger] self.fandoms.count(k) == 0
        &&& forall|k: Seq<char>| #[trigger] self.ship_types.count(k) == 0
        &&& forall|k: Seq<char>| #[trigger] self.ratings.count(k) == 0
        &&& forall|k: Seq<char>| #[trigger] self.statuses.count(k) == 0
        &&& forall|k: Seq<char>| #[trigger] self.ships.count(k) == 0
        &&& forall|k: Seq<char>| #[trigger] self.characters.count(k) == 0
        &&& forall|k: Seq<char>| #[trigger] self.tags.count(k) == 0
        &&& self.ship_types.total_count() == 0
        &&& self.word_count == 0
        &&& self.title_lower_count == 0
    }

    /// Every counter can take the record without passing `u64::MAX`.
    pub open spec fn fits(&self, w: WorkRecord) -> bool {
        &&& self.authors.total_count() + w.authors@.len() <= u64::MAX
        &&& self.fandoms.total_count() + w.fandoms@.len() <= u64::MAX
        &&& self.ship_types.total_count() + w.ship_types@.len() <= u64::MAX
        &&& self.ratings.total_count() + 1 <= u64::MAX
        &&& self.statuses.total_count() + 1 <= u64::MAX
        &&& self.ships.total_count() + w.ships@.len() <= u64::MAX
        &&& self.characters.total_count() + w.characters@.len() <= u64::MAX
        &&& self.tags.total_count() + w.tags@.len() <= u64::MAX
        &&& self.word_count + w.word_count <= u64::MAX
        &&& self.title_lower_count + 1 <= u64::MAX
    }

    /// Every counter can still grow by `n`.
    pub open spec fn has_room(&self, n: nat) -> bool {
        &&& self.authors.total_count() + n <= u64::MAX
        &&& self.fandoms.total_count() + n <= u64::MAX
        &&& self.ship_types.total_count() + n <= u64::MAX
        &&& self.ratings.total_count() + n <= u64::MAX
        &&& self.statuses.total_count() + n <= u64::MAX
        &&& self.ships.total_count() + n <= u64::MAX
        &&& self.characters.total_count() + n <= u64::MAX
        &&& self.tags.total_count() + n <= u64::MAX
        &&& self.word_count + n <= u64::MAX
        &&& self.title_lower_count + n <= u64::MAX
    }

    /// `new` is `old` with the record `w` counted once.
    pub open spec fn counted(old: AggregateTables, new: AggregateTables, w: WorkRecord) -> bool {
        &&& new.wf()
        &&& forall|k: Seq<char>| #[trigger] new.authors.count(k)
            == old.authors.count(k) + occurrences(views(w.authors@), k)
        &&& forall|k: Seq<char>| #[trigger] new.fandoms.count(k)
            == old.fandoms.count(k) + occurrences(views(w.fandoms@), k)
        &&& forall|k: Seq<char>| #[trigger] new.ship_types.count(k)
            == old.ship_types.count(k) + occurrences(views(w.ship_types@), k)
        &&& forall|k: Seq<char>| #[trigger] new.ratings.count(k)
            == old.ratings.count(k) + single(w.rating@, k)
        &&& forall|k: Seq<char>| #[trigger] new.statuses.count(k)
            == old.statuses.count(k) + single(w.status@, k)
        &&& forall|k: Seq<char>| #[trigger] new.ships.count(k)
            == old.ships.count(k) + occurrences(views(w.ships@), k)
        &&& forall|k: Seq<char>| #[trigger] new.characters.count(k)
            == old.characters.count(k) + occurrences(views(w.characters@), k)
        &&& forall|k: Seq<char>| #[trigger] new.tags.count(k)
            == old.tags.count(k) + occurrences(views(w.tags@), k)
        &&& new.authors.total_count() == old.authors.total_count() + w.authors@.len()
        &&& new.fandoms.total_count() == old.fandoms.total_count() + w.fandoms@.len()
        &&& new.ship_types.total_count() == old.ship_types.total_count() + w.ship_types@.len()
        &&& new.ratings.total_count() == old.ratings.total_count() + 1
        &&& new.statuses.total_count() == old.statuses.total_count() + 1
        &&& new.ships.total_count() == old.ships.total_count() + w.ships@.len()
        &&& new.characters.total_count() == old.characters.total_count() + w.characters@.len()
        &&& new.tags.total_count() == old.tags.total_count() + w.tags@.len()
        &&& new.word_count == old.word_count + w.word_count
        &&& new.title_lower_count == old.title_lower_count + one_if(lower_of(w.title@) == w.title@)
    }

    /// Whether the record fits in every counter.
    pub fn can_take(&self, w: &WorkRecord) -> (r: bool)
        requires
            self.wf(),
        ensures
            r == self.fits(*w),
    {
        let m = u64::MAX;
        (self.authors.total() as u128 + w.authors.len() as u128 <= m as u128)
            && (self.fandoms.total() as u128 + w.fandoms.len() as u128 <= m as u128)
            && (self.ship_types.total() as u128 + w.ship_types.len() as u128 <= m as u128)
            && self.ratings.total() < m && self.statuses.total() < m
            && (self.ships.total() as u128 + w.ships.len() as u128 <= m as u128)
            && (self.characters.total() as u128 + w.characters.len() as u128 <= m as u128)
            && (self.tags.total() as u128 + w.tags.len() as u128 <= m as u128)
            && (self.word_count as u128 + w.word_count as u128 <= m as u128)
            && self.title_lower_count < m
    }

    /// Counts one record in every table.
    pub fn count_record(&mut self, w: &WorkRecord)
        requires
            old(self).wf(),
            old(self).fits(*w),
        ensures
            AggregateTables::counted(*old(self), *final(self), *w),
    {
        self.authors.increment_all(&w.authors);
        self.fandoms.increment_all(&w.fandoms);
        self.ship_types.increment_all(&w.ship_types);
        self.ratings.increment(&w.rating);
        self.statuses.increment(&w.status);
        self.ships.increment_all(&w.ships);
        self.characters.increment_all(&w.characters);
        self.tags.increment_all(&w.tags);
        self.word_count = self.word_count + w.word_count;
        let lower = lowercase(w.title.as_str());
        if lower == w.title {
            self.title_lower_count = self.title_lower_count + 1;
        }
    }
}

/// The row that stores a record, list fields joined with commas.
pub fn make_row(w: &WorkRecord) -> (r: TabularRow)
    ensures
        row_of(r, *w),
{
    TabularRow {
        title: w.title.clone(),
        authors: join(&w.authors),
        last_updated: w.last_updated.clone(),
        fandoms: join(&w.fandoms),
        characters: join(&w.characters),
        ship_types: join(&w.ship_types),
        rating: w.rating.clone(),
        work_status: w.status.clone(),
        ships: join(&w.ships),
        additional_tags: join(&w.tags),
        word_count: w.word_count,
        kudos: w.kudos,
        hits: w.hits,
        user_last_visited: w.last_visited.clone(),
        user_visitations: w.visitations,
    }
}

/// A counter would pass `u64::MAX`.
#[derive(Clone, Copy, Debug, PartialEq, Eq)]
pub enum AggregateError {
    CounterOverflow,
}

/// What one entry did to the aggregator.
#[derive(Clone, Copy, Debug, PartialEq, Eq)]
pub enum EntryOutcome {
    Absorbed,
    NotInYear,
    Skipped,
}

/// Number of entries that extraction accepts for the year.
pub open spec fn matched_count(entries: Seq<EntryFragment>, year: Seq<char>) -> nat
    decreases entries.len(),
{
    if entries.len() == 0 {
        0
    } else {
        matched_count(entries.drop_last(), year) + one_if(
            visited_in_year(entries.last(), year) && complete_entry(entries.last()),
        )
    }
}

/// An upper bound on what one entry adds to any counter: nothing unless
/// extraction accepts it.
pub open spec fn entry_load(f: EntryFragment, year: Seq<char>) -> nat {
    if visited_in_year(f, year) && complete_entry(f) {
        let h = f.header->0;
        (h.authors@.len() + h.fandoms@.len() + split_pieces(h.required_tags@[2]@, ", "@).len()
            + f.ships@.len() + f.characters@.len() + f.tags@.len() + 2 + words_of(f.stats) as nat) as nat
    } else {
        0
    }
}

/// An upper bound on what a page adds to any counter.
pub open spec fn page_load(entries: Seq<EntryFragment>, year: Seq<char>) -> nat
    decreases entries.len(),
{
    if entries.len() == 0 {
        0
    } else {
        entry_load(entries[0], year) + page_load(entries.drop_first(), year)
    }
}

/// A record that extraction makes of `f` adds at most `entry_load` to
/// each counter, and one with room for that fits.
proof fn lemma_record_within_load(t: AggregateTables, f: EntryFragment, year: Seq<char>, w: WorkRecord, rest: nat)
    requires
        extract_outcome(ExtractResult::Matched(w), f, year),
        t.has_room(entry_load(f, year) + rest),
    ensures
        t.fits(w),
        forall|u: AggregateTables| AggregateTables::counted(t, u, w) ==> #[trigger] u.has_room(rest),
{
    let h = f.header->0;
    lemma_without_orphans_len(views(h.authors@));
    assert(views(w.authors@).len() == w.authors@.len());
    assert(views(h.authors@).len() == h.authors@.len());
    assert(views(w.fandoms@).len() == w.fandoms@.len());
    assert(views(h.fandoms@).len() == h.fandoms@.len());
    assert(views(w.ship_types@).len() == w.ship_types@.len());
    assert(views(w.ships@).len() == w.ships@.len());
    assert(views(f.ships@).len() == f.ships@.len());
    assert(views(w.characters@).len() == w.characters@.len());
    assert(views(f.characters@).len() == f.characters@.len());
    assert(views(w.tags@).len() == w.tags@.len());
    assert(views(f.tags@).len() == f.tags@.len());
}

/// Some entry was visited in the year.
pub open spec fn any_in_year(entries: Seq<EntryFragment>, year: Seq<char>) -> bool {
    exists|i: int| 0 <= i < entries.len() && visited_in_year(#[trigger] entries[i], year)
}

/// The frequency tables and the rows, grown one record at a time.
pub struct Aggregator {
    pub tables: AggregateTables,
    pub rows: Vec<TabularRow>,
}

impl Aggregator {
    pub open spec fn wf(&self) -> bool {
        self.tables.wf()
    }

    pub fn new() -> (r: Aggregator)
        ensures
            r.wf(),
            r.tables.is_empty(),
            r.rows@.len() == 0,
    {
        Aggregator { tables: AggregateTables::new(), rows: Vec::new() }
    }

    /// Counts the record and appends its row.
    pub fn absorb(&mut self, w: &WorkRecord)
        requires
            old(self).wf(),
            old(self).tables.fits(*w),
        ensures
            AggregateTables::counted(old(self).tables, final(self).tables, *w),
            final(self).rows@.len() == old(self).rows@.len() + 1,
            final(self).rows@.drop_last() == old(self).rows@,
            row_of(final(self).rows@.last(), *w),
    {
        self.tables.count_record(w);
        let row = make_row(w);
        self.rows.push(row);
    }

    /// Extracts one entry and absorbs its record, if any; refuses a record
    /// that would pass a counter's limit and leaves everything as it was.
    pub fn absorb_entry(&mut self, f: &EntryFragment, year: &str) -> (r: Result<
        EntryOutcome,
        AggregateError,
    >)
        requires
            old(self).wf(),
        ensures
            final(self).wf(),
            old(self).tables.has_room(entry_load(*f, year@)) ==> r is Ok,
            !visited_in_year(*f, year@) ==> r is Ok && r != Ok::<EntryOutcome, AggregateError>(EntryOutcome::Absorbed) && *final(self) == *old(self),
            match r {
                Ok(EntryOutcome::Absorbed) => exists|w: WorkRecord|
                    #[trigger] extract_outcome(ExtractResult::Matched(w), *f, year@)
                        && AggregateTables::counted(old(self).tables, final(self).tables, w)
                        && final(self).rows@ == old(self).rows@.push(final(self).rows@.last())
                        && row_of(final(self).rows@.last(), w),
                Ok(EntryOutcome::NotInYear) => extract_outcome(ExtractResult::NotInYear, *f, year@)
                    && *final(self) == *old(self),
                Ok(EntryOutcome::Skipped) => extract_outcome(ExtractResult::Skipped, *f, year@)
                    && *final(self) == *old(self),
                Err(_) => *final(self) == *old(self) && exists|w: WorkRecord|
                    #[trigger] extract_outcome(ExtractResult::Matched(w), *f, year@)
                        && !old(self).tables.fits(w),
            },
    {
        match extract(f, year) {
            ExtractResult::Matched(w) => {
                if !self.tables.can_take(&w) {
                    proof {
                        if old(self).tables.has_room(entry_load(*f, year@)) {
                            lemma_record_within_load(old(self).tables, *f, year@, w, 0);
                        }
                    }
                    return Err(AggregateError::CounterOverflow);
                }
                self.absorb(&w);
                assert(self.rows@ == old(self).rows@.push(self.rows@.last()));
                Ok(EntryOutcome::Absorbed)
            },
            ExtractResult::NotInYear => Ok(EntryOutcome::NotInYear),
            ExtractResult::Skipped => Ok(EntryOutcome::Skipped),
        }
    }

    /// Runs every entry of a page through extraction and aggregation, in
    /// order, and tells whether any entry was visited in the target year.
    /// On a counter overflow it stops at the entry that did not fit, with
    /// the entries before it absorbed.
    pub fn absorb_page(&mut self, entries: &Vec<EntryFragment>, year: &str) -> (r: Result<
        bool,
        AggregateError,
    >)
        requires
            old(self).wf(),
        ensures
            final(self).wf(),
            old(self).tables.has_room(page_load(entries@, year@)) ==> r is Ok,
            forall|n: nat|
                old(self).tables.has_room(page_load(entries@, year@) + n)
                    ==> #[trigger] final(self).tables.has_room(n),
            match r {
                Ok(found) => {
                    &&& found == any_in_year(entries@, year@)
                    &&& final(self).rows@.len() == old(self).rows@.len() + matched_count(entries@, year@)
                    &&& exists|ws: Seq<WorkRecord>, ts: Seq<AggregateTables>|
                        #[trigger] page_records(ws, entries@, year@)
                            && #[trigger] absorbed_run(*old(self), *final(self), ws, ts)
                },
                Err(_) => exists|k: int, ws: Seq<WorkRecord>, ts: Seq<AggregateTables>|
                    0 <= k < entries@.len()
                        && #[trigger] page_records(ws, entries@.subrange(0, k), year@)
                        && #[trigger] absorbed_run(*old(self), *final(self), ws, ts)
                        && overflowing_entry(final(self).tables, entries@[k], year@),
            },
    {
        let mut found = false;
        let mut i: usize = 0;
        let ghost mut ws: Seq<WorkRecord> = Seq::empty();
        let ghost mut ts: Seq<AggregateTables> = seq![self.tables];
        proof {
            assert(entries@.skip(0) == entries@);
            assert(entries@.subrange(0, 0) =~= Seq::<EntryFragment>::empty());
            assert(self.rows@.subrange(0, self.rows@.len() as int) == self.rows@);
        }
        while i < entries.len()
            invariant
                i <= entries@.len(),
                self.wf(),
                self.rows@.len() == old(self).rows@.len() + matched_count(
                    entries@.subrange(0, i as int),
                    year@,
                ),
                found == any_in_year(entries@.subrange(0, i as int), year@),
                forall|n: nat|
                    old(self).tables.has_room(page_load(entries@, year@) + n)
                        ==> #[trigger] self.tables.has_room(page_load(entries@.skip(i as int), year@) + n),
                page_records(ws, entries@.subrange(0, i as int), year@),
                absorbed_run(*old(self), *self, ws, ts),
            decreases entries@.len() - i,
        {
            let ghost before = self.rows@;
            let ghost t_before = self.tables;
            let ghost f = entries@[i as int];
            let ghost rest = page_load(entries@.skip(i as int + 1), year@);
            proof {
                assert(entries@.skip(i as int).drop_first() == entries@.skip(i as int + 1));
                assert(entries@.skip(i as int)[0] == f);
                assert(page_load(entries@.skip(i as int), year@) == entry_load(f, year@) + rest);
                assert forall|n: nat| old(self).tables.has_room(page_load(entries@, year@) + n)
                    implies #[trigger] t_before.has_room(entry_load(f, year@) + rest + n) by {
                    assert(self.tables.has_room(page_load(entries@.skip(i as int), year@) + n));
                }
            }
            let in_year = entry_in_year(&entries[i], year);
            let outcome = self.absorb_entry(&entries[i], year);
            let ghost next = entries@.subrange(0, i as int + 1);
            proof {
                assert(next.drop_last() == entries@.subrange(0, i as int));
                assert(next.last() == f);
                if in_year {
                    assert(next[i as int] == f);
                }
                if found {
                    let j = choose|j: int| 0 <= j < i && visited_in_year(#[trigger] entries@.subrange(0, i as int)[j], year@);
                    assert(next[j] == entries@.subrange(0, i as int)[j]);
                }
                if any_in_year(next, year@) && !in_year {
                    let j = choose|j: int| 0 <= j < i + 1 && visited_in_year(#[trigger] next[j], year@);
                    assert(entries@.subrange(0, i as int)[j] == next[j]);
                }
            }
            match outcome {
                Err(e) => {
                    proof {
                        assert(page_records(ws, entries@.subrange(0, i as int), year@)
                            && absorbed_run(*old(self), *self, ws, ts));
                        assert(overflowing_entry(self.tables, entries@[i as int], year@));
                        if old(self).tables.has_room(page_load(entries@, year@)) {
                            assert(t_before.has_room(entry_load(f, year@) + rest + 0));
                            assert(t_before.has_room(entry_load(f, year@)));
                        }
                        assert forall|n: nat| old(self).tables.has_room(page_load(entries@, year@) + n)
                            implies #[trigger] self.tables.has_room(n) by {
                            assert(t_before.has_room(entry_load(f, year@) + rest + n));
                        }
                    }
                    return Err(e);
                },
                Ok(o) => {
                    proof {
                        if o == EntryOutcome::Absorbed {
                            let w = choose|w: WorkRecord|
                                #[trigger] extract_outcome(ExtractResult::Matched(w), f, year@)
                                    && AggregateTables::counted(t_before, self.tables, w)
                                    && self.rows@ == before.push(self.rows@.last())
                                    && row_of(self.rows@.last(), w);
                            assert forall|n: nat|
                                old(self).tables.has_room(page_load(entries@, year@) + n)
                                    implies #[trigger] self.tables.has_room(rest + n) by {
                                assert(t_before.has_room(entry_load(f, year@) + rest + n));
                                lemma_record_within_load(t_before, f, year@, w, rest + n);
                            }
                            lemma_extend_run(*old(self), before, t_before, *self, ws, ts, w);
                            let ws2 = ws.push(w);
                            assert(ws2.drop_last() == ws);
                            assert(ws2.last() == w);
                            ws = ws2;
                            ts = ts.push(self.tables);
                        } else {
                            assert(!(visited_in_year(f, year@) && complete_entry(f)));
                            assert forall|n: nat|
                                old(self).tables.has_room(page_load(entries@, year@) + n)
                                    implies #[trigger] self.tables.has_room(rest + n) by {
                                assert(t_before.has_room(entry_load(f, year@) + rest + n));
                            }
                        }
                    }
                },
            }
            found = found || in_year;
            i = i + 1;
        }
        proof {
            assert(entries@.subrange(0, entries@.len() as int) == entries@);
            assert(entries@.skip(entries@.len() as int) =~= Seq::<EntryFragment>::empty());
            assert forall|n: nat| old(self).tables.has_room(page_load(entries@, year@) + n)
                implies #[trigger] self.tables.has_room(n) by {
                assert(self.tables.has_room(page_load(entries@.skip(i as int), year@) + n));
            }
        }
        Ok(found)
    }
}

/// `ws` are the records that extraction makes of the accepted entries, in
/// entry order; entries it does not accept give none.
pub open spec fn page_records(ws: Seq<WorkRecord>, entries: Seq<EntryFragment>, year: Seq<char>) -> bool
    decreases entries.len(),
{
    if entries.len() == 0 {
        ws.len() == 0
    } else if visited_in_year(entries.last(), year) && complete_entry(entries.last()) {
        &&& ws.len() > 0
        &&& extract_outcome(ExtractResult::Matched(ws.last()), entries.last(), year)
        &&& page_records(ws.drop_last(), entries.drop_last(), year)
    } else {
        page_records(ws, entries.drop_last(), year)
    }
}

/// `ts[i + 1]` is `ts[i]` with record `ws[i]` counted, for every record.
pub open spec fn is_run(ts: Seq<AggregateTables>, ws: Seq<WorkRecord>) -> bool {
    &&& ts.len() == ws.len() + 1
    &&& forall|i: int| 0 <= i < ws.len() ==> AggregateTables::counted(ts[i], #[trigger] ts[i + 1], ws[i])
}

/// `new` is `old` with the records `ws` absorbed in order: the tables went
/// through the run `ts`, and one row per record was appended.
pub open spec fn absorbed_run(old: Aggregator, new: Aggregator, ws: Seq<WorkRecord>, ts: Seq<AggregateTables>) -> bool {
    &&& is_run(ts, ws)
    &&& ts[0] == old.tables
    &&& ts.last() == new.tables
    &&& new.rows@.len() == old.rows@.len() + ws.len()
    &&& new.rows@.subrange(0, old.rows@.len() as int) == old.rows@
    &&& forall|i: int| 0 <= i < ws.len() ==> row_of(new.rows@[old.rows@.len() + i], #[trigger] ws[i])
}

/// The entry is accepted and its record does not fit in the tables.
pub open spec fn overflowing_entry(t: AggregateTables, f: EntryFragment, year: Seq<char>) -> bool {
    exists|w: WorkRecord| #[trigger] extract_outcome(ExtractResult::Matched(w), f, year) && !t.fits(w)
}

proof fn lemma_extend_run(
    old: Aggregator,
    before: Seq<TabularRow>,
    t_before: AggregateTables,
    new: Aggregator,
    ws: Seq<WorkRecord>,
    ts: Seq<AggregateTables>,
    w: WorkRecord,
)
    requires
        is_run(ts, ws),
        ts[0] == old.tables,
        ts.last() == t_before,
        before.len() == old.rows@.len() + ws.len(),
        before.subrange(0, old.rows@.len() as int) == old.rows@,
        forall|i: int| 0 <= i < ws.len() ==> row_of(before[old.rows@.len() + i], #[trigger] ws[i]),
        AggregateTables::counted(t_before, new.tables, w),
        new.rows@ == before.push(new.rows@.last()),
        row_of(new.rows@.last(), w),
    ensures
        absorbed_run(old, new, ws.push(w), ts.push(new.tables)),
{
    let ws2 = ws.push(w);
    let ts2 = ts.push(new.tables);
    assert forall|i: int| 0 <= i < ws2.len() implies AggregateTables::counted(ts2[i], #[trigger] ts2[i + 1], ws2[i]) by {
        if i < ws.len() {
            assert(ts2[i] == ts[i]);
            assert(ts2[i + 1] == ts[i + 1]);
            assert(ws2[i] == ws[i]);
        } else {
            assert(ts2[i] == ts.last());
        }
    }
    assert(new.rows@.subrange(0, old.rows@.len() as int) == before.subrange(0, old.rows@.len() as int));
    assert forall|i: int| 0 <= i < ws2.len() implies row_of(new.rows@[old.rows@.len() + i], #[trigger] ws2[i]) by {
        if i < ws.len() {
            assert(ws2[i] == ws[i]);
            assert(new.rows@[old.rows@.len() + i] == before[old.rows@.len() + i]);
        }
    }
}

} // verus!
