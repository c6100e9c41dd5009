//! The entry extractor: one entry's text parts to a record.

use vstd::prelude::*;
use crate::record::{EntryFragment, ExtractResult, HeaderFragment, StatsFragment, WorkRecord, orphan_name};
use crate::text::{
    contains_seq, contains_text, first_line, first_line_of, first_word, first_word_of, parse_u64,
    remove_commas, split_pieces, split_text, starts_with, strip_prefix_text, trim_of, trim_text,
    u64_of_text, views, without_commas,
};

verus! {

/// The date part of the visitation block: after the "Last visited:" label,
/// up to the end of its line, trimmed; empty without the label.
pub open spec fn last_visited_of(block: Seq<char>) -> Seq<char> {
    let t = trim_of(block);
    let rest = if starts_with(t, "Last visited:"@) {
        t.skip("Last visited:"@.len() as int)
    } else {
        Seq::empty()
    };
    let line = match first_line_of(rest) {
        Some(l) => l,
        None => Seq::empty(),
    };
    trim_of(line)
}

/// The visit count: the first word after "Visited ", read as a positive
/// number; "once", a missing word or any other word counts as one visit.
pub open spec fn visitations_of(block: Seq<char>) -> u64 {
    let pieces = split_pieces(block, "Visited "@);
    let word = if pieces.len() > 1 {
        match first_word_of(pieces[1]) {
            Some(w) => w,
            None => "once"@,
        }
    } else {
        "once"@
    };
    visits_of_word(word)
}

/// A labelled number: thousands separators dropped; missing or unreadable
/// gives zero.
pub open spec fn number_of(t: Option<String>) -> u64 {
    match t {
        Some(s) => match u64_of_text(without_commas(s@)) {
            Some(v) => v,
            None => 0,
        },
        None => 0,
    }
}

pub open spec fn words_of(s: Option<StatsFragment>) -> u64 {
    match s {
        Some(st) => number_of(st.words),
        None => 0,
    }
}

pub open spec fn kudos_of(s: Option<StatsFragment>) -> u64 {
    match s {
        Some(st) => number_of(st.kudos),
        None => 0,
    }
}

pub open spec fn hits_of(s: Option<StatsFragment>) -> u64 {
    match s {
        Some(st) => number_of(st.hits),
        None => 0,
    }
}

/// The names in order, the orphan placeholder left out.
pub open spec fn without_orphans(s: Seq<Seq<char>>) -> Seq<Seq<char>>
    decreases s.len(),
{
    if s.len() == 0 {
        s
    } else if s.last() == orphan_name() {
        without_orphans(s.drop_last())
    } else {
        without_orphans(s.drop_last()).push(s.last())
    }
}

/// Leaving out the placeholder never lengthens a list.
pub proof fn lemma_without_orphans_len(s: Seq<Seq<char>>)
    ensures
        without_orphans(s).len() <= s.len(),
    decreases s.len(),
{
    if s.len() > 0 {
        lemma_without_orphans_len(s.drop_last());
    }
}

/// The entry was visited in the target year.
pub open spec fn visited_in_year(f: EntryFragment, year: Seq<char>) -> bool {
    f.visited is Some && contains_seq(last_visited_of(f.visited->0@), year)
}

/// The entry has a header with a title and all four required tags.
pub open spec fn complete_entry(f: EntryFragment) -> bool {
    f.header is Some && f.header->0.title is Some && f.header->0.required_tags@.len() >= 4
}

/// `w` is the record that the entry `f` describes, given the date part
/// `last` and the visit count `visits` of its visitation block.
pub open spec fn record_given(w: WorkRecord, f: EntryFragment, last: Seq<char>, visits: u64) -> bool {
    let h = f.header->0;
    &&& w.title@ == h.title->0@
    &&& views(w.authors@) == without_orphans(views(h.authors@))
    &&& w.last_updated@ == match h.updated {
        Some(u) => u@,
        None => Seq::empty(),
    }
    &&& views(w.fandoms@) == views(h.fandoms@)
    &&& w.rating@ == h.required_tags@[0]@
    &&& views(w.ship_types@) == split_pieces(h.required_tags@[2]@, ", "@)
    &&& w.status@ == h.required_tags@[3]@
    &&& views(w.ships@) == views(f.ships@)
    &&& views(w.characters@) == views(f.characters@)
    &&& views(w.tags@) == views(f.tags@)
    &&& w.word_count == words_of(f.stats)
    &&& w.kudos == kudos_of(f.stats)
    &&& w.hits == hits_of(f.stats)
    &&& w.last_visited@ == last
    &&& w.visitations == visits
}

/// `w` is the record that the entry `f` describes.
pub open spec fn record_of(w: WorkRecord, f: EntryFragment) -> bool {
    record_given(w, f, last_visited_of(f.visited->0@), visitations_of(f.visited->0@))
}

/// What extraction gives for an entry whose visitation block has the date
/// part `last` and the visit count `visits`.
pub open spec fn outcome_given(
    r: ExtractResult,
    f: EntryFragment,
    last: Seq<char>,
    visits: u64,
    year: Seq<char>,
) -> bool {
    if !contains_seq(last, year) {
        r is NotInYear
    } else if !complete_entry(f) {
        r is Skipped
    } else {
        match r {
            ExtractResult::Matched(w) => record_given(w, f, last, visits) && w.wf(),
            _ => false,
        }
    }
}

/// What extraction gives for an entry and a target year.
pub open spec fn extract_outcome(r: ExtractResult, f: EntryFragment, year: Seq<char>) -> bool {
    if f.visited is None {
        r is Skipped
    } else {
        outcome_given(r, f, last_visited_of(f.visited->0@), visitations_of(f.visited->0@), year)
    }
}

/// The date part of a visitation block.
pub fn last_visited(block: &str) -> (r: String)
    ensures
        r@ == last_visited_of(block@),
{
    let t = trim_text(block);
    let rest = match strip_prefix_text(t.as_str(), "Last visited:") {
        Some(s) => s,
        None => String::new(),
    };
    let line = match first_line(rest.as_str()) {
        Some(l) => l,
        None => String::new(),
    };
    trim_text(line.as_str())
}

/// The visit count of a visitation block.
pub fn visitations(block: &str) -> (r: u64)
    ensures
        r == visitations_of(block@),
{
    let pieces = split_text(block, "Visited ");
    let word = if pieces.len() > 1 {
        match first_word(pieces[1].as_str()) {
            Some(w) => w,
            None => String::from_str("once"),
        }
    } else {
        String::from_str("once")
    };
    proof {
        assert(views(pieces@).len() == pieces@.len());
        if pieces@.len() > 1 {
            assert(views(pieces@)[1] == pieces@[1]@);
        }
    }
    visits_from_word(word.as_str())
}

/// The visit count written by one word: its number when that is positive,
/// else one ("once", zero, or any word that is no number).
pub open spec fn visits_of_word(word: Seq<char>) -> u64 {
    match u64_of_text(word) {
        Some(v) => if v > 0 { v } else { 1 },
        None => 1,
    }
}

/// The visit count written by one word.
pub fn visits_from_word(word: &str) -> (r: u64)
    ensures
        r == visits_of_word(word@),
{
    match parse_u64(word) {
        Some(v) => if v > 0 { v } else { 1 },
        None => 1,
    }
}

/// Whether the entry was visited in the target year.
pub fn entry_in_year(f: &EntryFragment, year: &str) -> (r: bool)
    ensures
        r == visited_in_year(*f, year@),
{
    match &f.visited {
        Some(b) => {
            let last = last_visited(b.as_str());
            contains_text(last.as_str(), year)
        },
        None => false,
    }
}

/// A labelled number with its thousands separators.
pub fn number(t: &Option<String>) -> (r: u64)
    ensures
        r == number_of(*t),
{
    match t {
        Some(s) => {
            let digits = remove_commas(s.as_str());
            match parse_u64(digits.as_str()) {
                Some(v) => v,
                None => 0,
            }
        },
        None => 0,
    }
}

/// The authors in order, without the orphan placeholder.
pub fn named_authors(authors: &Vec<String>) -> (r: Vec<String>)
    ensures
        views(r@) == without_orphans(views(authors@)),
        forall|i: int| 0 <= i < r@.len() ==> #[trigger] r@[i]@ != orphan_name(),
{
    let orphan = String::from_str("orphan_account");
    let mut out: Vec<String> = Vec::new();
    let mut i: usize = 0;
    while i < authors.len()
        invariant
            i <= authors@.len(),
            orphan@ == orphan_name(),
            views(out@) == without_orphans(views(authors@.subrange(0, i as int))),
            forall|j: int| 0 <= j < out@.len() ==> #[trigger] out@[j]@ != orphan_name(),
        decreases authors@.len() - i,
    {
        proof {
            let next = authors@.subrange(0, i as int + 1);
            assert(views(next).drop_last() == views(authors@.subrange(0, i as int)));
            assert(views(next).last() == authors@[i as int]@);
        }
        if authors[i] != orphan {
            let a = authors[i].clone();
            out.push(a);
            proof {
                assert(views(out@) == views(out@.drop_last()).push(a@));
            }
        }
        i = i + 1;
    }
    assert(authors@.subrange(0, authors@.len() as int) == authors@);
    out
}

/// Turns one entry into a record when it was visited in the target year and
/// carries a title and all four required tags.
pub fn extract(f: &EntryFragment, year: &str) -> (r: ExtractResult)
    ensures
        extract_outcome(r, *f, year@),
{
    match &f.visited {
        Some(b) => {
            let last = last_visited(b.as_str());
            let visits = visitations(b.as_str());
            extract_given(f, last, visits, year)
        },
        None => ExtractResult::Skipped,
    }
}

/// Extraction once the date part and the visit count of the visitation
/// block are known.
pub fn extract_given(f: &EntryFragment, last: String, visits: u64, year: &str) -> (r: ExtractResult)
    ensures
        outcome_given(r, *f, last@, visits, year@),
{
    if !contains_text(last.as_str(), year) {
        return ExtractResult::NotInYear;
    }
    let h: &HeaderFragment = match &f.header {
        Some(h) => h,
        None => return ExtractResult::Skipped,
    };
    let title = match &h.title {
        Some(t) => t.clone(),
        None => return ExtractResult::Skipped,
    };
    if h.required_tags.len() < 4 {
        return ExtractResult::Skipped;
    }
    let updated = match &h.updated {
        Some(u) => u.clone(),
        None => String::new(),
    };
    let (word_count, kudos, hits) = match &f.stats {
        Some(st) => (number(&st.words), number(&st.kudos), number(&st.hits)),
        None => (0, 0, 0),
    };
    let w = WorkRecord {
        title,
        authors: named_authors(&h.authors),
        last_updated: updated,
        fandoms: copy_all(&h.fandoms),
        characters: copy_all(&f.characters),
        ship_types: split_text(h.required_tags[2].as_str(), ", "),
        rating: h.required_tags[0].clone(),
        status: h.required_tags[3].clone(),
        ships: copy_all(&f.ships),
        tags: copy_all(&f.tags),
        word_count,
        kudos,
        hits,
        last_visited: last,
        visitations: visits,
    };
    ExtractResult::Matched(w)
}

/// A copy of a list of texts.
pub fn copy_all(v: &Vec<String>) -> (r: Vec<String>)
    ensures
        views(r@) == views(v@),
{
    let mut out: Vec<String> = Vec::new();
    let mut i: usize = 0;
    while i < v.len()
        invariant
            i <= v@.len(),
            out@.len() == i,
            forall|j: int| 0 <= j < i ==> #[trigger] out@[j]@ == v@[j]@,
        decreases v@.len() - i,
    {
        out.push(v[i].clone());
        i = i + 1;
    }
    assert(views(out@) =~= views(v@));
    out
}

} // verus!
