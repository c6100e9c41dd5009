//! The plain-value shape of one history entry, and the record made of it.

use vstd::prelude::*;

verus! {

/// The header block of an entry: title link, author links, last-updated
/// line, fandom links and the required-tag spans, as text.
#[derive(Clone, Debug)]
pub struct HeaderFragment {
    pub title: Option<String>,
    pub authors: Vec<String>,
    pub updated: Option<String>,
    pub fandoms: Vec<String>,
    pub required_tags: Vec<String>,
}

/// The statistics block of an entry, each labelled value as text.
#[derive(Clone, Debug)]
pub struct StatsFragment {
    pub words: Option<String>,
    pub kudos: Option<String>,
    pub hits: Option<String>,
}

/// One listing entry of a history page, as the text of its parts.
#[derive(Clone, Debug)]
pub struct EntryFragment {
    /// Text of the visitation block ("Last visited: ... Visited 3 times").
    pub visited: Option<String>,
    pub header: Option<HeaderFragment>,
    pub ships: Vec<String>,
    pub characters: Vec<String>,
    pub tags: Vec<String>,
    pub stats: Option<StatsFragment>,
}

/// One accepted history entry.
#[derive(Clone, Debug)]
pub struct WorkRecord {
    pub title: String,
    pub authors: Vec<String>,
    pub last_updated: String,
    pub fandoms: Vec<String>,
    pub characters: Vec<String>,
    pub ship_types: Vec<String>,
    pub rating: String,
    pub status: String,
    pub ships: Vec<String>,
    pub tags: Vec<String>,
    pub word_count: u64,
    pub kudos: u64,
    pub hits: u64,
    pub last_visited: String,
    pub visitations: u64,
}

/// What the extractor makes of one entry.
#[derive(Clone, Debug)]
pub enum ExtractResult {
    Matched(WorkRecord),
    NotInYear,
    Skipped,
}

/// The author name that stands for a work whose author left the archive.
pub open spec fn orphan_name() -> Seq<char> {
    "orphan_account"@
}

impl WorkRecord {
    /// The orphan placeholder is never among the authors.
    pub open spec fn wf(&self) -> bool {
        forall|i: int| 0 <= i < self.authors@.len() ==> #[trigger] self.authors@[i]@ != orphan_name()
    }
}

} // verus!
