//! What the year-end report reads off the tables and the rows: rankings,
//! extremes and means.

use vstd::prelude::*;
use crate::aggregate::TabularRow;
use crate::counts::CountTable;

verus! {

/// A numeric column of the dataset.
#[derive(Clone, Copy, Debug, PartialEq, Eq, Structural)]
pub enum NumericColumn {
    WordCount,
    Kudos,
    Hits,
    Visitations,
}

/// The value of a row in a numeric column.
pub open spec fn column_value(r: TabularRow, c: NumericColumn) -> u64 {
    match c {
        NumericColumn::WordCount => r.word_count,
        NumericColumn::Kudos => r.kudos,
        NumericColumn::Hits => r.hits,
        NumericColumn::Visitations => r.user_visitations,
    }
}

/// The value of a row in a numeric column.
pub fn value_in(r: &TabularRow, c: NumericColumn) -> (v: u64)
    ensures
        v == column_value(*r, c),
{
    match c {
        NumericColumn::WordCount => r.word_count,
        NumericColumn::Kudos => r.kudos,
        NumericColumn::Hits => r.hits,
        NumericColumn::Visitations => r.user_visitations,
    }
}

/// Row `i` holds the largest value (or, with `largest` false, the smallest)
/// of the column, and no earlier row holds it.
pub open spec fn is_first_extreme(rows: Seq<TabularRow>, c: NumericColumn, largest: bool, i: int) -> bool {
    &&& 0 <= i < rows.len()
    &&& forall|j: int| 0 <= j < rows.len() ==> if largest {
        column_value(#[trigger] rows[j], c) <= column_value(rows[i], c)
    } else {
        column_value(#[trigger] rows[j], c) >= column_value(rows[i], c)
    }
    &&& forall|j: int| 0 <= j < i ==> column_value(#[trigger] rows[j], c) != column_value(rows[i], c)
}

/// The first row with the largest (or smallest) value of a column; `None`
/// for no rows.
pub fn extreme_row(rows: &Vec<TabularRow>, c: NumericColumn, largest: bool) -> (r: Option<usize>)
    ensures
        match r {
            Some(i) => is_first_extreme(rows@, c, largest, i as int),
            None => rows@.len() == 0,
        },
{
    if rows.len() == 0 {
        return None;
    }
    let mut best: usize = 0;
    let mut i: usize = 1;
    while i < rows.len()
        invariant
            1 <= i <= rows@.len(),
            best < i,
            forall|j: int| 0 <= j < i ==> if largest {
                column_value(#[trigger] rows@[j], c) <= column_value(rows@[best as int], c)
            } else {
                column_value(#[trigger] rows@[j], c) >= column_value(rows@[best as int], c)
            },
            forall|j: int| 0 <= j < best ==> column_value(#[trigger] rows@[j], c) != column_value(rows@[best as int], c),
        decreases rows@.len() - i,
    {
        let v = value_in(&rows[i], c);
        let b = value_in(&rows[best], c);
        if (largest && v > b) || (!largest && v < b) {
            best = i;
        }
        i = i + 1;
    }
    Some(best)
}

/// Sum of a column over the rows.
pub open spec fn column_sum(rows: Seq<TabularRow>, c: NumericColumn) -> nat
    decreases rows.len(),
{
    if rows.len() == 0 {
        0
    } else {
        column_sum(rows.drop_last(), c) + column_value(rows.last(), c) as nat
    }
}

/// The mean of a column, rounded down; zero for no rows.
pub fn column_mean(rows: &Vec<TabularRow>, c: NumericColumn) -> (r: u64)
    ensures
        rows@.len() == 0 ==> r == 0,
        rows@.len() > 0 ==> r as nat == column_sum(rows@, c) / rows@.len(),
{
    let mut sum: u128 = 0;
    let mut i: usize = 0;
    while i < rows.len()
        invariant
            i <= rows@.len(),
            sum as nat == column_sum(rows@.subrange(0, i as int), c),
            sum <= i as u128 * (u64::MAX as u128),
        decreases rows@.len() - i,
    {
        proof {
            let next = rows@.subrange(0, i as int + 1);
            assert(next.drop_last() == rows@.subrange(0, i as int));
            assert((i as u128 + 1) * (u64::MAX as u128) == i as u128 * (u64::MAX as u128) + u64::MAX as u128) by (nonlinear_arith);
            assert((i as int + 1) * (u64::MAX as int) <= u128::MAX) by (nonlinear_arith)
                requires i < usize::MAX;
        }
        sum = sum + value_in(&rows[i], c) as u128;
        i = i + 1;
    }
    assert(rows@.subrange(0, rows@.len() as int) == rows@);
    if rows.len() == 0 {
        0
    } else {
        let n = rows.len() as u128;
        proof {
            assert(sum / n <= u64::MAX) by (nonlinear_arith)
                requires sum <= n * (u64::MAX as u128), n > 0;
        }
        (sum / n) as u64
    }
}

/// Key and count of each pair.
pub open spec fn pair_views(v: Seq<(String, u64)>) -> Seq<(Seq<char>, u64)> {
    v.map_values(|p: (String, u64)| (p.0@, p.1))
}

/// Counts never grow along the sequence.
pub open spec fn descending(v: Seq<(Seq<char>, u64)>) -> bool {
    forall|a: int, b: int| 0 <= a < b < v.len() ==> v[a].1 >= v[b].1
}

/// `x` is an item of `b`.
pub open spec fn stands_in(x: (Seq<char>, u64), b: Seq<(Seq<char>, u64)>) -> bool {
    exists|j: int| 0 <= j < b.len() && b[j] == x
}

/// Each item of `a` stands in `b`.
pub open spec fn all_in(a: Seq<(Seq<char>, u64)>, b: Seq<(Seq<char>, u64)>) -> bool {
    forall|i: int| 0 <= i < a.len() ==> stands_in(#[trigger] a[i], b)
}

/// No key stands twice.
pub open spec fn distinct_pair_keys(v: Seq<(Seq<char>, u64)>) -> bool {
    forall|a: int, b: int| 0 <= a < b < v.len() ==> v[a].0 != v[b].0
}

/// The entries of a table, from the largest count down, each key once.
pub fn ranked(t: &CountTable) -> (r: Vec<(String, u64)>)
    requires
        t.wf(),
    ensures
        distinct_pair_keys(pair_views(r@)),
        r@.len() == t.keys().len(),
        descending(pair_views(r@)),
        all_in(pair_views(r@), t.entries_view()),
        all_in(t.entries_view(), pair_views(r@)),
{
    let ghost ev = t.entries_view();
    proof {
        t.lemma_wf_distinct();
    }
    let mut out: Vec<(String, u64)> = Vec::new();
    let ghost mut pos: Seq<int> = Seq::empty();
    let mut j: usize = 0;
    while j < t.len()
        invariant
            j <= ev.len(),
            ev == t.entries_view(),
            ev.len() == t.keys().len(),
            out@.len() == j,
            descending(pair_views(out@)),
            all_in(pair_views(out@), ev.subrange(0, j as int)),
            distinct_pair_keys(pair_views(out@)),
            t.distinct_keys(),
            pos.len() == j,
            forall|b: int| 0 <= b < j ==> 0 <= #[trigger] pos[b] < out@.len() && pair_views(out@)[pos[b]] == ev[b],
        decreases ev.len() - j,
    {
        let (k, c) = t.entry(j);
        let mut p: usize = 0;
        while p < out.len() && out[p].1 >= c
            invariant
                p <= out@.len(),
                forall|a: int| 0 <= a < p ==> (#[trigger] out@[a]).1 >= c,
            decreases out@.len() - p,
        {
            p = p + 1;
        }
        let ghost old_pv = pair_views(out@);
        let ghost x = (k@, c);
        out.insert(p, (k.clone(), c));
        proof {
            let pv = pair_views(out@);
            assert(ev[j as int] == x) by {
                assert(t.keys()[j as int] == ev[j as int].0);
            }
            assert(pv =~= old_pv.insert(p as int, x));
            assert forall|a: int, b: int| 0 <= a < b < pv.len() implies pv[a].1 >= pv[b].1 by {
                if b < p {
                } else if a < p && b == p {
                } else if a < p {
                    assert(pv[b] == old_pv[b - 1]);
                } else if a == p {
                    assert(pv[b] == old_pv[b - 1]);
                    if p < old_pv.len() {
                        assert(old_pv[p as int].1 < c);
                    }
                } else {
                    assert(pv[a] == old_pv[a - 1]);
                    assert(pv[b] == old_pv[b - 1]);
                }
            }
            let evo = ev.subrange(0, j as int);
            let evn = ev.subrange(0, j as int + 1);
            assert forall|i: int| 0 <= i < old_pv.len() implies stands_in(#[trigger] old_pv[i], evn) && old_pv[i].0 != x.0 by {
                assert(stands_in(old_pv[i], evo));
                let m = choose|m: int| 0 <= m < evo.len() && evo[m] == old_pv[i];
                assert(evn[m] == evo[m]);
                assert(t.keys()[m] == ev[m].0);
                assert(t.keys()[j as int] == ev[j as int].0);
            }
            assert forall|i: int| 0 <= i < pv.len() implies stands_in(#[trigger] pv[i], evn) by {
                if i < p {
                    assert(pv[i] == old_pv[i]);
                } else if i == p {
                    assert(pv[i] == evn[j as int]);
                } else {
                    assert(pv[i] == old_pv[i - 1]);
                }
            }
            assert forall|a: int, b: int| 0 <= a < b < pv.len() implies pv[a].0 != pv[b].0 by {
                if b < p {
                    assert(pv[a] == old_pv[a] && pv[b] == old_pv[b]);
                } else if b == p {
                    assert(pv[a] == old_pv[a]);
                } else if a < p {
                    assert(pv[a] == old_pv[a] && pv[b] == old_pv[b - 1]);
                } else if a == p {
                    assert(pv[b] == old_pv[b - 1]);
                } else {
                    assert(pv[a] == old_pv[a - 1] && pv[b] == old_pv[b - 1]);
                }
            }
            let new_pos = Seq::new(j as nat + 1, |b: int| if b == j { p as int } else if pos[b] < p { pos[b] } else { pos[b] + 1 });
            assert forall|b: int| 0 <= b < j + 1 implies 0 <= #[trigger] new_pos[b] < pv.len() && pv[new_pos[b]] == ev[b] by {
                if b < j {
                    if pos[b] < p {
                        assert(pv[pos[b]] == old_pv[pos[b]]);
                    } else {
                        assert(pv[pos[b] + 1] == old_pv[pos[b]]);
                    }
                }
            }
            pos = new_pos;
        }
        j = j + 1;
    }
    proof {
        let pv = pair_views(out@);
        assert(ev.subrange(0, j as int) == ev);
        assert forall|b: int| 0 <= b < ev.len() implies stands_in(#[trigger] ev[b], pv) by {
            assert(ev[b] == pv[pos[b]]);
        }
    }
    out
}

} // verus!
