//! Tolerant-schema table location: a table is found by the header phrases
//! its header rows contain, not by a fixed position.

use vstd::prelude::*;
use crate::text::{chars_of, has_sub, has_sub_spec};

verus! {

/// One table row as plain data: the texts of its data cells and of all
/// its cells, each whitespace-normalized.
#[derive(Debug, Clone)]
pub struct RowData {
    /// Texts of the data cells, in order.
    pub cells: Vec<String>,
    /// Texts of data and header cells together, in order; header rows are
    /// matched against these.
    pub header_cells: Vec<String>,
}

/// One table as plain data.
#[derive(Debug, Clone)]
pub struct TableData {
    /// Whether the table carries the asset-valuation class marker.
    pub rating_assets: bool,
    /// Rows, in table order.
    pub rows: Vec<RowData>,
}

/// The cell texts of a sequence of rows, data cells only.
pub open spec fn rows_cells(rows: Seq<RowData>) -> Seq<Seq<Seq<char>>> {
    rows.map_values(|r: RowData| r.cells.deep_view())
}

/// Some cell of the row contains the phrase as a substring.
pub open spec fn cell_match(row: RowData, p: Seq<char>) -> bool {
    exists|hi: int|
        0 <= hi < row.header_cells@.len() && has_sub_spec(#[trigger] row.header_cells@[hi]@, p)
}

/// A header row satisfies the required phrases: each phrase is a
/// substring of some cell of the row.
pub open spec fn row_matches_spec(row: RowData, req: Seq<Seq<char>>) -> bool {
    forall|pi: int| 0 <= pi < req.len() ==> cell_match(row, #[trigger] req[pi])
}

/// A table matches: one of its first `depth` rows satisfies every phrase.
pub open spec fn table_matches_spec(t: TableData, req: Seq<Seq<char>>, depth: int) -> bool {
    exists|ri: int| 0 <= ri < depth && ri < t.rows@.len() && row_matches_spec(
        #[trigger] t.rows@[ri],
        req,
    )
}

/// Tests whether each required phrase occurs in some cell of the row.
#[verifier::loop_isolation(false)]
fn row_matches(row: &RowData, required: &Vec<String>) -> (r: bool)
    ensures
        r == row_matches_spec(*row, required.deep_view()),
{
    let mut pi: usize = 0;
    while pi < required.len()
        invariant
            pi <= required@.len(),
            forall|p: int| 0 <= p < pi ==> cell_match(*row, #[trigger] required.deep_view()[p]),
        decreases required@.len() - pi,
    {
        let pv = chars_of(required[pi].as_str());
        proof {
            assert(pv@ == required.deep_view()[pi as int]);
        }
        let mut hi: usize = 0;
        let mut found = false;
        while hi < row.header_cells.len()
            invariant
                hi <= row.header_cells@.len(),
                found ==> cell_match(*row, pv@),
                !found ==> forall|h: int|
                    0 <= h < hi ==> !has_sub_spec(#[trigger] row.header_cells@[h]@, pv@),
            decreases row.header_cells@.len() - hi,
        {
            let cv = chars_of(row.header_cells[hi].as_str());
            if has_sub(&cv, &pv) {
                found = true;
                break;
            }
            hi += 1;
        }
        if !found {
            proof {
                assert(!cell_match(*row, required.deep_view()[pi as int]));
            }
            return false;
        }
        pi += 1;
    }
    true
}

/// Finds the first table, in document order, one of whose first
/// `custom_header_depth` (default one) rows contains an entry for every
/// required phrase; `None` when no table does.  A missing table is a
/// normal, recoverable condition for the callers.
#[verifier::loop_isolation(false)]
pub fn find_table_with_headers(
    tables: &Vec<TableData>,
    required: &Vec<String>,
    custom_header_depth: Option<u8>,
) -> (r: Option<usize>)
    ensures
        ({
            let depth = (match custom_header_depth {
                Some(d) => d,
                None => 1u8,
            }) as int;
            match r {
                Some(ti) => ti < tables@.len() && table_matches_spec(
                    tables@[ti as int],
                    required.deep_view(),
                    depth,
                ) && forall|j: int|
                    0 <= j < ti ==> !table_matches_spec(
                        #[trigger] tables@[j],
                        required.deep_view(),
                        depth,
                    ),
                None => forall|j: int|
                    0 <= j < tables@.len() ==> !table_matches_spec(
                        #[trigger] tables@[j],
                        required.deep_view(),
                        depth,
                    ),
            }
        }),
{
    let depth: u8 = match custom_header_depth {
        Some(d) => d,
        None => 1,
    };
    let mut ti: usize = 0;
    while ti < tables.len()
        invariant
            ti <= tables@.len(),
            forall|j: int|
                0 <= j < ti ==> !table_matches_spec(
                    #[trigger] tables@[j],
                    required.deep_view(),
                    depth as int,
                ),
        decreases tables@.len() - ti,
    {
        let t = &tables[ti];
        let mut ri: usize = 0;
        let mut hit = false;
        while ri < t.rows.len() && ri < depth as usize
            invariant
                ri <= t.rows@.len(),
                hit ==> table_matches_spec(tables@[ti as int], required.deep_view(), depth as int),
                !hit ==> forall|q: int|
                    0 <= q < ri ==> !row_matches_spec(#[trigger] t.rows@[q], required.deep_view()),
            decreases t.rows@.len() - ri,
        {
            if row_matches(&t.rows[ri], required) {
                hit = true;
                proof {
                    assert(table_matches_spec(
                        tables@[ti as int],
                        required.deep_view(),
                        depth as int,
                    ));
                }
                break;
            }
            ri += 1;
        }
        if hit {
            return Some(ti);
        }
        proof {
            assert(forall|q: int|
                0 <= q < depth && q < t.rows@.len() ==> !row_matches_spec(
                    #[trigger] t.rows@[q],
                    required.deep_view(),
                ));
            assert(!table_matches_spec(tables@[ti as int], required.deep_view(), depth as int));
        }
        ti += 1;
    }
    None
}

} // verus!
