//! Sets of statements and their cross-document aggregation.

use vstd::prelude::*;
use crate::error::ReportError;
use crate::money::{sum_ints, sum_money};
use crate::report::Report;
use crate::types::{
    AccountId, CashFlowKind, CashFlowRow, CashFlowSummary, kind_rank, kind_rank_spec,
    MergedPosition, PortfolioMarket, SecurityPosition,
};

verus! {

/// Strict lexicographic order on character sequences, by code point.
pub open spec fn seq_lt(a: Seq<char>, b: Seq<char>) -> bool
    decreases a.len(),
{
    if b.len() == 0 {
        false
    } else if a.len() == 0 {
        true
    } else if a[0] != b[0] {
        (a[0] as u32) < (b[0] as u32)
    } else {
        seq_lt(a.drop_first(), b.drop_first())
    }
}

/// Lexicographic order is transitive.
pub proof fn lemma_seq_lt_trans(a: Seq<char>, b: Seq<char>, c: Seq<char>)
    requires
        seq_lt(a, b),
        seq_lt(b, c),
    ensures
        seq_lt(a, c),
    decreases a.len() + b.len() + c.len(),
{
    if a.len() == 0 {
    } else {
        if a[0] == b[0] && b[0] == c[0] {
            lemma_seq_lt_trans(a.drop_first(), b.drop_first(), c.drop_first());
        }
    }
}

/// Exactly one of `a < b`, `b < a`, `a == b` holds.
pub proof fn lemma_seq_lt_trichotomy(a: Seq<char>, b: Seq<char>)
    ensures
        seq_lt(a, b) || seq_lt(b, a) || a == b,
        seq_lt(a, b) ==> !seq_lt(b, a) && a != b,
        seq_lt(b, a) ==> !seq_lt(a, b) && a != b,
    decreases a.len() + b.len(),
{
    if a.len() == 0 {
        if b.len() == 0 {
            assert(a =~= b);
        } else {
            assert(seq_lt(a, b));
        }
    } else if b.len() == 0 {
        assert(seq_lt(b, a));
    } else {
        lemma_seq_lt_trichotomy(a.drop_first(), b.drop_first());
        if a[0] != b[0] {
            vstd::utf8::char_u32_cast(a[0], a[0] as u32);
            vstd::utf8::char_u32_cast(b[0], b[0] as u32);
            assert((a[0] as u32) != (b[0] as u32));
        } else if a.drop_first() == b.drop_first() {
            assert forall|i: int| 0 <= i < a.len() implies a[i] == b[i] by {
                if i > 0 {
                    assert(a[i] == a.drop_first()[i - 1]);
                    assert(b[i] == b.drop_first()[i - 1]);
                }
            }
            assert(a =~= b);
        }
    }
}

/// Compares two character vectors lexicographically.
#[verifier::loop_isolation(false)]
fn chars_lt(a: &Vec<char>, b: &Vec<char>) -> (r: bool)
    ensures
        r == seq_lt(a@, b@),
{
    let n = if a.len() < b.len() {
        a.len()
    } else {
        b.len()
    };
    let mut i: usize = 0;
    proof {
        assert(a@.skip(0) =~= a@);
        assert(b@.skip(0) =~= b@);
    }
    while i < n
        invariant
            i <= n,
            forall|j: int| 0 <= j < i ==> a@[j] == b@[j],
            seq_lt(a@, b@) == seq_lt(a@.skip(i as int), b@.skip(i as int)),
        decreases n - i,
    {
        proof {
            assert(a@.skip(i as int)[0] == a@[i as int]);
            assert(b@.skip(i as int)[0] == b@[i as int]);
            assert(a@.skip(i as int).drop_first() =~= a@.skip(i + 1 as int));
            assert(b@.skip(i as int).drop_first() =~= b@.skip(i + 1 as int));
        }
        if a[i] != b[i] {
            return (a[i] as u32) < (b[i] as u32);
        }
        i += 1;
    }
    proof {
        if a@.len() < b@.len() {
            assert(a@.skip(i as int).len() == 0);
            assert(b@.skip(i as int).len() > 0);
        } else if a@.len() > b@.len() {
            assert(b@.skip(i as int).len() == 0);
        } else {
            assert(a@.skip(i as int).len() == 0);
            assert(b@.skip(i as int).len() == 0);
        }
    }
    a.len() < b.len()
}

/// A row matches a grouping key.
pub open spec fn cf_key_match(r: CashFlowRow, k: CashFlowKind, c: Seq<char>) -> bool {
    r.kind == k && r.currency@ == c
}

/// The cash-flow rows of one statement, or none.
pub open spec fn report_cf_rows(r: Report) -> Seq<CashFlowRow> {
    match r.cash_flow_summary {
        Some(s) => s.rows@,
        None => Seq::empty(),
    }
}

/// All cash-flow rows of a set of statements, in order.
pub open spec fn all_cf_rows(reports: Seq<Report>) -> Seq<CashFlowRow>
    decreases reports.len(),
{
    if reports.len() == 0 {
        Seq::empty()
    } else {
        all_cf_rows(reports.drop_last()) + report_cf_rows(reports.last())
    }
}

/// The rows carrying one key, in encounter order.
pub open spec fn cf_sel(rows: Seq<CashFlowRow>, k: CashFlowKind, c: Seq<char>) -> Seq<
    CashFlowRow,
>
    decreases rows.len(),
{
    if rows.len() == 0 {
        Seq::empty()
    } else if cf_key_match(rows.last(), k, c) {
        cf_sel(rows.drop_last(), k, c).push(rows.last())
    } else {
        cf_sel(rows.drop_last(), k, c)
    }
}

/// The amounts carried by one key, in encounter order.
pub open spec fn cf_amounts(rows: Seq<CashFlowRow>, k: CashFlowKind, c: Seq<char>) -> Seq<int> {
    cf_sel(rows, k, c).map_values(|r: CashFlowRow| r.amount.scaled as int)
}

/// Whether any row carries the key.
pub open spec fn cf_present(rows: Seq<CashFlowRow>, k: CashFlowKind, c: Seq<char>) -> bool {
    cf_sel(rows, k, c).len() > 0
}

/// The checked grouped sum of one key.
pub open spec fn cf_group_sum(rows: Seq<CashFlowRow>, k: CashFlowKind, c: Seq<char>) -> Option<
    int,
> {
    sum_money(cf_amounts(rows, k, c))
}

/// The description of the first row carrying the key.
pub open spec fn cf_first_desc(rows: Seq<CashFlowRow>, k: CashFlowKind, c: Seq<char>) -> Seq<
    char,
> {
    cf_sel(rows, k, c)[0].description_raw@
}

/// Strict order on grouped rows: by kind, then by currency.
pub open spec fn cf_row_lt(a: CashFlowRow, b: CashFlowRow) -> bool {
    kind_rank_spec(a.kind) < kind_rank_spec(b.kind) || (kind_rank_spec(a.kind) == kind_rank_spec(
        b.kind,
    ) && seq_lt(a.currency@, b.currency@))
}

/// Selection distributes over concatenation.
proof fn lemma_cf_sel_append(x: Seq<CashFlowRow>, y: Seq<CashFlowRow>, k: CashFlowKind, c: Seq<
    char,
>)
    ensures
        cf_sel(x + y, k, c) == cf_sel(x, k, c) + cf_sel(y, k, c),
    decreases y.len(),
{
    if y.len() == 0 {
        assert(x + y =~= x);
        assert(cf_sel(x, k, c) + cf_sel(y, k, c) =~= cf_sel(x, k, c));
    } else {
        lemma_cf_sel_append(x, y.drop_last(), k, c);
        assert((x + y).drop_last() =~= x + y.drop_last());
        assert((x + y).last() == y.last());
        if cf_key_match(y.last(), k, c) {
            assert(cf_sel(x, k, c) + cf_sel(y.drop_last(), k, c).push(y.last()) =~= (cf_sel(
                x,
                k,
                c,
            ) + cf_sel(y.drop_last(), k, c)).push(y.last()));
        }
    }
}

/// Plain sums add over concatenation.
proof fn lemma_sum_ints_append(x: Seq<int>, y: Seq<int>)
    ensures
        sum_ints(x + y) == sum_ints(x) + sum_ints(y),
    decreases y.len(),
{
    if y.len() == 0 {
        assert(x + y =~= x);
    } else {
        lemma_sum_ints_append(x, y.drop_last());
        assert((x + y).drop_last() =~= x + y.drop_last());
        assert((x + y).last() == y.last());
    }
}

/// A new row leaves every other key's selection unchanged.
proof fn lemma_cf_step_other_key(prefix: Seq<CashFlowRow>, row: CashFlowRow, k: CashFlowKind, c: Seq<char>)
    requires
        !cf_key_match(row, k, c),
    ensures
        cf_sel(prefix.push(row), k, c) == cf_sel(prefix, k, c),
        cf_present(prefix.push(row), k, c) == cf_present(prefix, k, c),
        cf_group_sum(prefix.push(row), k, c) == cf_group_sum(prefix, k, c),
        cf_first_desc(prefix.push(row), k, c) == cf_first_desc(prefix, k, c),
{
    assert(prefix.push(row).drop_last() =~= prefix);
    assert(prefix.push(row).last() == row);
}

/// A new row extends its own key's selection at the end: the grouped sum
/// grows by its amount and the first description stays, or is set by the
/// very first row of the key.
proof fn lemma_cf_step_same_key(prefix: Seq<CashFlowRow>, row: CashFlowRow, k: CashFlowKind, c: Seq<char>)
    requires
        cf_key_match(row, k, c),
    ensures
        cf_sel(prefix.push(row), k, c) == cf_sel(prefix, k, c).push(row),
        cf_present(prefix.push(row), k, c),
        cf_amounts(prefix.push(row), k, c) == cf_amounts(prefix, k, c).push(
            row.amount.scaled as int,
        ),
        cf_group_sum(prefix.push(row), k, c) == (match cf_group_sum(prefix, k, c) {
            None => None,
            Some(a) => if i128::MIN <= a + row.amount.scaled <= i128::MAX {
                Some(a + row.amount.scaled)
            } else {
                None
            },
        }),
        cf_present(prefix, k, c) ==> cf_first_desc(prefix.push(row), k, c) == cf_first_desc(
            prefix,
            k,
            c,
        ),
        !cf_present(prefix, k, c) ==> cf_first_desc(prefix.push(row), k, c)
            == row.description_raw@ && cf_group_sum(prefix.push(row), k, c) == Some(
            row.amount.scaled as int,
        ),
{
    assert(prefix.push(row).drop_last() =~= prefix);
    assert(prefix.push(row).last() == row);
    assert(cf_sel(prefix.push(row), k, c) == cf_sel(prefix, k, c).push(row));
    assert(cf_amounts(prefix.push(row), k, c) =~= cf_amounts(prefix, k, c).push(
        row.amount.scaled as int,
    ));
    assert(cf_amounts(prefix.push(row), k, c).drop_last() =~= cf_amounts(prefix, k, c));
    if !cf_present(prefix, k, c) {
        assert(cf_amounts(prefix, k, c) =~= Seq::<int>::empty());
        assert(cf_sel(prefix.push(row), k, c)[0] == row);
    } else {
        assert(cf_sel(prefix.push(row), k, c)[0] == cf_sel(prefix, k, c)[0]);
    }
}

/// A set of statements with read-only aggregation views.
#[derive(Debug, Clone)]
pub struct ReportSet {
    /// The collected statements.
    pub reports: Vec<Report>,
}

impl Default for ReportSet {
    /// The empty set.
    fn default() -> (r: ReportSet)
        ensures
            r.reports@.len() == 0,
    {
        ReportSet { reports: Vec::new() }
    }
}

impl ReportSet {
    /// Wraps an already-collected batch of statements.
    pub fn from_reports(reports: Vec<Report>) -> (r: ReportSet)
        ensures
            r.reports == reports,
    {
        ReportSet { reports }
    }

    /// The statements of one account, in set order.
    pub fn by_account(&self, id: &AccountId) -> (r: Vec<usize>)
        ensures
            forall|i: int| 0 <= i < r@.len() ==> r@[i] < self.reports@.len(),
            forall|i: int|
                0 <= i < r@.len() ==> self.reports@[#[trigger] r@[i] as int].meta.account_id.0@
                    == id.0@,
            forall|j: int|
                0 <= j < self.reports@.len() && self.reports@[j].meta.account_id.0@ == id.0@
                    ==> r@.contains(j as usize),
            forall|i: int, j: int| 0 <= i < j < r@.len() ==> r@[i] < r@[j],
    {
        let mut out: Vec<usize> = Vec::new();
        let mut i: usize = 0;
        while i < self.reports.len()
            invariant
                i <= self.reports@.len(),
                forall|p: int| 0 <= p < out@.len() ==> out@[p] < i,
                forall|p: int|
                    0 <= p < out@.len() ==> self.reports@[#[trigger] out@[p] as int].meta
                        .account_id.0@ == id.0@,
                forall|j: int|
                    0 <= j < i && self.reports@[j].meta.account_id.0@ == id.0@ ==> out@.contains(
                        j as usize,
                    ),
                forall|p: int, q: int| 0 <= p < q < out@.len() ==> out@[p] < out@[q],
            decreases self.reports@.len() - i,
        {
            let ghost old_out = out@;
            if crate::text::str_eq(self.reports[i].meta.account_id.0.as_str(), id.0.as_str()) {
                out.push(i);
            }
            proof {
                assert forall|j: int|
                    0 <= j < i + 1 && self.reports@[j].meta.account_id.0@ == id.0@
                        implies out@.contains(j as usize) by {
                    if j < i {
                        let w = choose|w: int| 0 <= w < old_out.len() && old_out[w] == (
                        j as usize);
                        assert(out@[w] == j as usize);
                    } else {
                        assert(out@.last() == i as usize);
                    }
                }
            }
            i += 1;
        }
        out
    }

    /// Flattens the cash-flow rows of every statement, in set order.
    #[verifier::loop_isolation(false)]
    fn flatten_cf_rows(&self) -> (r: Vec<CashFlowRow>)
        ensures
            r@ == all_cf_rows(self.reports@),
    {
        let mut flat: Vec<CashFlowRow> = Vec::new();
        proof {
            assert(flat@ =~= all_cf_rows(self.reports@.take(0)));
        }
        let mut ri: usize = 0;
        while ri < self.reports.len()
            invariant
                ri <= self.reports@.len(),
                flat@ == all_cf_rows(self.reports@.take(ri as int)),
            decreases self.reports@.len() - ri,
        {
            proof {
                assert(self.reports@.take(ri + 1 as int).drop_last() =~= self.reports@.take(
                    ri as int,
                ));
                assert(self.reports@.take(ri + 1 as int).last() == self.reports@[ri as int]);
            }
            match &self.reports[ri].cash_flow_summary {
                None => {
                    proof {
                        assert(flat@ + report_cf_rows(self.reports@[ri as int]) =~= flat@);
                    }
                },
                Some(s) => {
                    let ghost before = flat@;
                    let mut wi: usize = 0;
                    while wi < s.rows.len()
                        invariant
                            wi <= s.rows@.len(),
                            flat@ == before + s.rows@.take(wi as int),
                        decreases s.rows@.len() - wi,
                    {
                        let row = &s.rows[wi];
                        let copy = CashFlowRow {
                            kind: row.kind,
                            description_raw: row.description_raw.clone(),
                            amount: row.amount,
                            currency: row.currency.clone(),
                        };
                        proof {
                            assert(copy == s.rows@[wi as int]);
                            assert(s.rows@.take(wi + 1 as int) =~= s.rows@.take(wi as int).push(
                                s.rows@[wi as int],
                            ));
                            assert(before + s.rows@.take(wi + 1 as int) =~= (before
                                + s.rows@.take(wi as int)).push(s.rows@[wi as int]));
                        }
                        flat.push(copy);
                        wi += 1;
                    }
                    proof {
                        assert(s.rows@.take(s.rows@.len() as int) =~= s.rows@);
                    }
                },
            }
            ri += 1;
        }
        proof {
            assert(self.reports@.take(self.reports@.len() as int) =~= self.reports@);
        }
        flat
    }

    /// Merges the cash-flow summaries of all statements: rows are grouped
    /// by kind and currency, amounts are summed exactly within each
    /// group, the description of a group is that of its first row, and
    /// the output is ordered by kind, then currency.  A grouped sum that
    /// leaves the representation is an error, never rounded.
    #[verifier::loop_isolation(false)]
    #[verifier::rlimit(100)]
    pub fn merge_cash_flows(&self) -> (r: Result<CashFlowSummary, ReportError>)
        ensures
            ({
                let rows = all_cf_rows(self.reports@);
                match r {
                    Ok(out) => (forall|i: int|
                        0 <= i < out.rows@.len() ==> cf_present(
                            rows,
                            #[trigger] out.rows@[i].kind,
                            out.rows@[i].currency@,
                        ) && cf_group_sum(rows, out.rows@[i].kind, out.rows@[i].currency@)
                            == Some(out.rows@[i].amount.scaled as int) && out.rows@[i]
                            .description_raw@ == cf_first_desc(
                            rows,
                            out.rows@[i].kind,
                            out.rows@[i].currency@,
                        )) && (forall|k: CashFlowKind, c: Seq<char>|
                        cf_present(rows, k, c) ==> exists|i: int|
                            0 <= i < out.rows@.len() && #[trigger] cf_key_match(
                                out.rows@[i],
                                k,
                                c,
                            )) && (forall|i: int, j: int|
                        0 <= i < j < out.rows@.len() ==> cf_row_lt(
                            #[trigger] out.rows@[i],
                            #[trigger] out.rows@[j],
                        )),
                    Err(_) => exists|k: CashFlowKind, c: Seq<char>|
                        #[trigger] cf_present(rows, k, c) && cf_group_sum(rows, k, c) is None,
                }
            }),
    {
        let flat = self.flatten_cf_rows();
        let ghost rows = all_cf_rows(self.reports@);
        let mut out: Vec<CashFlowRow> = Vec::new();
        let mut t: usize = 0;
        while t < flat.len()
            invariant
                t <= flat@.len(),
                rows == flat@,
                forall|i: int|
                    0 <= i < out@.len() ==> cf_present(
                        flat@.take(t as int),
                        #[trigger] out@[i].kind,
                        out@[i].currency@,
                    ) && cf_group_sum(flat@.take(t as int), out@[i].kind, out@[i].currency@)
                        == Some(out@[i].amount.scaled as int) && out@[i].description_raw@
                        == cf_first_desc(flat@.take(t as int), out@[i].kind, out@[i].currency@),
                forall|k: CashFlowKind, c: Seq<char>|
                    cf_present(flat@.take(t as int), k, c) ==> exists|i: int|
                        0 <= i < out@.len() && #[trigger] cf_key_match(out@[i], k, c),
                forall|i: int, j: int|
                    0 <= i < j < out@.len() ==> cf_row_lt(
                        #[trigger] out@[i],
                        #[trigger] out@[j],
                    ),
            decreases flat@.len() - t,
        {
            let row = &flat[t];
            let ghost prefix = flat@.take(t as int);
            let ghost prefix2 = flat@.take(t + 1 as int);
            let ghost rk = flat@[t as int].kind;
            let ghost rc = flat@[t as int].currency@;
            proof {
                assert(prefix2 =~= prefix.push(flat@[t as int]));
            }
            // Look for an existing group with this row's key.
            let mut gi: usize = 0;
            let mut found = false;
            while gi < out.len() && !found
                invariant
                    gi <= out@.len(),
                    found ==> gi < out@.len() && cf_key_match(out@[gi as int], rk, rc),
                    !found ==> forall|p: int|
                        0 <= p < gi ==> !cf_key_match(#[trigger] out@[p], rk, rc),
                decreases out@.len() - gi + (if found { 0int } else { 1int }),
            {
                if kind_rank(out[gi].kind) == kind_rank(row.kind) && crate::text::str_eq(
                    out[gi].currency.as_str(),
                    row.currency.as_str(),
                ) {
                    proof {
                        lemma_kind_rank_injective(out@[gi as int].kind, rk);
                    }
                    found = true;
                } else {
                    gi += 1;
                }
            }
            let ghost oldout = out@;
            if found {
                let old_g = out.remove(gi);
                let added = match old_g.amount.checked_add(flat[t].amount) {
                    Some(m) => m,
                    None => {
                        proof {
                            assert(old_g == oldout[gi as int]);
                            lemma_cf_step_same_key(prefix, flat@[t as int], rk, rc);
                            assert(cf_group_sum(prefix, rk, rc) == Some(
                                oldout[gi as int].amount.scaled as int,
                            ));
                            assert(cf_group_sum(prefix2, rk, rc) is None);
                            lemma_cf_sum_prefix_none(flat@, t + 1 as int, rk, rc);
                            lemma_cf_sel_prefix_present(flat@, t + 1 as int, rk, rc);
                        }
                        return Err(
                            ReportError::Number {
                                value: String::new(),
                                column: "Сумма ДС",
                            },
                        );
                    },
                };
                let new_g = CashFlowRow {
                    kind: old_g.kind,
                    description_raw: old_g.description_raw,
                    amount: added,
                    currency: old_g.currency,
                };
                out.insert(gi, new_g);
                proof {
                    assert(old_g == oldout[gi as int]);
                    assert(out@ =~= oldout.update(gi as int, new_g));
                    assert(out@[gi as int] == new_g);
                    assert(forall|w: int|
                        0 <= w < out@.len() ==> #[trigger] out@[w].kind == oldout[w].kind
                            && out@[w].currency@ == oldout[w].currency@ && out@[w]
                            .description_raw@ == oldout[w].description_raw@);
                    lemma_cf_step_same_key(prefix, flat@[t as int], rk, rc);
                    // Sorted pairs: keys per position are unchanged.
                    assert forall|i: int, j: int| 0 <= i < j < out@.len() implies cf_row_lt(
                        #[trigger] out@[i],
                        #[trigger] out@[j],
                    ) by {
                        assert(cf_row_lt(oldout[i], oldout[j]));
                    }
                    // Per-group clauses.
                    assert forall|i: int| 0 <= i < out@.len() implies cf_present(
                        prefix2,
                        #[trigger] out@[i].kind,
                        out@[i].currency@,
                    ) && cf_group_sum(prefix2, out@[i].kind, out@[i].currency@) == Some(
                        out@[i].amount.scaled as int,
                    ) && out@[i].description_raw@ == cf_first_desc(
                        prefix2,
                        out@[i].kind,
                        out@[i].currency@,
                    ) by {
                        if i == gi {
                            assert(cf_present(prefix, rk, rc));
                            assert(cf_group_sum(prefix, rk, rc) == Some(
                                oldout[gi as int].amount.scaled as int,
                            ));
                        } else {
                            assert(out@[i] == oldout[i]);
                            if i < gi {
                                assert(cf_row_lt(oldout[i], oldout[gi as int]));
                            } else {
                                assert(cf_row_lt(oldout[gi as int], oldout[i]));
                            }
                            lemma_seq_lt_trichotomy(oldout[i].currency@, rc);
                            lemma_kind_rank_injective(oldout[i].kind, rk);
                            assert(!cf_key_match(flat@[t as int], oldout[i].kind, oldout[i]
                                .currency@));
                            lemma_cf_step_other_key(
                                prefix,
                                flat@[t as int],
                                oldout[i].kind,
                                oldout[i].currency@,
                            );
                        }
                    }
                    // Every key of the longer prefix has a group.
                    assert forall|k: CashFlowKind, c: Seq<char>| cf_present(
                        prefix2,
                        k,
                        c,
                    ) implies exists|i: int|
                        0 <= i < out@.len() && #[trigger] cf_key_match(out@[i], k, c) by {
                        if cf_key_match(flat@[t as int], k, c) {
                            assert(cf_key_match(out@[gi as int], k, c));
                        } else {
                            lemma_cf_step_other_key(prefix, flat@[t as int], k, c);
                            assert(cf_present(flat@.take(t as int), k, c));
                            let w = choose|i: int|
                                0 <= i < oldout.len() && #[trigger] cf_key_match(
                                    oldout[i],
                                    k,
                                    c,
                                );
                            assert(cf_key_match(out@[w], k, c));
                        }
                    }
                }
            } else {
                // No group yet: insert at the sorted position.
                let mut pos: usize = 0;
                while pos < out.len() && cf_lt_exec(&out[pos], row)
                    invariant
                        pos <= out@.len(),
                        forall|p: int|
                            0 <= p < pos ==> cf_row_lt(#[trigger] out@[p], flat@[t as int]),
                    decreases out@.len() - pos,
                {
                    pos += 1;
                }
                let copy = CashFlowRow {
                    kind: row.kind,
                    description_raw: row.description_raw.clone(),
                    amount: row.amount,
                    currency: row.currency.clone(),
                };
                proof {
                    assert(copy == flat@[t as int]);
                    if pos < out@.len() {
                        lemma_seq_lt_trichotomy(oldout[pos as int].currency@, rc);
                        lemma_kind_rank_injective(oldout[pos as int].kind, rk);
                        assert(!cf_key_match(oldout[pos as int], rk, rc));
                        assert(cf_row_lt(flat@[t as int], oldout[pos as int]));
                    }
                    // The key is new: its selection over the old prefix is empty.
                    if cf_present(prefix, rk, rc) {
                        let w = choose|i: int|
                            0 <= i < oldout.len() && #[trigger] cf_key_match(oldout[i], rk, rc);
                        assert(false);
                    }
                }
                out.insert(pos, copy);
                proof {
                    assert(out@ =~= oldout.insert(pos as int, copy));
                    assert(out@[pos as int] == flat@[t as int]);
                    assert(forall|p: int| 0 <= p < pos ==> #[trigger] out@[p] == oldout[p]);
                    assert(forall|p: int|
                        pos < p < out@.len() ==> #[trigger] out@[p] == oldout[p - 1]);
                    lemma_cf_step_same_key(prefix, flat@[t as int], rk, rc);
                    // The key is new: its selection over the old prefix is empty.
                    assert(!cf_present(prefix, rk, rc)) by {
                        if cf_present(prefix, rk, rc) {
                            let w = choose|i: int|
                                0 <= i < oldout.len() && #[trigger] cf_key_match(
                                    oldout[i],
                                    rk,
                                    rc,
                                );
                            assert(false);
                        }
                    }
                    // Sortedness with the new element in place.
                    assert forall|i: int, j: int| 0 <= i < j < out@.len() implies cf_row_lt(
                        #[trigger] out@[i],
                        #[trigger] out@[j],
                    ) by {
                        if j < pos {
                            assert(cf_row_lt(oldout[i], oldout[j]));
                        } else if i < pos && j == pos {
                            assert(cf_row_lt(oldout[i], flat@[t as int]));
                        } else if i < pos && j > pos {
                            assert(cf_row_lt(oldout[i], oldout[j - 1]));
                        } else if i == pos {
                            if j == pos + 1 {
                                assert(cf_row_lt(flat@[t as int], oldout[j - 1]));
                            } else {
                                assert(cf_row_lt(flat@[t as int], oldout[pos as int]));
                                assert(cf_row_lt(oldout[pos as int], oldout[j - 1]));
                                lemma_cf_row_lt_trans(
                                    flat@[t as int],
                                    oldout[pos as int],
                                    oldout[j - 1],
                                );
                            }
                        } else {
                            assert(cf_row_lt(oldout[i - 1], oldout[j - 1]));
                        }
                    }
                    // Per-group clauses.
                    assert forall|i: int| 0 <= i < out@.len() implies cf_present(
                        prefix2,
                        #[trigger] out@[i].kind,
                        out@[i].currency@,
                    ) && cf_group_sum(prefix2, out@[i].kind, out@[i].currency@) == Some(
                        out@[i].amount.scaled as int,
                    ) && out@[i].description_raw@ == cf_first_desc(
                        prefix2,
                        out@[i].kind,
                        out@[i].currency@,
                    ) by {
                        if i == pos {
                            assert(cf_group_sum(prefix2, rk, rc) == Some(
                                flat@[t as int].amount.scaled as int,
                            ));
                            assert(cf_first_desc(prefix2, rk, rc) == flat@[t as int]
                                .description_raw@);
                        } else {
                            let oi = if i < pos {
                                i
                            } else {
                                i - 1
                            };
                            assert(out@[i] == oldout[oi]);
                            assert(!cf_key_match(oldout[oi], rk, rc));
                            assert(!cf_key_match(flat@[t as int], oldout[oi].kind, oldout[oi]
                                .currency@));
                            lemma_cf_step_other_key(
                                prefix,
                                flat@[t as int],
                                oldout[oi].kind,
                                oldout[oi].currency@,
                            );
                        }
                    }
                    // Every key of the longer prefix has a group.
                    assert forall|k: CashFlowKind, c: Seq<char>| cf_present(
                        prefix2,
                        k,
                        c,
                    ) implies exists|i: int|
                        0 <= i < out@.len() && #[trigger] cf_key_match(out@[i], k, c) by {
                        if cf_key_match(flat@[t as int], k, c) {
                            assert(cf_key_match(out@[pos as int], k, c));
                        } else {
                            lemma_cf_step_other_key(prefix, flat@[t as int], k, c);
                            assert(cf_present(flat@.take(t as int), k, c));
                            let w = choose|i: int|
                                0 <= i < oldout.len() && #[trigger] cf_key_match(
                                    oldout[i],
                                    k,
                                    c,
                                );
                            if w < pos {
                                assert(cf_key_match(out@[w], k, c));
                            } else {
                                assert(cf_key_match(out@[w + 1], k, c));
                            }
                        }
                    }
                }
            }
            t += 1;
        }
        proof {
            assert(flat@.take(flat@.len() as int) =~= flat@);
        }
        Ok(CashFlowSummary { rows: out })
    }

    /// Flattens the positions of every statement, across all venues, in
    /// set order.
    #[verifier::loop_isolation(false)]
    fn flatten_positions(&self) -> (r: Vec<SecurityPosition>)
        ensures
            r@ == all_positions(self.reports@),
    {
        let mut flat: Vec<SecurityPosition> = Vec::new();
        proof {
            assert(flat@ =~= all_positions(self.reports@.take(0)));
        }
        let mut ri: usize = 0;
        while ri < self.reports.len()
            invariant
                ri <= self.reports@.len(),
                flat@ == all_positions(self.reports@.take(ri as int)),
            decreases self.reports@.len() - ri,
        {
            proof {
                assert(self.reports@.take(ri + 1 as int).drop_last() =~= self.reports@.take(
                    ri as int,
                ));
                assert(self.reports@.take(ri + 1 as int).last() == self.reports@[ri as int]);
            }
            match &self.reports[ri].portfolio {
                None => {
                    proof {
                        assert(flat@ + report_positions(self.reports@[ri as int]) =~= flat@);
                    }
                },
                Some(pf) => {
                    let ghost before = flat@;
                    let mut mi: usize = 0;
                    while mi < pf.markets.len()
                        invariant
                            mi <= pf.markets@.len(),
                            flat@ == before + markets_positions(pf.markets@.take(mi as int)),
                        decreases pf.markets@.len() - mi,
                    {
                        proof {
                            assert(pf.markets@.take(mi + 1 as int).drop_last()
                                =~= pf.markets@.take(mi as int));
                            assert(pf.markets@.take(mi + 1 as int).last() == pf.markets@[
                                mi as int]);
                        }
                        let m = &pf.markets[mi];
                        let ghost before2 = flat@;
                        let mut pi: usize = 0;
                        while pi < m.positions.len()
                            invariant
                                pi <= m.positions@.len(),
                                flat@ == before2 + m.positions@.take(pi as int),
                            decreases m.positions@.len() - pi,
                        {
                            let p = &m.positions[pi];
                            let copy = SecurityPosition {
                                name: p.name.clone(),
                                isin: p.isin.clone(),
                                price_currency: p.price_currency.clone(),
                                qty_start: p.qty_start,
                                nominal_start: p.nominal_start,
                                price_start: p.price_start,
                                value_start_no_ai: p.value_start_no_ai,
                                accrued_interest_start: p.accrued_interest_start,
                                qty_end: p.qty_end,
                                nominal_end: p.nominal_end,
                                price_end: p.price_end,
                                value_end_no_ai: p.value_end_no_ai,
                                accrued_interest_end: p.accrued_interest_end,
                                qty_delta: p.qty_delta,
                                value_delta: p.value_delta,
                                planned_in_qty: p.planned_in_qty,
                                planned_out_qty: p.planned_out_qty,
                                planned_end_qty: p.planned_end_qty,
                            };
                            proof {
                                assert(copy == m.positions@[pi as int]);
                                assert(m.positions@.take(pi + 1 as int) =~= m.positions@.take(
                                    pi as int,
                                ).push(m.positions@[pi as int]));
                                assert(before2 + m.positions@.take(pi + 1 as int) =~= (before2
                                    + m.positions@.take(pi as int)).push(
                                    m.positions@[pi as int],
                                ));
                            }
                            flat.push(copy);
                            pi += 1;
                        }
                        proof {
                            assert(m.positions@.take(m.positions@.len() as int)
                                =~= m.positions@);
                            assert(before2 =~= before + markets_positions(pf.markets@.take(
                                mi as int,
                            )));
                            assert(flat@ =~= before + markets_positions(pf.markets@.take(
                                mi + 1 as int,
                            )));
                        }
                        mi += 1;
                    }
                    proof {
                        assert(pf.markets@.take(pf.markets@.len() as int) =~= pf.markets@);
                    }
                },
            }
            ri += 1;
        }
        proof {
            assert(self.reports@.take(self.reports@.len() as int) =~= self.reports@);
        }
        flat
    }

    /// Merges the portfolios of all statements: positions are grouped by
    /// ISIN; the six quantity and value figures are summed exactly within
    /// each group; name and price currency come from the first occurrence
    /// of the ISIN; the output is ordered by ISIN.  Positions with one
    /// ISIN but different price currencies are deliberately conflated; a
    /// grouped sum that leaves the representation is an error.
    #[verifier::loop_isolation(false)]
    #[verifier::rlimit(100)]
    #[verifier::spinoff_prover]
    pub fn merge_positions(&self) -> (r: Result<Vec<MergedPosition>, ReportError>)
        ensures
            merge_positions_post(self.reports@, r),
    {
        let flat = self.flatten_positions();
        let ghost rows = all_positions(self.reports@);
        let mut out: Vec<MergedPosition> = Vec::new();
        let mut t: usize = 0;
        while t < flat.len()
            invariant
                t <= flat@.len(),
                rows == flat@,
                forall|i: int|
                    0 <= i < out@.len() ==> merged_matches(
                        flat@.take(t as int),
                        #[trigger] out@[i],
                    ),
                forall|isin: Seq<char>|
                    pos_present(flat@.take(t as int), isin) ==> exists|i: int|
                        0 <= i < out@.len() && (#[trigger] out@[i].isin)@ == isin,
                forall|i: int, j: int|
                    0 <= i < j < out@.len() ==> seq_lt(
                        (#[trigger] out@[i]).isin@,
                        (#[trigger] out@[j]).isin@,
                    ),
            decreases flat@.len() - t,
        {
            let p = &flat[t];
            let ghost prefix = flat@.take(t as int);
            let ghost prefix2 = flat@.take(t + 1 as int);
            let ghost key = flat@[t as int].isin@;
            proof {
                assert(prefix2 =~= prefix.push(flat@[t as int]));
            }
            // Look for an existing group with this ISIN.
            let mut gi: usize = 0;
            let mut found = false;
            while gi < out.len() && !found
                invariant
                    gi <= out@.len(),
                    found ==> gi < out@.len() && out@[gi as int].isin@ == key,
                    !found ==> forall|q: int| 0 <= q < gi ==> (#[trigger] out@[q].isin)@ != key,
                decreases out@.len() - gi + (if found { 0int } else { 1int }),
            {
                if crate::text::str_eq(out[gi].isin.as_str(), p.isin.as_str()) {
                    found = true;
                } else {
                    gi += 1;
                }
            }
            let ghost oldout = out@;
            if found {
                let old_g = out.remove(gi);
                proof {
                    lemma_pos_step_same_key(prefix, flat@[t as int], key);
                }
                let s1 = old_g.qty_start.checked_add(flat[t].qty_start);
                let s2 = old_g.qty_end.checked_add(flat[t].qty_end);
                let s3 = old_g.value_start_no_ai.checked_add(flat[t].value_start_no_ai);
                let s4 = old_g.value_end_no_ai.checked_add(flat[t].value_end_no_ai);
                let s5 = old_g.qty_delta.checked_add(flat[t].qty_delta);
                let s6 = old_g.value_delta.checked_add(flat[t].value_delta);
                if s1.is_none() || s2.is_none() || s3.is_none() || s4.is_none() || s5.is_none()
                    || s6.is_none() {
                    proof {
                        assert(old_g == oldout[gi as int]);
                        assert(pos_amounts_qty_start(prefix2, key).drop_last()
                            =~= pos_amounts_qty_start(prefix, key));
                        assert(pos_amounts_qty_end(prefix2, key).drop_last()
                            =~= pos_amounts_qty_end(prefix, key));
                        assert(pos_amounts_value_start(prefix2, key).drop_last()
                            =~= pos_amounts_value_start(prefix, key));
                        assert(pos_amounts_value_end(prefix2, key).drop_last()
                            =~= pos_amounts_value_end(prefix, key));
                        assert(pos_amounts_qty_delta(prefix2, key).drop_last()
                            =~= pos_amounts_qty_delta(prefix, key));
                        assert(pos_amounts_value_delta(prefix2, key).drop_last()
                            =~= pos_amounts_value_delta(prefix, key));
                        assert(!pos_sums_ok(prefix2, key));
                        lemma_pos_prefix_facts(flat@, t + 1 as int, key);
                    }
                    let res: Result<Vec<MergedPosition>, ReportError> = Err(
                        ReportError::Number {
                            value: String::new(),
                            column: "Портфель",
                        },
                    );
                    proof {
                        assert(merge_positions_post(self.reports@, res));
                    }
                    return res;
                }
                let new_g = MergedPosition {
                    isin: old_g.isin,
                    name: old_g.name,
                    price_currency: old_g.price_currency,
                    qty_start: s1.unwrap(),
                    qty_end: s2.unwrap(),
                    value_start_no_ai: s3.unwrap(),
                    value_end_no_ai: s4.unwrap(),
                    qty_delta: s5.unwrap(),
                    value_delta: s6.unwrap(),
                };
                out.insert(gi, new_g);
                proof {
                    assert(old_g == oldout[gi as int]);
                    assert(out@ =~= oldout.update(gi as int, new_g));
                    assert(out@[gi as int] == new_g);
                    assert(forall|w: int|
                        0 <= w < out@.len() ==> (#[trigger] out@[w].isin)@ == oldout[w].isin@
                            && out@[w].name@ == oldout[w].name@ && out@[w].price_currency@
                            == oldout[w].price_currency@);
                    assert forall|i: int, j: int| 0 <= i < j < out@.len() implies seq_lt(
                        (#[trigger] out@[i]).isin@,
                        (#[trigger] out@[j]).isin@,
                    ) by {
                        assert(seq_lt(oldout[i].isin@, oldout[j].isin@));
                    }
                    assert forall|i: int| 0 <= i < out@.len() implies merged_matches(
                        prefix2,
                        #[trigger] out@[i],
                    ) by {
                        if i == gi {
                            assert(merged_matches(prefix, oldout[gi as int]));
                        } else {
                            assert(out@[i] == oldout[i]);
                            if i < gi {
                                assert(seq_lt(oldout[i].isin@, oldout[gi as int].isin@));
                            } else {
                                assert(seq_lt(oldout[gi as int].isin@, oldout[i].isin@));
                            }
                            lemma_seq_lt_trichotomy(oldout[i].isin@, key);
                            assert(!pos_key_match(flat@[t as int], oldout[i].isin@));
                            lemma_pos_step_other_key(prefix, flat@[t as int], oldout[i].isin@);
                        }
                    }
                    assert forall|isin: Seq<char>| pos_present(prefix2, isin) implies exists|
                        i: int,
                    |
                        0 <= i < out@.len() && (#[trigger] out@[i].isin)@ == isin by {
                        if isin == key {
                            assert(out@[gi as int].isin@ == isin);
                        } else {
                            assert(!pos_key_match(flat@[t as int], isin));
                            lemma_pos_step_other_key(prefix, flat@[t as int], isin);
                            assert(pos_present(flat@.take(t as int), isin));
                            let w = choose|i: int|
                                0 <= i < oldout.len() && (#[trigger] oldout[i].isin)@ == isin;
                            assert(out@[w].isin@ == isin);
                        }
                    }
                }
            } else {
                // No group yet: insert at the sorted position.
                let mut pos: usize = 0;
                while pos < out.len() && pos_lt_exec(&out[pos], p)
                    invariant
                        pos <= out@.len(),
                        forall|q: int|
                            0 <= q < pos ==> seq_lt((#[trigger] out@[q]).isin@, key),
                    decreases out@.len() - pos,
                {
                    pos += 1;
                }
                let copy = MergedPosition {
                    isin: p.isin.clone(),
                    name: p.name.clone(),
                    price_currency: p.price_currency.clone(),
                    qty_start: p.qty_start,
                    qty_end: p.qty_end,
                    value_start_no_ai: p.value_start_no_ai,
                    value_end_no_ai: p.value_end_no_ai,
                    qty_delta: p.qty_delta,
                    value_delta: p.value_delta,
                };
                proof {
                    if pos < out@.len() {
                        lemma_seq_lt_trichotomy(oldout[pos as int].isin@, key);
                        assert(seq_lt(key, oldout[pos as int].isin@));
                    }
                    lemma_pos_step_same_key(prefix, flat@[t as int], key);
                    assert(!pos_present(prefix, key)) by {
                        if pos_present(prefix, key) {
                            let w = choose|i: int|
                                0 <= i < oldout.len() && (#[trigger] oldout[i].isin)@ == key;
                            assert(false);
                        }
                    }
                    assert(pos_amounts_qty_start(prefix, key) =~= Seq::<int>::empty());
                    assert(pos_amounts_qty_end(prefix, key) =~= Seq::<int>::empty());
                    assert(pos_amounts_value_start(prefix, key) =~= Seq::<int>::empty());
                    assert(pos_amounts_value_end(prefix, key) =~= Seq::<int>::empty());
                    assert(pos_amounts_qty_delta(prefix, key) =~= Seq::<int>::empty());
                    assert(pos_amounts_value_delta(prefix, key) =~= Seq::<int>::empty());
                }
                out.insert(pos, copy);
                proof {
                    assert(out@ =~= oldout.insert(pos as int, copy));
                    assert(out@[pos as int] == copy);
                    assert(copy.isin@ == key && copy.name@ == flat@[t as int].name@
                        && copy.price_currency@ == flat@[t as int].price_currency@);
                    assert(forall|q: int| 0 <= q < pos ==> #[trigger] out@[q] == oldout[q]);
                    assert(forall|q: int|
                        pos < q < out@.len() ==> #[trigger] out@[q] == oldout[q - 1]);
                    assert forall|i: int, j: int| 0 <= i < j < out@.len() implies seq_lt(
                        (#[trigger] out@[i]).isin@,
                        (#[trigger] out@[j]).isin@,
                    ) by {
                        if j < pos {
                            assert(seq_lt(oldout[i].isin@, oldout[j].isin@));
                        } else if i < pos && j == pos {
                            assert(seq_lt(oldout[i].isin@, key));
                        } else if i < pos && j > pos {
                            assert(seq_lt(oldout[i].isin@, oldout[j - 1].isin@));
                        } else if i == pos {
                            if j == pos + 1 {
                                assert(seq_lt(key, oldout[j - 1].isin@));
                            } else {
                                assert(seq_lt(key, oldout[pos as int].isin@));
                                assert(seq_lt(oldout[pos as int].isin@, oldout[j - 1].isin@));
                                lemma_seq_lt_trans(
                                    key,
                                    oldout[pos as int].isin@,
                                    oldout[j - 1].isin@,
                                );
                            }
                        } else {
                            assert(seq_lt(oldout[i - 1].isin@, oldout[j - 1].isin@));
                        }
                    }
                    assert forall|i: int| 0 <= i < out@.len() implies merged_matches(
                        prefix2,
                        #[trigger] out@[i],
                    ) by {
                        if i == pos {
                            assert(pos_sel(prefix2, key)[0] == flat@[t as int]);
                        } else {
                            let oi = if i < pos {
                                i
                            } else {
                                i - 1
                            };
                            assert(out@[i] == oldout[oi]);
                            assert(oldout[oi].isin@ != key);
                            assert(!pos_key_match(flat@[t as int], oldout[oi].isin@));
                            lemma_pos_step_other_key(prefix, flat@[t as int], oldout[oi].isin@);
                        }
                    }
                    assert forall|isin: Seq<char>| pos_present(prefix2, isin) implies exists|
                        i: int,
                    |
                        0 <= i < out@.len() && (#[trigger] out@[i].isin)@ == isin by {
                        if isin == key {
                            assert(out@[pos as int].isin@ == isin);
                        } else {
                            assert(!pos_key_match(flat@[t as int], isin));
                            lemma_pos_step_other_key(prefix, flat@[t as int], isin);
                            assert(pos_present(flat@.take(t as int), isin));
                            let w = choose|i: int|
                                0 <= i < oldout.len() && (#[trigger] oldout[i].isin)@ == isin;
                            if w < pos {
                                assert(out@[w].isin@ == isin);
                            } else {
                                assert(out@[w + 1].isin@ == isin);
                            }
                        }
                    }
                }
            }
            t += 1;
        }
        proof {
            assert(flat@.take(flat@.len() as int) =~= flat@);
            assert forall|i: int| 0 <= i < out@.len() implies merged_matches(
                rows,
                #[trigger] out@[i],
            ) by {
                assert(merged_matches(flat@.take(t as int), out@[i]));
            }
            assert forall|isin: Seq<char>| pos_present(rows, isin) implies exists|i: int|
                0 <= i < out@.len() && (#[trigger] out@[i].isin)@ == isin by {
                assert(pos_present(flat@.take(t as int), isin));
            }
        }
        let res: Result<Vec<MergedPosition>, ReportError> = Ok(out);
        proof {
            assert(rows == all_positions(self.reports@));
            assert(forall|i: int|
                0 <= i < out@.len() ==> merged_matches(
                    all_positions(self.reports@),
                    #[trigger] out@[i],
                ));
            assert(forall|isin: Seq<char>|
                pos_present(all_positions(self.reports@), isin) ==> exists|i: int|
                    0 <= i < out@.len() && (#[trigger] out@[i].isin)@ == isin);
            assert(forall|i: int, j: int|
                0 <= i < j < out@.len() ==> seq_lt(
                    (#[trigger] out@[i]).isin@,
                    (#[trigger] out@[j]).isin@,
                ));
            assert(res matches Ok(o) && o == out);
            assert(merge_positions_post(self.reports@, res));
        }
        res
    }
}

/// What the position merge promises of its result.
pub open spec fn merge_positions_post(
    reports: Seq<Report>,
    r: Result<Vec<MergedPosition>, ReportError>,
) -> bool {
    let rows = all_positions(reports);
    match r {
        Ok(out) => (forall|i: int|
            0 <= i < out@.len() ==> merged_matches(rows, #[trigger] out@[i])) && (forall|
            isin: Seq<char>,
        |
            pos_present(rows, isin) ==> exists|i: int|
                0 <= i < out@.len() && (#[trigger] out@[i].isin)@ == isin) && (forall|
            i: int,
            j: int,
        |
            0 <= i < j < out@.len() ==> seq_lt(
                (#[trigger] out@[i]).isin@,
                (#[trigger] out@[j]).isin@,
            )),
        Err(_) => exists|isin: Seq<char>|
            #[trigger] pos_present(rows, isin) && !pos_sums_ok(rows, isin),
    }
}

/// Compares two merged positions by ISIN.
fn pos_lt_exec(a: &MergedPosition, b: &SecurityPosition) -> (r: bool)
    ensures
        r == seq_lt(a.isin@, b.isin@),
{
    let av = crate::text::chars_of(a.isin.as_str());
    let bv = crate::text::chars_of(b.isin.as_str());
    chars_lt(&av, &bv)
}

/// Strict group order is transitive.
proof fn lemma_cf_row_lt_trans(a: CashFlowRow, b: CashFlowRow, c: CashFlowRow)
    requires
        cf_row_lt(a, b),
        cf_row_lt(b, c),
    ensures
        cf_row_lt(a, c),
{
    if kind_rank_spec(a.kind) == kind_rank_spec(b.kind) && kind_rank_spec(b.kind)
        == kind_rank_spec(c.kind) {
        lemma_seq_lt_trans(a.currency@, b.currency@, c.currency@);
    }
}

/// Compares two grouped rows by kind, then currency.
fn cf_lt_exec(a: &CashFlowRow, b: &CashFlowRow) -> (r: bool)
    ensures
        r == cf_row_lt(*a, *b),
{
    let ra = kind_rank(a.kind);
    let rb = kind_rank(b.kind);
    if ra < rb {
        true
    } else if ra > rb {
        false
    } else {
        let cv = crate::text::chars_of(a.currency.as_str());
        let rv = crate::text::chars_of(b.currency.as_str());
        chars_lt(&cv, &rv)
    }
}

/// Distinct kinds have distinct ranks.
proof fn lemma_kind_rank_injective(a: CashFlowKind, b: CashFlowKind)
    ensures
        kind_rank_spec(a) == kind_rank_spec(b) ==> a == b,
{
}

/// A group whose checked sum fails on a prefix fails on the whole.
proof fn lemma_cf_sum_prefix_none(rows: Seq<CashFlowRow>, u: int, k: CashFlowKind, c: Seq<char>)
    requires
        0 <= u <= rows.len(),
        cf_group_sum(rows.take(u), k, c) is None,
    ensures
        cf_group_sum(rows, k, c) is None,
    decreases rows.len() - u,
{
    if u < rows.len() {
        assert(rows.take(u + 1).drop_last() =~= rows.take(u));
        assert(rows.take(u + 1).last() == rows[u]);
        if cf_key_match(rows[u], k, c) {
            assert(cf_amounts(rows.take(u + 1), k, c) =~= cf_amounts(rows.take(u), k, c).push(
                rows[u].amount.scaled as int,
            ));
            assert(cf_amounts(rows.take(u + 1), k, c).drop_last() =~= cf_amounts(
                rows.take(u),
                k,
                c,
            ));
        } else {
            assert(cf_amounts(rows.take(u + 1), k, c) =~= cf_amounts(rows.take(u), k, c));
        }
        lemma_cf_sum_prefix_none(rows, u + 1, k, c);
    } else {
        assert(rows.take(u) =~= rows);
    }
}

/// A key present in a prefix is present in the whole.
proof fn lemma_cf_sel_prefix_present(rows: Seq<CashFlowRow>, u: int, k: CashFlowKind, c: Seq<
    char,
>)
    requires
        0 <= u <= rows.len(),
        cf_present(rows.take(u), k, c),
    ensures
        cf_present(rows, k, c),
    decreases rows.len() - u,
{
    if u < rows.len() {
        assert(rows.take(u + 1).drop_last() =~= rows.take(u));
        lemma_cf_sel_prefix_present(rows, u + 1, k, c);
    } else {
        assert(rows.take(u) =~= rows);
    }
}

/// A position matches a grouping key.
pub open spec fn pos_key_match(p: SecurityPosition, isin: Seq<char>) -> bool {
    p.isin@ == isin
}

/// The positions of one statement, across all its venues, in order.
pub open spec fn report_positions(r: Report) -> Seq<SecurityPosition> {
    match r.portfolio {
        Some(p) => markets_positions(p.markets@),
        None => Seq::empty(),
    }
}

/// The positions of a sequence of venues, in order.
pub open spec fn markets_positions(ms: Seq<PortfolioMarket>) -> Seq<SecurityPosition>
    decreases ms.len(),
{
    if ms.len() == 0 {
        Seq::empty()
    } else {
        markets_positions(ms.drop_last()) + ms.last().positions@
    }
}

/// All positions of a set of statements, in order.
pub open spec fn all_positions(reports: Seq<Report>) -> Seq<SecurityPosition>
    decreases reports.len(),
{
    if reports.len() == 0 {
        Seq::empty()
    } else {
        all_positions(reports.drop_last()) + report_positions(reports.last())
    }
}

/// The positions carrying one ISIN, in encounter order.
pub open spec fn pos_sel(rows: Seq<SecurityPosition>, isin: Seq<char>) -> Seq<SecurityPosition>
    decreases rows.len(),
{
    if rows.len() == 0 {
        Seq::empty()
    } else if pos_key_match(rows.last(), isin) {
        pos_sel(rows.drop_last(), isin).push(rows.last())
    } else {
        pos_sel(rows.drop_last(), isin)
    }
}

/// Whether any position carries the ISIN.
pub open spec fn pos_present(rows: Seq<SecurityPosition>, isin: Seq<char>) -> bool {
    pos_sel(rows, isin).len() > 0
}

/// The six summed figures of an ISIN, in encounter order.
pub open spec fn pos_amounts_qty_start(rows: Seq<SecurityPosition>, isin: Seq<char>) -> Seq<int> {
    pos_sel(rows, isin).map_values(|p: SecurityPosition| p.qty_start.scaled as int)
}

/// Quantities at period end of an ISIN.
pub open spec fn pos_amounts_qty_end(rows: Seq<SecurityPosition>, isin: Seq<char>) -> Seq<int> {
    pos_sel(rows, isin).map_values(|p: SecurityPosition| p.qty_end.scaled as int)
}

/// Values at period start of an ISIN.
pub open spec fn pos_amounts_value_start(rows: Seq<SecurityPosition>, isin: Seq<char>) -> Seq<
    int,
> {
    pos_sel(rows, isin).map_values(|p: SecurityPosition| p.value_start_no_ai.scaled as int)
}

/// Values at period end of an ISIN.
pub open spec fn pos_amounts_value_end(rows: Seq<SecurityPosition>, isin: Seq<char>) -> Seq<int> {
    pos_sel(rows, isin).map_values(|p: SecurityPosition| p.value_end_no_ai.scaled as int)
}

/// Quantity changes of an ISIN.
pub open spec fn pos_amounts_qty_delta(rows: Seq<SecurityPosition>, isin: Seq<char>) -> Seq<int> {
    pos_sel(rows, isin).map_values(|p: SecurityPosition| p.qty_delta.scaled as int)
}

/// Value changes of an ISIN.
pub open spec fn pos_amounts_value_delta(rows: Seq<SecurityPosition>, isin: Seq<char>) -> Seq<
    int,
> {
    pos_sel(rows, isin).map_values(|p: SecurityPosition| p.value_delta.scaled as int)
}

/// All six checked sums of an ISIN succeed.
pub open spec fn pos_sums_ok(rows: Seq<SecurityPosition>, isin: Seq<char>) -> bool {
    sum_money(pos_amounts_qty_start(rows, isin)) is Some && sum_money(
        pos_amounts_qty_end(rows, isin),
    ) is Some && sum_money(pos_amounts_value_start(rows, isin)) is Some && sum_money(
        pos_amounts_value_end(rows, isin),
    ) is Some && sum_money(pos_amounts_qty_delta(rows, isin)) is Some && sum_money(
        pos_amounts_value_delta(rows, isin),
    ) is Some
}

/// A merged row carries exactly the six checked sums of its ISIN and the
/// name and currency of its first occurrence.
pub open spec fn merged_matches(rows: Seq<SecurityPosition>, g: MergedPosition) -> bool {
    &&& pos_present(rows, g.isin@)
    &&& sum_money(pos_amounts_qty_start(rows, g.isin@)) == Some(g.qty_start.scaled as int)
    &&& sum_money(pos_amounts_qty_end(rows, g.isin@)) == Some(g.qty_end.scaled as int)
    &&& sum_money(pos_amounts_value_start(rows, g.isin@)) == Some(
        g.value_start_no_ai.scaled as int,
    )
    &&& sum_money(pos_amounts_value_end(rows, g.isin@)) == Some(g.value_end_no_ai.scaled as int)
    &&& sum_money(pos_amounts_qty_delta(rows, g.isin@)) == Some(g.qty_delta.scaled as int)
    &&& sum_money(pos_amounts_value_delta(rows, g.isin@)) == Some(g.value_delta.scaled as int)
    &&& g.name@ == pos_sel(rows, g.isin@)[0].name@
    &&& g.price_currency@ == pos_sel(rows, g.isin@)[0].price_currency@
}

/// One checked-addition step on an accumulated sum.
pub open spec fn sum_money_step(acc: Option<int>, v: int) -> Option<int> {
    match acc {
        None => None,
        Some(a) => if i128::MIN <= a + v <= i128::MAX {
            Some(a + v)
        } else {
            None
        },
    }
}

/// A new position leaves every other ISIN's selection unchanged.
proof fn lemma_pos_step_other_key(prefix: Seq<SecurityPosition>, p: SecurityPosition, isin: Seq<
    char,
>)
    requires
        !pos_key_match(p, isin),
    ensures
        pos_sel(prefix.push(p), isin) == pos_sel(prefix, isin),
{
    assert(prefix.push(p).drop_last() =~= prefix);
    assert(prefix.push(p).last() == p);
}

/// A new position extends its own ISIN's selection at the end.
proof fn lemma_pos_step_same_key(prefix: Seq<SecurityPosition>, p: SecurityPosition, isin: Seq<
    char,
>)
    requires
        pos_key_match(p, isin),
    ensures
        pos_sel(prefix.push(p), isin) == pos_sel(prefix, isin).push(p),
        pos_present(prefix.push(p), isin),
        pos_amounts_qty_start(prefix.push(p), isin) == pos_amounts_qty_start(prefix, isin).push(
            p.qty_start.scaled as int,
        ),
        pos_amounts_qty_end(prefix.push(p), isin) == pos_amounts_qty_end(prefix, isin).push(
            p.qty_end.scaled as int,
        ),
        pos_amounts_value_start(prefix.push(p), isin) == pos_amounts_value_start(
            prefix,
            isin,
        ).push(p.value_start_no_ai.scaled as int),
        pos_amounts_value_end(prefix.push(p), isin) == pos_amounts_value_end(prefix, isin).push(
            p.value_end_no_ai.scaled as int,
        ),
        pos_amounts_qty_delta(prefix.push(p), isin) == pos_amounts_qty_delta(prefix, isin).push(
            p.qty_delta.scaled as int,
        ),
        pos_amounts_value_delta(prefix.push(p), isin) == pos_amounts_value_delta(
            prefix,
            isin,
        ).push(p.value_delta.scaled as int),
        pos_present(prefix, isin) ==> pos_sel(prefix.push(p), isin)[0] == pos_sel(
            prefix,
            isin,
        )[0],
        !pos_present(prefix, isin) ==> pos_sel(prefix.push(p), isin)[0] == p,
        sum_money(pos_amounts_qty_start(prefix.push(p), isin)) == sum_money_step(
            sum_money(pos_amounts_qty_start(prefix, isin)),
            p.qty_start.scaled as int,
        ),
        sum_money(pos_amounts_qty_end(prefix.push(p), isin)) == sum_money_step(
            sum_money(pos_amounts_qty_end(prefix, isin)),
            p.qty_end.scaled as int,
        ),
        sum_money(pos_amounts_value_start(prefix.push(p), isin)) == sum_money_step(
            sum_money(pos_amounts_value_start(prefix, isin)),
            p.value_start_no_ai.scaled as int,
        ),
        sum_money(pos_amounts_value_end(prefix.push(p), isin)) == sum_money_step(
            sum_money(pos_amounts_value_end(prefix, isin)),
            p.value_end_no_ai.scaled as int,
        ),
        sum_money(pos_amounts_qty_delta(prefix.push(p), isin)) == sum_money_step(
            sum_money(pos_amounts_qty_delta(prefix, isin)),
            p.qty_delta.scaled as int,
        ),
        sum_money(pos_amounts_value_delta(prefix.push(p), isin)) == sum_money_step(
            sum_money(pos_amounts_value_delta(prefix, isin)),
            p.value_delta.scaled as int,
        ),
{
    assert(prefix.push(p).drop_last() =~= prefix);
    assert(prefix.push(p).last() == p);
    assert(pos_sel(prefix.push(p), isin) == pos_sel(prefix, isin).push(p));
    assert(pos_amounts_qty_start(prefix.push(p), isin) =~= pos_amounts_qty_start(
        prefix,
        isin,
    ).push(p.qty_start.scaled as int));
    assert(pos_amounts_qty_end(prefix.push(p), isin) =~= pos_amounts_qty_end(prefix, isin).push(
        p.qty_end.scaled as int,
    ));
    assert(pos_amounts_value_start(prefix.push(p), isin) =~= pos_amounts_value_start(
        prefix,
        isin,
    ).push(p.value_start_no_ai.scaled as int));
    assert(pos_amounts_value_end(prefix.push(p), isin) =~= pos_amounts_value_end(
        prefix,
        isin,
    ).push(p.value_end_no_ai.scaled as int));
    assert(pos_amounts_qty_delta(prefix.push(p), isin) =~= pos_amounts_qty_delta(
        prefix,
        isin,
    ).push(p.qty_delta.scaled as int));
    assert(pos_amounts_value_delta(prefix.push(p), isin) =~= pos_amounts_value_delta(
        prefix,
        isin,
    ).push(p.value_delta.scaled as int));
    assert(pos_amounts_qty_start(prefix.push(p), isin).drop_last() =~= pos_amounts_qty_start(
        prefix,
        isin,
    ));
    assert(pos_amounts_qty_end(prefix.push(p), isin).drop_last() =~= pos_amounts_qty_end(
        prefix,
        isin,
    ));
    assert(pos_amounts_value_start(prefix.push(p), isin).drop_last()
        =~= pos_amounts_value_start(prefix, isin));
    assert(pos_amounts_value_end(prefix.push(p), isin).drop_last() =~= pos_amounts_value_end(
        prefix,
        isin,
    ));
    assert(pos_amounts_qty_delta(prefix.push(p), isin).drop_last() =~= pos_amounts_qty_delta(
        prefix,
        isin,
    ));
    assert(pos_amounts_value_delta(prefix.push(p), isin).drop_last()
        =~= pos_amounts_value_delta(prefix, isin));
}

/// Any checked sum that fails on a prefix of the rows fails on the whole;
/// a key present in a prefix stays present.
proof fn lemma_pos_prefix_facts(rows: Seq<SecurityPosition>, u: int, isin: Seq<char>)
    requires
        0 <= u <= rows.len(),
    ensures
        pos_present(rows.take(u), isin) ==> pos_present(rows, isin),
        !pos_sums_ok(rows.take(u), isin) ==> !pos_sums_ok(rows, isin),
    decreases rows.len() - u,
{
    if u < rows.len() {
        assert(rows.take(u + 1).drop_last() =~= rows.take(u));
        assert(rows.take(u + 1).last() == rows[u]);
        if pos_key_match(rows[u], isin) {
            lemma_pos_step_same_key(rows.take(u), rows[u], isin);
            assert(rows.take(u).push(rows[u]) =~= rows.take(u + 1));
            assert(pos_amounts_qty_start(rows.take(u + 1), isin).drop_last()
                =~= pos_amounts_qty_start(rows.take(u), isin));
            assert(pos_amounts_qty_end(rows.take(u + 1), isin).drop_last()
                =~= pos_amounts_qty_end(rows.take(u), isin));
            assert(pos_amounts_value_start(rows.take(u + 1), isin).drop_last()
                =~= pos_amounts_value_start(rows.take(u), isin));
            assert(pos_amounts_value_end(rows.take(u + 1), isin).drop_last()
                =~= pos_amounts_value_end(rows.take(u), isin));
            assert(pos_amounts_qty_delta(rows.take(u + 1), isin).drop_last()
                =~= pos_amounts_qty_delta(rows.take(u), isin));
            assert(pos_amounts_value_delta(rows.take(u + 1), isin).drop_last()
                =~= pos_amounts_value_delta(rows.take(u), isin));
        } else {
            lemma_pos_step_other_key(rows.take(u), rows[u], isin);
            assert(rows.take(u).push(rows[u]) =~= rows.take(u + 1));
        }
        lemma_pos_prefix_facts(rows, u + 1, isin);
    } else {
        assert(rows.take(u) =~= rows);
    }
}


/// The flattened rows of a two-statement set are the two statements'
/// rows, in order.
proof fn lemma_all_cf_rows_pair(a: Report, b: Report)
    ensures
        all_cf_rows(seq![a, b]) == report_cf_rows(a) + report_cf_rows(b),
{
    assert(seq![a, b].drop_last() =~= seq![a]);
    assert(seq![a].drop_last() =~= Seq::<Report>::empty());
    assert(seq![a, b].last() == b);
    assert(seq![a].last() == a);
    assert(all_cf_rows(seq![a].drop_last()) == all_cf_rows(Seq::<Report>::empty()));
    assert(all_cf_rows(Seq::<Report>::empty()) =~= Seq::<CashFlowRow>::empty());
    assert(Seq::<CashFlowRow>::empty() + report_cf_rows(a) =~= report_cf_rows(a));
    assert(all_cf_rows(seq![a]) == report_cf_rows(a));
    assert(all_cf_rows(seq![a, b]) == all_cf_rows(seq![a]) + report_cf_rows(b));
}

/// Law: the cash-flow merge is commutative over statement order.  For any
/// two statements and any grouping key, the key is present in the merge
/// of one order exactly when it is present in the other, and the exact
/// mathematical sums of the group's amounts agree.
pub proof fn lemma_cash_flow_merge_commutative(
    a: Report,
    b: Report,
    k: CashFlowKind,
    c: Seq<char>,
)
    ensures
        cf_present(all_cf_rows(seq![a, b]), k, c) == cf_present(all_cf_rows(seq![b, a]), k, c),
        sum_ints(cf_amounts(all_cf_rows(seq![a, b]), k, c)) == sum_ints(
            cf_amounts(all_cf_rows(seq![b, a]), k, c),
        ),
{
    lemma_all_cf_rows_pair(a, b);
    lemma_all_cf_rows_pair(b, a);
    let ra = report_cf_rows(a);
    let rb = report_cf_rows(b);
    lemma_cf_sel_append(ra, rb, k, c);
    lemma_cf_sel_append(rb, ra, k, c);
    let f = |r: CashFlowRow| r.amount.scaled as int;
    assert((cf_sel(ra, k, c) + cf_sel(rb, k, c)).map_values(f) =~= cf_sel(ra, k, c).map_values(
        f,
    ) + cf_sel(rb, k, c).map_values(f));
    assert((cf_sel(rb, k, c) + cf_sel(ra, k, c)).map_values(f) =~= cf_sel(rb, k, c).map_values(
        f,
    ) + cf_sel(ra, k, c).map_values(f));
    lemma_sum_ints_append(cf_sel(ra, k, c).map_values(f), cf_sel(rb, k, c).map_values(f));
    lemma_sum_ints_append(cf_sel(rb, k, c).map_values(f), cf_sel(ra, k, c).map_values(f));
}

/// The flattened positions of small sets, written out.
proof fn lemma_all_positions_pair(a: Report, b: Report)
    ensures
        all_positions(seq![a, b]) == report_positions(a) + report_positions(b),
        all_positions(seq![a]) == report_positions(a),
{
    assert(seq![a, b].drop_last() =~= seq![a]);
    assert(seq![a].drop_last() =~= Seq::<Report>::empty());
    assert(seq![a, b].last() == b);
    assert(seq![a].last() == a);
    assert(all_positions(seq![a].drop_last()) == all_positions(Seq::<Report>::empty()));
    assert(all_positions(Seq::<Report>::empty()) =~= Seq::<SecurityPosition>::empty());
    assert(Seq::<SecurityPosition>::empty() + report_positions(a) =~= report_positions(a));
    assert(all_positions(seq![a]) == report_positions(a));
    assert(all_positions(seq![a, b]) == all_positions(seq![a]) + report_positions(b));
}

/// Selection of positions distributes over concatenation.
proof fn lemma_pos_sel_append(x: Seq<SecurityPosition>, y: Seq<SecurityPosition>, isin: Seq<
    char,
>)
    ensures
        pos_sel(x + y, isin) == pos_sel(x, isin) + pos_sel(y, isin),
    decreases y.len(),
{
    if y.len() == 0 {
        assert(x + y =~= x);
        assert(pos_sel(x, isin) + pos_sel(y, isin) =~= pos_sel(x, isin));
    } else {
        lemma_pos_sel_append(x, y.drop_last(), isin);
        assert((x + y).drop_last() =~= x + y.drop_last());
        assert((x + y).last() == y.last());
        if pos_key_match(y.last(), isin) {
            assert(pos_sel(x, isin) + pos_sel(y.drop_last(), isin).push(y.last()) =~= (pos_sel(
                x,
                isin,
            ) + pos_sel(y.drop_last(), isin)).push(y.last()));
        }
    }
}

/// Law: the position merge is additive.  Merging the same single
/// statement twice doubles every summed figure of an ISIN, and keeps the
/// name and the price currency of the first occurrence unchanged.
pub proof fn lemma_position_merge_additive(r: Report, isin: Seq<char>)
    ensures
        sum_ints(pos_amounts_qty_start(all_positions(seq![r, r]), isin)) == 2 * sum_ints(
            pos_amounts_qty_start(all_positions(seq![r]), isin),
        ),
        sum_ints(pos_amounts_qty_end(all_positions(seq![r, r]), isin)) == 2 * sum_ints(
            pos_amounts_qty_end(all_positions(seq![r]), isin),
        ),
        sum_ints(pos_amounts_value_start(all_positions(seq![r, r]), isin)) == 2 * sum_ints(
            pos_amounts_value_start(all_positions(seq![r]), isin),
        ),
        sum_ints(pos_amounts_value_end(all_positions(seq![r, r]), isin)) == 2 * sum_ints(
            pos_amounts_value_end(all_positions(seq![r]), isin),
        ),
        sum_ints(pos_amounts_qty_delta(all_positions(seq![r, r]), isin)) == 2 * sum_ints(
            pos_amounts_qty_delta(all_positions(seq![r]), isin),
        ),
        sum_ints(pos_amounts_value_delta(all_positions(seq![r, r]), isin)) == 2 * sum_ints(
            pos_amounts_value_delta(all_positions(seq![r]), isin),
        ),
        pos_present(all_positions(seq![r]), isin) ==> pos_sel(
            all_positions(seq![r, r]),
            isin,
        )[0] == pos_sel(all_positions(seq![r]), isin)[0],
{
    lemma_all_positions_pair(r, r);
    let rp = report_positions(r);
    lemma_pos_sel_append(rp, rp, isin);
    let sel = pos_sel(rp, isin);
    let f1 = |p: SecurityPosition| p.qty_start.scaled as int;
    let f2 = |p: SecurityPosition| p.qty_end.scaled as int;
    let f3 = |p: SecurityPosition| p.value_start_no_ai.scaled as int;
    let f4 = |p: SecurityPosition| p.value_end_no_ai.scaled as int;
    let f5 = |p: SecurityPosition| p.qty_delta.scaled as int;
    let f6 = |p: SecurityPosition| p.value_delta.scaled as int;
    assert((sel + sel).map_values(f1) =~= sel.map_values(f1) + sel.map_values(f1));
    assert((sel + sel).map_values(f2) =~= sel.map_values(f2) + sel.map_values(f2));
    assert((sel + sel).map_values(f3) =~= sel.map_values(f3) + sel.map_values(f3));
    assert((sel + sel).map_values(f4) =~= sel.map_values(f4) + sel.map_values(f4));
    assert((sel + sel).map_values(f5) =~= sel.map_values(f5) + sel.map_values(f5));
    assert((sel + sel).map_values(f6) =~= sel.map_values(f6) + sel.map_values(f6));
    lemma_sum_ints_append(sel.map_values(f1), sel.map_values(f1));
    lemma_sum_ints_append(sel.map_values(f2), sel.map_values(f2));
    lemma_sum_ints_append(sel.map_values(f3), sel.map_values(f3));
    lemma_sum_ints_append(sel.map_values(f4), sel.map_values(f4));
    lemma_sum_ints_append(sel.map_values(f5), sel.map_values(f5));
    lemma_sum_ints_append(sel.map_values(f6), sel.map_values(f6));
    if pos_present(all_positions(seq![r]), isin) {
        assert((sel + sel)[0] == sel[0]);
    }
}

} // verus!
