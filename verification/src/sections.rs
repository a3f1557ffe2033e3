//! Decoding of the statement sections from located tables: asset
//! valuation, cash-flow summary, portfolio and contributions.

use vstd::prelude::*;
use crate::classify::classify_spec;
use crate::error::ReportError;
use crate::locate::{rows_cells, RowData};
use crate::money::{
    all_digits, decimal_of, digits_val, digits_value_exec, lemma_digits_leading_zeros,
    lemma_digits_val_lower, lemma_pow10_le, lemma_pow10_values, normalize_number_spec,
    parse_money_or_zero, pow10, sum_money, Money,
};
use crate::text::has_sub_spec;
use crate::types::{
    AssetValuation, AssetValuationRow, CashFlowRow, CashFlowSummary, IisContribution,
    IisContributionsTable, Portfolio, PortfolioMarket, SecurityPosition,
};
use crate::words::lower_of;

verus! {

/// The value of a money cell: blank means zero, anything else must be a
/// decimal literal.
pub open spec fn money_cell(s: Seq<char>) -> Option<int> {
    let norm = normalize_number_spec(s);
    if norm.len() == 0 {
        Some(0)
    } else {
        decimal_of(norm)
    }
}

/// Abstract view of one valuation row.
#[verifier::ext_equal]
pub ghost struct AvRowModel {
    /// Venue text.
    pub venue: Seq<char>,
    /// The nine money figures, scaled.
    pub start_securities: int,
    /// Cash at start.
    pub start_cash: int,
    /// Total at start.
    pub start_total: int,
    /// Securities at end.
    pub end_securities: int,
    /// Cash at end.
    pub end_cash: int,
    /// Total at end.
    pub end_total: int,
    /// Change of securities.
    pub delta_securities: int,
    /// Change of cash.
    pub delta_cash: int,
    /// Total change.
    pub delta_total: int,
}

/// The abstract view of a concrete valuation row.
pub open spec fn av_row_model(r: AssetValuationRow) -> AvRowModel {
    AvRowModel {
        venue: r.venue@,
        start_securities: r.start_securities.scaled as int,
        start_cash: r.start_cash.scaled as int,
        start_total: r.start_total.scaled as int,
        end_securities: r.end_securities.scaled as int,
        end_cash: r.end_cash.scaled as int,
        end_total: r.end_total.scaled as int,
        delta_securities: r.delta_securities.scaled as int,
        delta_cash: r.delta_cash.scaled as int,
        delta_total: r.delta_total.scaled as int,
    }
}

/// Decodes a data row of ten or more cells, or fails when a money cell is
/// no decimal.
pub open spec fn av_data_row(c: Seq<Seq<char>>) -> Option<AvRowModel> {
    if money_cell(c[1]) is Some && money_cell(c[2]) is Some && money_cell(c[3]) is Some
        && money_cell(c[4]) is Some && money_cell(c[5]) is Some && money_cell(c[6]) is Some
        && money_cell(c[7]) is Some && money_cell(c[8]) is Some && money_cell(c[9]) is Some {
        Some(
            AvRowModel {
                venue: c[0],
                start_securities: money_cell(c[1]).unwrap(),
                start_cash: money_cell(c[2]).unwrap(),
                start_total: money_cell(c[3]).unwrap(),
                end_securities: money_cell(c[4]).unwrap(),
                end_cash: money_cell(c[5]).unwrap(),
                end_total: money_cell(c[6]).unwrap(),
                delta_securities: money_cell(c[7]).unwrap(),
                delta_cash: money_cell(c[8]).unwrap(),
                delta_total: money_cell(c[9]).unwrap(),
            },
        )
    } else {
        None
    }
}

/// Accumulated valuation state while walking the rows.
#[verifier::ext_equal]
pub ghost struct AvAcc {
    /// Decoded data rows so far.
    pub rows: Seq<AvRowModel>,
    /// Total change, once a summary row set it.
    pub total: int,
    /// Whether a summary row was seen.
    pub summary_seen: bool,
}

/// One step of the valuation walk: empty rows and short rows are skipped,
/// a row whose first cell mentions the total marker sets the total from
/// its last cell, any other row of ten or more cells is decoded.
pub open spec fn av_step(acc: AvAcc, c: Seq<Seq<char>>) -> Option<AvAcc> {
    if c.len() == 0 {
        Some(acc)
    } else if has_sub_spec(lower_of(c[0]), "итого"@) {
        match money_cell(c.last()) {
            None => None,
            Some(v) => Some(AvAcc { rows: acc.rows, total: v, summary_seen: true }),
        }
    } else if c.len() < 10 {
        Some(acc)
    } else {
        match av_data_row(c) {
            None => None,
            Some(m) => Some(
                AvAcc { rows: acc.rows.push(m), total: acc.total, summary_seen: acc.summary_seen },
            ),
        }
    }
}

/// The valuation walk from row `i` on.
pub open spec fn av_run(cells: Seq<Seq<Seq<char>>>, i: int, acc: AvAcc) -> Option<AvAcc>
    decreases cells.len() - i,
{
    if i < 0 || i >= cells.len() {
        Some(acc)
    } else {
        match av_step(acc, cells[i]) {
            None => None,
            Some(a2) => av_run(cells, i + 1, a2),
        }
    }
}

/// The initial valuation state.
pub open spec fn av_init() -> AvAcc {
    AvAcc { rows: Seq::empty(), total: 0, summary_seen: false }
}

/// The abstract outcome of valuation decoding: the data rows and the
/// total change, which the summary row gives, or, absent one, the exact
/// sum of the rows' total changes.
pub open spec fn av_outcome(cells: Seq<Seq<Seq<char>>>) -> Option<(Seq<AvRowModel>, int)> {
    match av_run(cells, 3, av_init()) {
        None => None,
        Some(acc) => if acc.summary_seen {
            Some((acc.rows, acc.total))
        } else {
            match sum_money(acc.rows.map_values(|m: AvRowModel| m.delta_total)) {
                None => None,
                Some(t) => Some((acc.rows, t)),
            }
        },
    }
}

/// Parses one money cell of a row.
fn money_at(c: &Vec<String>, idx: usize, col: &'static str) -> (r: Result<Money, ReportError>)
    requires
        idx < c@.len(),
    ensures
        match money_cell(c.deep_view()[idx as int]) {
            Some(v) => r matches Ok(m) && m.scaled == v,
            None => r is Err,
        },
{
    proof {
        assert(c.deep_view()[idx as int] == c@[idx as int]@);
    }
    parse_money_or_zero(c[idx].as_str(), col)
}

/// Decodes one valuation data row.
fn parse_av_row(c: &Vec<String>) -> (r: Result<AssetValuationRow, ReportError>)
    requires
        c@.len() >= 10,
    ensures
        match av_data_row(c.deep_view()) {
            Some(m) => r matches Ok(row) && av_row_model(row) == m,
            None => r is Err,
        },
{
    let start_securities = match money_at(c, 1, "ЦБ начало") {
        Ok(m) => m,
        Err(e) => {
            return Err(e);
        },
    };
    let start_cash = match money_at(c, 2, "Денежные средства начало") {
        Ok(m) => m,
        Err(e) => {
            return Err(e);
        },
    };
    let start_total = match money_at(c, 3, "Всего начало") {
        Ok(m) => m,
        Err(e) => {
            return Err(e);
        },
    };
    let end_securities = match money_at(c, 4, "ЦБ конец") {
        Ok(m) => m,
        Err(e) => {
            return Err(e);
        },
    };
    let end_cash = match money_at(c, 5, "Денежные средства конец") {
        Ok(m) => m,
        Err(e) => {
            return Err(e);
        },
    };
    let end_total = match money_at(c, 6, "Всего конец") {
        Ok(m) => m,
        Err(e) => {
            return Err(e);
        },
    };
    let delta_securities = match money_at(c, 7, "ЦБ изменение") {
        Ok(m) => m,
        Err(e) => {
            return Err(e);
        },
    };
    let delta_cash = match money_at(c, 8, "Денежные средства изменение") {
        Ok(m) => m,
        Err(e) => {
            return Err(e);
        },
    };
    let delta_total = match money_at(c, 9, "Всего изменение") {
        Ok(m) => m,
        Err(e) => {
            return Err(e);
        },
    };
    let row = AssetValuationRow {
        venue: c[0].clone(),
        start_securities,
        start_cash,
        start_total,
        end_securities,
        end_cash,
        end_total,
        delta_securities,
        delta_cash,
        delta_total,
    };
    proof {
        assert(av_row_model(row) =~= av_data_row(c.deep_view()).unwrap());
    }
    Ok(row)
}

/// Decodes the asset valuation table from its rows.  The first three rows
/// carry headers and units and are skipped; a row whose first cell
/// mentions the total marker supplies the total change; without one the
/// total is the exact sum of the data rows' total changes.
#[verifier::loop_isolation(false)]
#[verifier::rlimit(60)]
pub fn parse_asset_valuation_rows(rows: &Vec<RowData>) -> (r: Result<AssetValuation, ReportError>)
    ensures
        match av_outcome(rows_cells(rows@)) {
            Some(out) => r matches Ok(av) && av.rows@.map_values(
                |x: AssetValuationRow| av_row_model(x),
            ) == out.0 && av.total_delta.scaled == out.1,
            None => r is Err,
        },
{
    let ghost cells = rows_cells(rows@);
    proof {
        assert(cells.len() == rows@.len());
    }
    let mut out_rows: Vec<AssetValuationRow> = Vec::new();
    let mut total = Money::zero();
    let mut summary = false;
    proof {
        assert(out_rows@.map_values(|x: AssetValuationRow| av_row_model(x))
            =~= Seq::<AvRowModel>::empty());
        assert(AvAcc {
            rows: out_rows@.map_values(|x: AssetValuationRow| av_row_model(x)),
            total: total.scaled as int,
            summary_seen: summary,
        } =~= av_init());
    }
    let mut i: usize = 3;
    if rows.len() < 3 {
        i = rows.len();
        proof {
            assert(av_run(cells, 3, av_init()) == Some(av_init()));
        }
    }
    while i < rows.len()
        invariant
            3 <= i || i == rows@.len(),
            i <= rows@.len(),
            av_run(cells, 3, av_init()) == av_run(
                cells,
                i as int,
                AvAcc {
                    rows: out_rows@.map_values(|x: AssetValuationRow| av_row_model(x)),
                    total: total.scaled as int,
                    summary_seen: summary,
                },
            ),
        decreases rows@.len() - i,
    {
        let ghost acc = AvAcc {
            rows: out_rows@.map_values(|x: AssetValuationRow| av_row_model(x)),
            total: total.scaled as int,
            summary_seen: summary,
        };
        let c = &rows[i].cells;
        proof {
            assert(cells[i as int] == rows@[i as int].cells.deep_view());
        }
        if c.len() == 0 {
            proof {
                assert(av_step(acc, cells[i as int]) == Some(acc));
            }
        } else {
            let low = crate::words::to_lowercase(c[0].as_str());
            let lv = crate::text::chars_of(low.as_str());
            let pat = crate::text::chars_of("итого");
            proof {
                assert(c.deep_view()[0] == c@[0]@);
            }
            if crate::text::has_sub(&lv, &pat) {
                proof {
                    assert(cells[i as int].last() == c.deep_view()[c@.len() - 1]);
                }
                match money_at(c, c.len() - 1, "Итого") {
                    Ok(m) => {
                        total = m;
                        summary = true;
                    },
                    Err(e) => {
                        return Err(e);
                    },
                }
            } else if c.len() < 10 {
                proof {
                    assert(av_step(acc, cells[i as int]) == Some(acc));
                }
            } else {
                match parse_av_row(c) {
                    Ok(row) => {
                        let ghost old_rows = out_rows@;
                        out_rows.push(row);
                        proof {
                            assert(out_rows@.map_values(|x: AssetValuationRow| av_row_model(x))
                                =~= old_rows.map_values(|x: AssetValuationRow| av_row_model(x))
                                .push(av_row_model(row)));
                        }
                    },
                    Err(e) => {
                        return Err(e);
                    },
                }
            }
        }
        i += 1;
    }
    let ghost acc_fin = AvAcc {
        rows: out_rows@.map_values(|x: AssetValuationRow| av_row_model(x)),
        total: total.scaled as int,
        summary_seen: summary,
    };
    proof {
        assert(av_run(cells, 3, av_init()) == Some(acc_fin));
    }
    if !summary {
        let mut acc = Money::zero();
        let mut k: usize = 0;
        while k < out_rows.len()
            invariant
                k <= out_rows@.len(),
                acc_fin.rows == out_rows@.map_values(|x: AssetValuationRow| av_row_model(x)),
                sum_money(
                    acc_fin.rows.map_values(|m: AvRowModel| m.delta_total).take(k as int),
                ) == Some(acc.scaled as int),
            decreases out_rows@.len() - k,
        {
            let ghost deltas = acc_fin.rows.map_values(|m: AvRowModel| m.delta_total);
            proof {
                assert(deltas.take(k + 1 as int).drop_last() =~= deltas.take(k as int));
                assert(deltas.take(k + 1 as int).last() == deltas[k as int]);
                assert(deltas[k as int] == av_row_model(out_rows@[k as int]).delta_total);
            }
            match acc.checked_add(out_rows[k].delta_total) {
                Some(m) => {
                    acc = m;
                },
                None => {
                    proof {
                        assert(sum_money(deltas.take(k + 1 as int)) is None);
                        lemma_sum_money_prefix_none(deltas, k + 1 as int);
                    }
                    return Err(
                        ReportError::Number { value: String::new(), column: "Итого" },
                    );
                },
            }
            k += 1;
        }
        proof {
            let deltas = acc_fin.rows.map_values(|m: AvRowModel| m.delta_total);
            assert(deltas.take(deltas.len() as int) =~= deltas);
        }
        total = acc;
    }
    Ok(AssetValuation { rows: out_rows, total_delta: total })
}

/// A checked sum that fails on a prefix fails on the whole.
proof fn lemma_sum_money_prefix_none(s: Seq<int>, k: int)
    requires
        0 <= k <= s.len(),
        sum_money(s.take(k)) is None,
    ensures
        sum_money(s) is None,
    decreases s.len() - k,
{
    if k < s.len() {
        assert(s.take(k + 1).drop_last() =~= s.take(k));
        lemma_sum_money_prefix_none(s, k + 1);
    } else {
        assert(s.take(k) =~= s);
    }
}

/// Law: when no row of the table carries the total marker, the total
/// change is the exact mathematical sum of the data rows' total changes —
/// a sum of integers, independent of the order of addition.
pub proof fn lemma_valuation_total_is_sum(cells: Seq<Seq<Seq<char>>>)
    requires
        av_outcome(cells) is Some,
        forall|i: int|
            3 <= i < cells.len() && #[trigger] cells[i].len() > 0 ==> !has_sub_spec(
                lower_of(cells[i][0]),
                "итого"@,
            ),
    ensures
        av_outcome(cells).unwrap().1 == crate::money::sum_ints(
            av_outcome(cells).unwrap().0.map_values(|m: AvRowModel| m.delta_total),
        ),
{
    lemma_av_run_no_summary(cells, 3, av_init());
    let acc = av_run(cells, 3, av_init()).unwrap();
    crate::money::lemma_sum_money_exact(acc.rows.map_values(|m: AvRowModel| m.delta_total));
}

/// Without summary rows the walk never sets the summary flag.
proof fn lemma_av_run_no_summary(cells: Seq<Seq<Seq<char>>>, i: int, acc: AvAcc)
    requires
        !acc.summary_seen,
        forall|j: int|
            3 <= j < cells.len() && #[trigger] cells[j].len() > 0 ==> !has_sub_spec(
                lower_of(cells[j][0]),
                "итого"@,
            ),
        i >= 3,
    ensures
        av_run(cells, i, acc) matches Some(a2) ==> !a2.summary_seen,
    decreases cells.len() - i,
{
    if 0 <= i < cells.len() {
        match av_step(acc, cells[i]) {
            None => {},
            Some(a2) => {
                lemma_av_run_no_summary(cells, i + 1, a2);
            },
        }
    }
}

/// Every cell of the row is blank.
pub open spec fn all_blank(c: Seq<Seq<char>>) -> bool {
    forall|i: int| 0 <= i < c.len() ==> #[trigger] c[i].len() == 0
}

/// Abstract view of one cash-flow row.
#[verifier::ext_equal]
pub ghost struct CfRowModel {
    /// Classification.
    pub kind: crate::types::CashFlowKind,
    /// Description as printed.
    pub description: Seq<char>,
    /// Amount, scaled.
    pub amount: int,
    /// Currency code.
    pub currency: Seq<char>,
}

/// The abstract view of a concrete cash-flow row.
pub open spec fn cf_row_model(r: CashFlowRow) -> CfRowModel {
    CfRowModel {
        kind: r.kind,
        description: r.description_raw@,
        amount: r.amount.scaled as int,
        currency: r.currency@,
    }
}

/// One step of the cash-flow walk: rows of fewer than three cells and
/// all-blank rows are skipped; any other row is classified and decoded.
pub open spec fn cf_step(acc: Seq<CfRowModel>, c: Seq<Seq<char>>) -> Option<Seq<CfRowModel>> {
    if c.len() < 3 {
        Some(acc)
    } else if all_blank(c) {
        Some(acc)
    } else {
        match money_cell(c[1]) {
            None => None,
            Some(v) => Some(
                acc.push(
                    CfRowModel {
                        kind: classify_spec(lower_of(c[0])),
                        description: c[0],
                        amount: v,
                        currency: c[2],
                    },
                ),
            ),
        }
    }
}

/// The cash-flow walk from row `i` on.
pub open spec fn cf_run(cells: Seq<Seq<Seq<char>>>, i: int, acc: Seq<CfRowModel>) -> Option<
    Seq<CfRowModel>,
>
    decreases cells.len() - i,
{
    if i < 0 || i >= cells.len() {
        Some(acc)
    } else {
        match cf_step(acc, cells[i]) {
            None => None,
            Some(a2) => cf_run(cells, i + 1, a2),
        }
    }
}

/// The abstract outcome of cash-flow decoding: the rows in encounter
/// order, the first two table rows skipped as headers.
pub open spec fn cf_outcome(cells: Seq<Seq<Seq<char>>>) -> Option<Seq<CfRowModel>> {
    cf_run(cells, 2, Seq::empty())
}

/// Tests whether every cell of the row is blank.
fn cells_all_blank(c: &Vec<String>) -> (r: bool)
    ensures
        r == all_blank(c.deep_view()),
{
    let mut i: usize = 0;
    while i < c.len()
        invariant
            i <= c@.len(),
            forall|j: int| 0 <= j < i ==> #[trigger] c.deep_view()[j].len() == 0,
        decreases c@.len() - i,
    {
        if !c[i].as_str().is_empty() {
            proof {
                assert(c.deep_view()[i as int] == c@[i as int]@);
            }
            return false;
        }
        proof {
            assert(c.deep_view()[i as int] == c@[i as int]@);
        }
        i += 1;
    }
    true
}

/// Decodes the cash-flow summary table from its rows.  The first two
/// rows carry headers and are skipped; rows with fewer than three cells
/// or only blank cells are noise.
#[verifier::loop_isolation(false)]
pub fn parse_cash_flow_rows(rows: &Vec<RowData>) -> (r: Result<CashFlowSummary, ReportError>)
    ensures
        match cf_outcome(rows_cells(rows@)) {
            Some(ms) => r matches Ok(s) && s.rows@.map_values(|x: CashFlowRow| cf_row_model(x))
                == ms,
            None => r is Err,
        },
{
    let ghost cells = rows_cells(rows@);
    let mut out_rows: Vec<CashFlowRow> = Vec::new();
    proof {
        assert(out_rows@.map_values(|x: CashFlowRow| cf_row_model(x))
            =~= Seq::<CfRowModel>::empty());
    }
    let mut i: usize = 2;
    if rows.len() < 2 {
        i = rows.len();
        proof {
            assert(cf_run(cells, 2, Seq::empty()) == Some(Seq::<CfRowModel>::empty()));
        }
    }
    while i < rows.len()
        invariant
            2 <= i || i == rows@.len(),
            i <= rows@.len(),
            cf_run(cells, 2, Seq::empty()) == cf_run(
                cells,
                i as int,
                out_rows@.map_values(|x: CashFlowRow| cf_row_model(x)),
            ),
        decreases rows@.len() - i,
    {
        let ghost acc = out_rows@.map_values(|x: CashFlowRow| cf_row_model(x));
        let c = &rows[i].cells;
        proof {
            assert(cells[i as int] == rows@[i as int].cells.deep_view());
        }
        if c.len() < 3 {
        } else if cells_all_blank(c) {
        } else {
            proof {
                assert(c.deep_view()[0] == c@[0]@);
                assert(c.deep_view()[2] == c@[2]@);
            }
            let amount = match money_at(c, 1, "Сумма ДС") {
                Ok(m) => m,
                Err(e) => {
                    return Err(e);
                },
            };
            let kind = crate::classify::classify_cash_flow(c[0].as_str());
            let row = CashFlowRow {
                kind,
                description_raw: c[0].clone(),
                amount,
                currency: c[2].clone(),
            };
            let ghost old_rows = out_rows@;
            out_rows.push(row);
            proof {
                assert(cf_row_model(row) =~= cf_step(acc, cells[i as int]).unwrap().last());
                assert(out_rows@.map_values(|x: CashFlowRow| cf_row_model(x)) =~= acc.push(
                    cf_row_model(row),
                ));
                assert(out_rows@.map_values(|x: CashFlowRow| cf_row_model(x)) =~= cf_step(
                    acc,
                    cells[i as int],
                ).unwrap());
            }
        }
        i += 1;
    }
    Ok(CashFlowSummary { rows: out_rows })
}

/// The text with every leading repetition of `p` removed.
pub open spec fn strip_rep(s: Seq<char>, p: Seq<char>) -> Seq<char>
    decreases s.len(),
{
    if p.len() > 0 && crate::text::occurs_at(s, p, 0) {
        strip_rep(s.subrange(p.len() as int, s.len() as int), p)
    } else {
        s
    }
}

/// Removes every leading repetition of `p` from `s`.
#[verifier::loop_isolation(false)]
fn strip_prefix_rep(s: &Vec<char>, p: &Vec<char>) -> (r: Vec<char>)
    requires
        p@.len() > 0,
    ensures
        r@ == strip_rep(s@, p@),
{
    let mut cur = crate::text::subvec(s, 0, s.len());
    proof {
        assert(s@.subrange(0, s@.len() as int) =~= s@);
    }
    while crate::text::starts_with_chars(&cur, p)
        invariant
            strip_rep(s@, p@) == strip_rep(cur@, p@),
        decreases cur@.len(),
    {
        let next = crate::text::subvec(&cur, p.len(), cur.len());
        cur = next;
    }
    cur
}

/// Abstract view of one security position.
#[verifier::ext_equal]
pub ghost struct PosModel {
    /// Security name.
    pub name: Seq<char>,
    /// ISIN.
    pub isin: Seq<char>,
    /// Price currency.
    pub price_currency: Seq<char>,
    /// Quantity at start.
    pub qty_start: int,
    /// Nominal at start.
    pub nominal_start: int,
    /// Price at start.
    pub price_start: int,
    /// Value without accrued interest at start.
    pub value_start_no_ai: int,
    /// Accrued interest at start.
    pub accrued_interest_start: int,
    /// Quantity at end.
    pub qty_end: int,
    /// Nominal at end.
    pub nominal_end: int,
    /// Price at end.
    pub price_end: int,
    /// Value without accrued interest at end.
    pub value_end_no_ai: int,
    /// Accrued interest at end.
    pub accrued_interest_end: int,
    /// Change of quantity.
    pub qty_delta: int,
    /// Change of value.
    pub value_delta: int,
    /// Planned incoming settlements.
    pub planned_in_qty: int,
    /// Planned outgoing settlements.
    pub planned_out_qty: int,
    /// Planned closing quantity.
    pub planned_end_qty: int,
}

/// The abstract view of a concrete position.
pub open spec fn pos_model(p: SecurityPosition) -> PosModel {
    PosModel {
        name: p.name@,
        isin: p.isin@,
        price_currency: p.price_currency@,
        qty_start: p.qty_start.scaled as int,
        nominal_start: p.nominal_start.scaled as int,
        price_start: p.price_start.scaled as int,
        value_start_no_ai: p.value_start_no_ai.scaled as int,
        accrued_interest_start: p.accrued_interest_start.scaled as int,
        qty_end: p.qty_end.scaled as int,
        nominal_end: p.nominal_end.scaled as int,
        price_end: p.price_end.scaled as int,
        value_end_no_ai: p.value_end_no_ai.scaled as int,
        accrued_interest_end: p.accrued_interest_end.scaled as int,
        qty_delta: p.qty_delta.scaled as int,
        value_delta: p.value_delta.scaled as int,
        planned_in_qty: p.planned_in_qty.scaled as int,
        planned_out_qty: p.planned_out_qty.scaled as int,
        planned_end_qty: p.planned_end_qty.scaled as int,
    }
}

/// Decodes a position row of eighteen or more cells.
pub open spec fn pos_row(c: Seq<Seq<char>>) -> Option<PosModel> {
    if money_cell(c[3]) is Some && money_cell(c[4]) is Some && money_cell(c[5]) is Some
        && money_cell(c[6]) is Some && money_cell(c[7]) is Some && money_cell(c[8]) is Some
        && money_cell(c[9]) is Some && money_cell(c[10]) is Some && money_cell(c[11]) is Some
        && money_cell(c[12]) is Some && money_cell(c[13]) is Some && money_cell(c[14]) is Some
        && money_cell(c[15]) is Some && money_cell(c[16]) is Some && money_cell(c[17]) is Some {
        Some(
            PosModel {
                name: c[0],
                isin: c[1],
                price_currency: c[2],
                qty_start: money_cell(c[3]).unwrap(),
                nominal_start: money_cell(c[4]).unwrap(),
                price_start: money_cell(c[5]).unwrap(),
                value_start_no_ai: money_cell(c[6]).unwrap(),
                accrued_interest_start: money_cell(c[7]).unwrap(),
                qty_end: money_cell(c[8]).unwrap(),
                nominal_end: money_cell(c[9]).unwrap(),
                price_end: money_cell(c[10]).unwrap(),
                value_end_no_ai: money_cell(c[11]).unwrap(),
                accrued_interest_end: money_cell(c[12]).unwrap(),
                qty_delta: money_cell(c[13]).unwrap(),
                value_delta: money_cell(c[14]).unwrap(),
                planned_in_qty: money_cell(c[15]).unwrap(),
                planned_out_qty: money_cell(c[16]).unwrap(),
                planned_end_qty: money_cell(c[17]).unwrap(),
            },
        )
    } else {
        None
    }
}

/// Abstract view of one venue group.
#[verifier::ext_equal]
pub ghost struct MarketModel {
    /// Venue name.
    pub name: Seq<char>,
    /// Positions of the venue.
    pub positions: Seq<PosModel>,
}

/// The abstract view of a concrete venue group.
pub open spec fn market_model(m: PortfolioMarket) -> MarketModel {
    MarketModel {
        name: m.name@,
        positions: m.positions@.map_values(|p: SecurityPosition| pos_model(p)),
    }
}

/// Accumulated portfolio state: closed groups and the group being built.
#[verifier::ext_equal]
pub ghost struct PfAcc {
    /// Closed venue groups.
    pub markets: Seq<MarketModel>,
    /// The group rows are currently assigned to.
    pub current: Option<MarketModel>,
}

/// One step of the portfolio walk: a divider row opens a new venue group
/// named after it; a row of eighteen or more cells is a position of the
/// current group, or of the implicit unknown group before any divider;
/// other rows are noise.
pub open spec fn pf_step(acc: PfAcc, c: Seq<Seq<char>>) -> Option<PfAcc> {
    if c.len() == 0 {
        Some(acc)
    } else if crate::text::occurs_at(c[0], "Площадка"@, 0) {
        let flushed = match acc.current {
            Some(cur) => acc.markets.push(cur),
            None => acc.markets,
        };
        let name = crate::text::trim_spec(strip_rep(c[0], "Площадка:"@));
        Some(
            PfAcc { markets: flushed, current: Some(MarketModel { name, positions: Seq::empty() }) },
        )
    } else if c.len() < 18 {
        Some(acc)
    } else {
        match pos_row(c) {
            None => None,
            Some(p) => match acc.current {
                Some(cur) => Some(
                    PfAcc {
                        markets: acc.markets,
                        current: Some(
                            MarketModel { name: cur.name, positions: cur.positions.push(p) },
                        ),
                    },
                ),
                None => Some(
                    PfAcc {
                        markets: acc.markets,
                        current: Some(
                            MarketModel { name: "Неизвестно"@, positions: seq![p] },
                        ),
                    },
                ),
            },
        }
    }
}

/// The portfolio walk from row `i` on.
pub open spec fn pf_run(cells: Seq<Seq<Seq<char>>>, i: int, acc: PfAcc) -> Option<PfAcc>
    decreases cells.len() - i,
{
    if i < 0 || i >= cells.len() {
        Some(acc)
    } else {
        match pf_step(acc, cells[i]) {
            None => None,
            Some(a2) => pf_run(cells, i + 1, a2),
        }
    }
}

/// The abstract outcome of portfolio decoding: the venue groups in table
/// order, the still-open group closed at the end.
pub open spec fn pf_outcome(cells: Seq<Seq<Seq<char>>>) -> Option<Seq<MarketModel>> {
    match pf_run(cells, 3, PfAcc { markets: Seq::empty(), current: None }) {
        None => None,
        Some(acc) => match acc.current {
            Some(cur) => Some(acc.markets.push(cur)),
            None => Some(acc.markets),
        },
    }
}

/// Decodes one position row.
fn parse_pos_row(c: &Vec<String>) -> (r: Result<SecurityPosition, ReportError>)
    requires
        c@.len() >= 18,
    ensures
        match pos_row(c.deep_view()) {
            Some(m) => r matches Ok(p) && pos_model(p) == m,
            None => r is Err,
        },
{
    let qty_start = match money_at(c, 3, "Количество начало") {
        Ok(m) => m,
        Err(e) => {
            return Err(e);
        },
    };
    let nominal_start = match money_at(c, 4, "Номинал начало") {
        Ok(m) => m,
        Err(e) => {
            return Err(e);
        },
    };
    let price_start = match money_at(c, 5, "Цена начало") {
        Ok(m) => m,
        Err(e) => {
            return Err(e);
        },
    };
    let value_start_no_ai = match money_at(c, 6, "Стоимость без НКД начало") {
        Ok(m) => m,
        Err(e) => {
            return Err(e);
        },
    };
    let accrued_interest_start = match money_at(c, 7, "НКД начало") {
        Ok(m) => m,
        Err(e) => {
            return Err(e);
        },
    };
    let qty_end = match money_at(c, 8, "Количество конец") {
        Ok(m) => m,
        Err(e) => {
            return Err(e);
        },
    };
    let nominal_end = match money_at(c, 9, "Номинал конец") {
        Ok(m) => m,
        Err(e) => {
            return Err(e);
        },
    };
    let price_end = match money_at(c, 10, "Цена конец") {
        Ok(m) => m,
        Err(e) => {
            return Err(e);
        },
    };
    let value_end_no_ai = match money_at(c, 11, "Стоимость без НКД конец") {
        Ok(m) => m,
        Err(e) => {
            return Err(e);
        },
    };
    let accrued_interest_end = match money_at(c, 12, "НКД конец") {
        Ok(m) => m,
        Err(e) => {
            return Err(e);
        },
    };
    let qty_delta = match money_at(c, 13, "Количество изменение") {
        Ok(m) => m,
        Err(e) => {
            return Err(e);
        },
    };
    let value_delta = match money_at(c, 14, "Стоимость изменение") {
        Ok(m) => m,
        Err(e) => {
            return Err(e);
        },
    };
    let planned_in_qty = match money_at(c, 15, "Плановые зачисления") {
        Ok(m) => m,
        Err(e) => {
            return Err(e);
        },
    };
    let planned_out_qty = match money_at(c, 16, "Плановые списания") {
        Ok(m) => m,
        Err(e) => {
            return Err(e);
        },
    };
    let planned_end_qty = match money_at(c, 17, "Плановый исходящий остаток") {
        Ok(m) => m,
        Err(e) => {
            return Err(e);
        },
    };
    let p = SecurityPosition {
        name: c[0].clone(),
        isin: c[1].clone(),
        price_currency: c[2].clone(),
        qty_start,
        nominal_start,
        price_start,
        value_start_no_ai,
        accrued_interest_start,
        qty_end,
        nominal_end,
        price_end,
        value_end_no_ai,
        accrued_interest_end,
        qty_delta,
        value_delta,
        planned_in_qty,
        planned_out_qty,
        planned_end_qty,
    };
    proof {
        assert(pos_model(p) =~= pos_row(c.deep_view()).unwrap());
    }
    Ok(p)
}

/// The abstract state matching the concrete loop variables.
pub open spec fn pf_acc_of(markets: Seq<PortfolioMarket>, current: Option<PortfolioMarket>)
    -> PfAcc {
    PfAcc {
        markets: markets.map_values(|m: PortfolioMarket| market_model(m)),
        current: match current {
            Some(m) => Some(market_model(m)),
            None => None,
        },
    }
}

/// Decodes the portfolio table from its rows.  The first three rows carry
/// headers and are skipped; divider rows partition the table into venue
/// groups; rows before any divider form the implicit unknown group.
#[verifier::loop_isolation(false)]
#[verifier::rlimit(100)]
pub fn parse_portfolio_rows(rows: &Vec<RowData>) -> (r: Result<Portfolio, ReportError>)
    ensures
        match pf_outcome(rows_cells(rows@)) {
            Some(ms) => r matches Ok(p) && p.markets@.map_values(
                |m: PortfolioMarket| market_model(m),
            ) == ms,
            None => r is Err,
        },
{
    let ghost cells = rows_cells(rows@);
    let mut markets: Vec<PortfolioMarket> = Vec::new();
    let mut current: Option<PortfolioMarket> = None;
    proof {
        assert(pf_acc_of(markets@, current) =~= PfAcc { markets: Seq::empty(), current: None });
    }
    let mut i: usize = 3;
    if rows.len() < 3 {
        i = rows.len();
    }
    while i < rows.len()
        invariant
            3 <= i || i == rows@.len(),
            i <= rows@.len(),
            pf_run(cells, 3, PfAcc { markets: Seq::empty(), current: None }) == pf_run(
                cells,
                i as int,
                pf_acc_of(markets@, current),
            ),
        decreases rows@.len() - i,
    {
        let ghost acc = pf_acc_of(markets@, current);
        let c = &rows[i].cells;
        proof {
            assert(cells[i as int] == rows@[i as int].cells.deep_view());
        }
        if c.len() == 0 {
        } else {
            let c0 = crate::text::chars_of(c[0].as_str());
            let marker = crate::text::chars_of("Площадка");
            let marker_colon = crate::text::chars_of("Площадка:");
            proof {
                assert(c.deep_view()[0] == c@[0]@);
            }
            if crate::text::starts_with_chars(&c0, &marker) {
                proof {
                    reveal_strlit("Площадка:");
                }
                if let Some(m) = current {
                    let ghost old_markets = markets@;
                    markets.push(m);
                    proof {
                        assert(markets@.map_values(|m2: PortfolioMarket| market_model(m2))
                            =~= old_markets.map_values(|m2: PortfolioMarket| market_model(m2))
                            .push(market_model(m)));
                    }
                }
                let stripped = strip_prefix_rep(&c0, &marker_colon);
                let trimmed = crate::text::trim_chars(&stripped);
                let name = crate::text::string_from_chars(&trimmed);
                current = Some(PortfolioMarket { name, positions: Vec::new() });
                proof {
                    assert(market_model(current.unwrap()) =~= MarketModel {
                        name: crate::text::trim_spec(strip_rep(cells[i as int][0], "Площадка:"@)),
                        positions: Seq::empty(),
                    });
                    assert(pf_acc_of(markets@, current) =~= pf_step(acc, cells[i as int]).unwrap());
                }
            } else if c.len() < 18 {
            } else {
                match parse_pos_row(c) {
                    Ok(p) => {
                        match current {
                            Some(m) => {
                                let mut m2 = m;
                                let ghost old_pos = m2.positions@;
                                m2.positions.push(p);
                                proof {
                                    assert(m2.positions@.map_values(
                                        |q: SecurityPosition| pos_model(q),
                                    ) =~= old_pos.map_values(|q: SecurityPosition| pos_model(q))
                                        .push(pos_model(p)));
                                }
                                current = Some(m2);
                            },
                            None => {
                                let mut pv: Vec<SecurityPosition> = Vec::new();
                                pv.push(p);
                                let name = crate::text::chars_of("Неизвестно");
                                let ns = crate::text::string_from_chars(&name);
                                current = Some(PortfolioMarket { name: ns, positions: pv });
                                proof {
                                    assert(current.unwrap().positions@.map_values(
                                        |q: SecurityPosition| pos_model(q),
                                    ) =~= seq![pos_model(p)]);
                                }
                            },
                        }
                        proof {
                            assert(pf_acc_of(markets@, current) =~= pf_step(
                                acc,
                                cells[i as int],
                            ).unwrap());
                        }
                    },
                    Err(e) => {
                        return Err(e);
                    },
                }
            }
        }
        i += 1;
    }
    if let Some(m) = current {
        let ghost old_markets = markets@;
        markets.push(m);
        proof {
            assert(markets@.map_values(|m2: PortfolioMarket| market_model(m2)) =~= old_markets
                .map_values(|m2: PortfolioMarket| market_model(m2)).push(market_model(m)));
        }
    }
    Ok(Portfolio { markets })
}

/// The value a signed decimal integer literal denotes, when it fits a
/// 32-bit integer: an optional sign, then only digits.
pub open spec fn int_of(s: Seq<char>) -> Option<int> {
    let signed = s.len() > 0 && (s[0] == '-' || s[0] == '+');
    let neg = s.len() > 0 && s[0] == '-';
    let b = if signed {
        s.subrange(1, s.len() as int)
    } else {
        s
    };
    if b.len() >= 1 && all_digits(b) {
        let v = if neg {
            -digits_val(b)
        } else {
            digits_val(b)
        };
        if -0x8000_0000 <= v <= 0x7fff_ffff {
            Some(v)
        } else {
            None
        }
    } else {
        None
    }
}

/// Parses a signed decimal integer.
#[verifier::loop_isolation(false)]
fn parse_i32_chars(t: &Vec<char>) -> (r: Option<i32>)
    ensures
        match int_of(t@) {
            Some(v) => r matches Some(x) && x == v,
            None => r is None,
        },
{
    let n = t.len();
    let signed = n > 0 && (t[0] == '-' || t[0] == '+');
    let neg = n > 0 && t[0] == '-';
    let start: usize = if signed {
        1
    } else {
        0
    };
    let ghost b = if signed {
        t@.subrange(1, n as int)
    } else {
        t@
    };
    proof {
        assert(b =~= t@.subrange(start as int, n as int));
    }
    if start == n {
        return None;
    }
    let mut m: usize = start;
    while m < n
        invariant
            start <= m <= n,
            forall|i: int| start <= i < m ==> crate::text::is_digit_c(t@[i]),
        decreases n - m,
    {
        if !crate::text::is_digit(t[m]) {
            proof {
                assert(b[m - start] == t@[m as int]);
            }
            return None;
        }
        m += 1;
    }
    proof {
        assert(forall|i: int| 0 <= i < b.len() ==> crate::text::is_digit_c(b[i]));
    }
    let mut z: usize = start;
    while z < n && t[z] == '0'
        invariant
            start <= z <= n,
            forall|i: int| start <= i < z ==> t@[i] == '0',
        decreases n - z,
    {
        z += 1;
    }
    proof {
        lemma_digits_leading_zeros(b, z - start);
        assert(b.subrange(z - start, b.len() as int) =~= t@.subrange(z as int, n as int));
    }
    if n - z > 10 {
        proof {
            lemma_digits_val_lower(t@.subrange(z as int, n as int));
            lemma_pow10_le(10, (n - z - 1) as nat);
            lemma_pow10_values();
        }
        return None;
    }
    let v = digits_value_exec(t, z, n);
    proof {
        lemma_pow10_le((n - z) as nat, 10);
        lemma_pow10_values();
    }
    let sv: i128 = if neg {
        -v
    } else {
        v
    };
    if sv < -0x8000_0000i128 || sv > 0x7fff_ffffi128 {
        return None;
    }
    Some(sv as i32)
}

/// A limit cell that declares there is no limit.
pub open spec fn no_limit_cell(s: Seq<char>) -> bool {
    has_sub_spec(lower_of(s), "ограничений нет"@)
}

/// Abstract view of one contribution row.
#[verifier::ext_equal]
pub ghost struct IisRowModel {
    /// Year the contribution counts against.
    pub year: int,
    /// Annual limit, scaled; zero for "no limit".
    pub limit: int,
    /// Day of the operation.
    pub date: crate::date::Date,
    /// Amount, scaled.
    pub amount: int,
    /// Reason text.
    pub reason: Seq<char>,
    /// Remaining limit, scaled; zero for "no limit".
    pub remaining: int,
}

/// The abstract view of a concrete contribution row.
pub open spec fn iis_row_model(r: IisContribution) -> IisRowModel {
    IisRowModel {
        year: r.year as int,
        limit: r.limit_rub.scaled as int,
        date: r.date,
        amount: r.amount.scaled as int,
        reason: r.operation_reason@,
        remaining: r.remaining_limit.scaled as int,
    }
}

/// Accumulated contribution state: emitted rows and the sticky year and
/// limit carried from preceding rows.
#[verifier::ext_equal]
pub ghost struct IisAcc {
    /// Emitted rows.
    pub rows: Seq<IisRowModel>,
    /// The running year, once one was seen.
    pub year: Option<int>,
    /// The running limit, once one was seen.
    pub limit: Option<int>,
}

/// One step of the contribution walk: short and all-blank rows are
/// skipped; a non-blank year or limit cell updates the running state; a
/// row is emitted only when its operation-date cell is non-blank.
pub open spec fn iis_step(acc: IisAcc, c: Seq<Seq<char>>) -> Option<IisAcc> {
    if c.len() < 6 {
        Some(acc)
    } else if all_blank(c) {
        Some(acc)
    } else if c[0].len() > 0 && int_of(crate::text::trim_spec(c[0])) is None {
        None
    } else {
        let year2 = if c[0].len() > 0 {
            int_of(crate::text::trim_spec(c[0]))
        } else {
            acc.year
        };
        if c[1].len() > 0 && !no_limit_cell(c[1]) && money_cell(c[1]) is None {
            None
        } else {
            let limit2 = if c[1].len() > 0 {
                if no_limit_cell(c[1]) {
                    Some(0int)
                } else {
                    money_cell(c[1])
                }
            } else {
                acc.limit
            };
            if c[2].len() == 0 {
                Some(IisAcc { rows: acc.rows, year: year2, limit: limit2 })
            } else if year2 is None {
                None
            } else if crate::date::date_of(crate::text::trim_spec(c[2])) is None {
                None
            } else if money_cell(c[3]) is None {
                None
            } else if !no_limit_cell(c[5]) && money_cell(c[5]) is None {
                None
            } else {
                let rem = if no_limit_cell(c[5]) {
                    0int
                } else {
                    money_cell(c[5]).unwrap()
                };
                let limitv = match limit2 {
                    Some(l) => l,
                    None => 0int,
                };
                Some(
                    IisAcc {
                        rows: acc.rows.push(
                            IisRowModel {
                                year: year2.unwrap(),
                                limit: limitv,
                                date: crate::date::date_of(
                                    crate::text::trim_spec(c[2]),
                                ).unwrap(),
                                amount: money_cell(c[3]).unwrap(),
                                reason: c[4],
                                remaining: rem,
                            },
                        ),
                        year: year2,
                        limit: limit2,
                    },
                )
            }
        }
    }
}

/// The contribution walk from row `i` on.
pub open spec fn iis_run(cells: Seq<Seq<Seq<char>>>, i: int, acc: IisAcc) -> Option<IisAcc>
    decreases cells.len() - i,
{
    if i < 0 || i >= cells.len() {
        Some(acc)
    } else {
        match iis_step(acc, cells[i]) {
            None => None,
            Some(a2) => iis_run(cells, i + 1, a2),
        }
    }
}

/// The abstract outcome of contribution decoding, the first three rows
/// skipped as headers.
pub open spec fn iis_outcome(cells: Seq<Seq<Seq<char>>>) -> Option<Seq<IisRowModel>> {
    match iis_run(cells, 3, IisAcc { rows: Seq::empty(), year: None, limit: None }) {
        None => None,
        Some(acc) => Some(acc.rows),
    }
}

/// The abstract state matching the concrete loop variables.
pub open spec fn iis_acc_of(
    rows: Seq<IisContribution>,
    y: Option<i32>,
    l: Option<Money>,
) -> IisAcc {
    IisAcc {
        rows: rows.map_values(|r: IisContribution| iis_row_model(r)),
        year: match y {
            Some(v) => Some(v as int),
            None => None,
        },
        limit: match l {
            Some(m) => Some(m.scaled as int),
            None => None,
        },
    }
}

/// Tests whether a cell declares "no limit".
fn is_no_limit(s: &String) -> (r: bool)
    ensures
        r == no_limit_cell(s@),
{
    let low = crate::words::to_lowercase(s.as_str());
    let lv = crate::text::chars_of(low.as_str());
    let pat = crate::text::chars_of("ограничений нет");
    crate::text::has_sub(&lv, &pat)
}

/// Decodes the contribution table from its rows.  The first three rows
/// carry headers and are skipped; year and limit are sticky: blank cells
/// inherit the most recently seen value; a row is emitted only when its
/// operation-date cell is non-blank; "no limit" means exact zero.
#[verifier::loop_isolation(false)]
#[verifier::rlimit(100)]
pub fn parse_iis_rows(rows: &Vec<RowData>) -> (r: Result<IisContributionsTable, ReportError>)
    ensures
        match iis_outcome(rows_cells(rows@)) {
            Some(ms) => r matches Ok(t) && t.rows@.map_values(
                |x: IisContribution| iis_row_model(x),
            ) == ms,
            None => r is Err,
        },
{
    let ghost cells = rows_cells(rows@);
    let mut out_rows: Vec<IisContribution> = Vec::new();
    let mut cur_year: Option<i32> = None;
    let mut cur_limit: Option<Money> = None;
    proof {
        assert(iis_acc_of(out_rows@, cur_year, cur_limit) =~= IisAcc {
            rows: Seq::empty(),
            year: None,
            limit: None,
        });
    }
    let mut i: usize = 3;
    if rows.len() < 3 {
        i = rows.len();
    }
    while i < rows.len()
        invariant
            3 <= i || i == rows@.len(),
            i <= rows@.len(),
            iis_run(cells, 3, IisAcc { rows: Seq::empty(), year: None, limit: None }) == iis_run(
                cells,
                i as int,
                iis_acc_of(out_rows@, cur_year, cur_limit),
            ),
        decreases rows@.len() - i,
    {
        let ghost acc = iis_acc_of(out_rows@, cur_year, cur_limit);
        let c = &rows[i].cells;
        proof {
            assert(cells[i as int] == rows@[i as int].cells.deep_view());
            assert(forall|j: int| 0 <= j < c@.len() ==> #[trigger] c.deep_view()[j] == c@[j]@);
        }
        if c.len() < 6 {
        } else if cells_all_blank(c) {
        } else {
            if !c[0].as_str().is_empty() {
                let cv = crate::text::chars_of(c[0].as_str());
                let tv = crate::text::trim_chars(&cv);
                match parse_i32_chars(&tv) {
                    Some(y) => {
                        cur_year = Some(y);
                    },
                    None => {
                        return Err(
                            ReportError::Number { value: c[0].clone(), column: "Год" },
                        );
                    },
                }
            }
            if !c[1].as_str().is_empty() {
                if is_no_limit(&c[1]) {
                    cur_limit = Some(Money::zero());
                } else {
                    match money_at(c, 1, "Лимит ИИС") {
                        Ok(m) => {
                            cur_limit = Some(m);
                        },
                        Err(e) => {
                            return Err(e);
                        },
                    }
                }
            }
            if !c[2].as_str().is_empty() {
                let year = match cur_year {
                    Some(y) => y,
                    None => {
                        return Err(ReportError::MissingField { field: "Год" });
                    },
                };
                let limit = match cur_limit {
                    Some(m) => m,
                    None => Money::zero(),
                };
                let date = match crate::date::parse_date(c[2].as_str()) {
                    Ok(d) => d,
                    Err(e) => {
                        return Err(e);
                    },
                };
                let amount = match money_at(c, 3, "Сумма ИИС") {
                    Ok(m) => m,
                    Err(e) => {
                        return Err(e);
                    },
                };
                let remaining = if is_no_limit(&c[5]) {
                    Money::zero()
                } else {
                    match money_at(c, 5, "Остаток лимита") {
                        Ok(m) => m,
                        Err(e) => {
                            return Err(e);
                        },
                    }
                };
                let row = IisContribution {
                    year,
                    limit_rub: limit,
                    date,
                    amount,
                    operation_reason: c[4].clone(),
                    remaining_limit: remaining,
                };
                let ghost old_rows = out_rows@;
                out_rows.push(row);
                proof {
                    assert(out_rows@.map_values(|x: IisContribution| iis_row_model(x))
                        =~= old_rows.map_values(|x: IisContribution| iis_row_model(x)).push(
                        iis_row_model(row),
                    ));
                    assert(iis_acc_of(out_rows@, cur_year, cur_limit) =~= iis_step(
                        acc,
                        cells[i as int],
                    ).unwrap());
                }
            } else {
                proof {
                    assert(iis_acc_of(out_rows@, cur_year, cur_limit) =~= iis_step(
                        acc,
                        cells[i as int],
                    ).unwrap());
                }
            }
        }
        i += 1;
    }
    Ok(IisContributionsTable { rows: out_rows })
}

} // verus!
