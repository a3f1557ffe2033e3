//! Domain types matching the sections of a brokerage statement.

use vstd::prelude::*;
use crate::date::Date;
use crate::money::Money;

verus! {

/// Identifier of a brokerage account: the contract number.  Equality is
/// exact string match.
#[derive(Debug, Clone, PartialEq, Eq, Hash)]
pub struct AccountId(pub String);

/// Classification of an account.
#[derive(Debug, Clone, Copy, PartialEq, Eq, Structural)]
pub enum AccountKind {
    /// An ordinary brokerage account.
    Broker,
    /// A tax-advantaged individual investment account.
    Iis,
}

/// Statement metadata: account, period and owner.
#[derive(Debug, Clone)]
pub struct ReportMetadata {
    /// Identifier of the account.
    pub account_id: AccountId,
    /// Classification of the account.
    pub account_kind: AccountKind,
    /// First day of the reporting period.
    pub period_start: Date,
    /// Last day of the reporting period.
    pub period_end: Date,
    /// Day the statement was generated.
    pub generated_at: Date,
    /// Name of the investor, title-cased.
    pub investor_name: String,
    /// Contract number, as printed.
    pub contract_number: String,
}

impl ReportMetadata {
    /// All dates are real calendar dates and the period is not reversed.
    pub open spec fn wf(&self) -> bool {
        self.period_start.wf() && self.period_end.wf() && self.generated_at.wf()
            && self.period_start.le_spec(self.period_end)
    }
}

/// One row of the asset valuation table: a venue and nine money figures.
#[derive(Debug, Clone)]
pub struct AssetValuationRow {
    /// Trading venue.
    pub venue: String,
    /// Securities value at period start.
    pub start_securities: Money,
    /// Cash at period start.
    pub start_cash: Money,
    /// Total at period start.
    pub start_total: Money,
    /// Securities value at period end.
    pub end_securities: Money,
    /// Cash at period end.
    pub end_cash: Money,
    /// Total at period end.
    pub end_total: Money,
    /// Change of securities value.
    pub delta_securities: Money,
    /// Change of cash.
    pub delta_cash: Money,
    /// Total change.
    pub delta_total: Money,
}

/// The asset valuation table.
#[derive(Debug, Clone)]
pub struct AssetValuation {
    /// Data rows, in table order.
    pub rows: Vec<AssetValuationRow>,
    /// Total change: the figure of the summary row, or, absent that row,
    /// the sum of the rows' total changes.
    pub total_delta: Money,
}

/// Kind of a cash-flow summary row, totally ordered for deterministic
/// grouping.
#[derive(Debug, Clone, Copy, PartialEq, Eq, Hash, PartialOrd, Ord, Structural)]
pub enum CashFlowKind {
    /// Opening balance.
    OpeningBalance,
    /// Net settlement of trades.
    TradesNet,
    /// Corporate actions.
    CorporateActions,
    /// Broker fee.
    BrokerFee,
    /// Exchange fee.
    ExchangeFee,
    /// Closing balance.
    ClosingBalance,
    /// Unrecognized description.
    Unknown,
}

/// Position of a cash-flow kind in the declared order.
pub open spec fn kind_rank_spec(k: CashFlowKind) -> int {
    match k {
        CashFlowKind::OpeningBalance => 0,
        CashFlowKind::TradesNet => 1,
        CashFlowKind::CorporateActions => 2,
        CashFlowKind::BrokerFee => 3,
        CashFlowKind::ExchangeFee => 4,
        CashFlowKind::ClosingBalance => 5,
        CashFlowKind::Unknown => 6,
    }
}

/// Position of a cash-flow kind in the declared order.
pub fn kind_rank(k: CashFlowKind) -> (r: u8)
    ensures
        r == kind_rank_spec(k),
{
    match k {
        CashFlowKind::OpeningBalance => 0,
        CashFlowKind::TradesNet => 1,
        CashFlowKind::CorporateActions => 2,
        CashFlowKind::BrokerFee => 3,
        CashFlowKind::ExchangeFee => 4,
        CashFlowKind::ClosingBalance => 5,
        CashFlowKind::Unknown => 6,
    }
}

/// One row of the cash-flow summary.
#[derive(Debug, Clone)]
pub struct CashFlowRow {
    /// Classification of the row.
    pub kind: CashFlowKind,
    /// The description as printed.
    pub description_raw: String,
    /// Amount.
    pub amount: Money,
    /// Currency code, free text.
    pub currency: String,
}

/// The cash-flow summary.
#[derive(Debug, Clone)]
pub struct CashFlowSummary {
    /// Rows, in encounter order.
    pub rows: Vec<CashFlowRow>,
}

/// A security position at period start and end.
#[derive(Debug, Clone)]
pub struct SecurityPosition {
    /// Name of the security.
    pub name: String,
    /// ISIN, free text.
    pub isin: String,
    /// Currency of the price.
    pub price_currency: String,
    /// Quantity at start.
    pub qty_start: Money,
    /// Nominal at start.
    pub nominal_start: Money,
    /// Price at start.
    pub price_start: Money,
    /// Value excluding accrued interest at start.
    pub value_start_no_ai: Money,
    /// Accrued interest at start.
    pub accrued_interest_start: Money,
    /// Quantity at end.
    pub qty_end: Money,
    /// Nominal at end.
    pub nominal_end: Money,
    /// Price at end.
    pub price_end: Money,
    /// Value excluding accrued interest at end.
    pub value_end_no_ai: Money,
    /// Accrued interest at end.
    pub accrued_interest_end: Money,
    /// Change of quantity.
    pub qty_delta: Money,
    /// Change of value.
    pub value_delta: Money,
    /// Planned incoming settlements.
    pub planned_in_qty: Money,
    /// Planned outgoing settlements.
    pub planned_out_qty: Money,
    /// Planned closing quantity.
    pub planned_end_qty: Money,
}

/// Positions of one trading venue.
#[derive(Debug, Clone)]
pub struct PortfolioMarket {
    /// Name of the venue.
    pub name: String,
    /// Positions on the venue.
    pub positions: Vec<SecurityPosition>,
}

/// The securities portfolio of a statement.
#[derive(Debug, Clone)]
pub struct Portfolio {
    /// Venues with their positions.
    pub markets: Vec<PortfolioMarket>,
}

/// One row of the tax-advantaged account contribution table.
#[derive(Debug, Clone)]
pub struct IisContribution {
    /// Year, inherited from the last row that set it.
    pub year: i32,
    /// Annual limit; zero for "no limit".
    pub limit_rub: Money,
    /// Day of the operation.
    pub date: Date,
    /// Amount contributed.
    pub amount: Money,
    /// Reason of the operation, free text.
    pub operation_reason: String,
    /// Limit remaining after the operation; zero for "no limit".
    pub remaining_limit: Money,
}

/// The contribution table of a tax-advantaged account.
#[derive(Debug, Clone)]
pub struct IisContributionsTable {
    /// Contribution rows, in table order.
    pub rows: Vec<IisContribution>,
}

/// A position summed across every occurrence of its ISIN in a set of
/// statements.
#[derive(Debug, Clone)]
pub struct MergedPosition {
    /// ISIN, the merge key.
    pub isin: String,
    /// Name, from the first occurrence.
    pub name: String,
    /// Price currency, from the first occurrence.
    pub price_currency: String,
    /// Summed quantity at start.
    pub qty_start: Money,
    /// Summed quantity at end.
    pub qty_end: Money,
    /// Summed value at start.
    pub value_start_no_ai: Money,
    /// Summed value at end.
    pub value_end_no_ai: Money,
    /// Summed change of quantity.
    pub qty_delta: Money,
    /// Summed change of value.
    pub value_delta: Money,
}

} // verus!
