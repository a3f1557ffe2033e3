//! Extraction and reconciliation of structured financial data from
//! semi-structured brokerage statement documents: section location by
//! header text, locale-aware field decoding, classification of free-text
//! descriptions, and exact cross-document aggregation.

mod classify;
mod date;
mod dom;
mod error;
mod locate;
mod money;
mod report;
mod report_set;
mod scan;
mod sections;
mod text;
mod types;
mod words;

pub use crate::classify::classify_cash_flow;
pub use crate::date::{Date, format_date, parse_date};
pub use crate::dom::{collect_text, DomReport, RawReport};
pub use crate::error::ReportError;
pub use crate::locate::{find_table_with_headers, RowData, TableData};
pub use crate::money::{Money, normalize_number, parse_money_or_zero};
pub use crate::report::{ParseOptions, parse_optional, Report, ReportBuilder};
pub use crate::report_set::ReportSet;
pub use crate::scan::{
    classify_account, extract_contract, extract_investor_name, extract_period,
    find_investor_block, metadata_from_texts,
};
pub use crate::sections::{
    parse_asset_valuation_rows, parse_cash_flow_rows, parse_iis_rows, parse_portfolio_rows,
};
pub use crate::types::{
    AccountId, AccountKind, AssetValuation, AssetValuationRow, CashFlowKind, CashFlowRow,
    CashFlowSummary, IisContribution, IisContributionsTable, kind_rank, MergedPosition,
    Portfolio, PortfolioMarket, ReportMetadata, SecurityPosition,
};
pub use crate::words::{capitalize_words, normalize_chars};
