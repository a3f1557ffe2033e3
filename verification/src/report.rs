//! Assembly of one statement's extraction result.

use vstd::prelude::*;
use crate::dom::{DomReport, RawReport};
use crate::error::ReportError;
use crate::types::{
    AssetValuation, CashFlowSummary, IisContributionsTable, Portfolio, ReportMetadata,
};

verus! {

/// Flags choosing which tables to load.
#[derive(Debug, Clone, Copy)]
pub struct ParseOptions {
    /// Load the asset valuation table.
    pub load_asset_valuation: bool,
    /// Load the cash-flow summary.
    pub load_cash_flow: bool,
    /// Load the securities portfolio.
    pub load_portfolio: bool,
    /// Load the contribution table.
    pub load_iis_contributions: bool,
}

impl ParseOptions {
    /// Loads every known table.
    pub fn everything() -> (r: ParseOptions)
        ensures
            r.load_asset_valuation && r.load_cash_flow && r.load_portfolio
                && r.load_iis_contributions,
    {
        ParseOptions {
            load_asset_valuation: true,
            load_cash_flow: true,
            load_portfolio: true,
            load_iis_contributions: true,
        }
    }

    /// Loads no table, keeping only the metadata.
    pub fn meta_only() -> (r: ParseOptions)
        ensures
            !r.load_asset_valuation && !r.load_cash_flow && !r.load_portfolio
                && !r.load_iis_contributions,
    {
        ParseOptions {
            load_asset_valuation: false,
            load_cash_flow: false,
            load_portfolio: false,
            load_iis_contributions: false,
        }
    }
}

impl Default for ParseOptions {
    /// Every table is loaded by default.
    fn default() -> (r: ParseOptions)
        ensures
            r.load_asset_valuation && r.load_cash_flow && r.load_portfolio
                && r.load_iis_contributions,
    {
        ParseOptions::everything()
    }
}

/// One statement's extraction result: metadata, and four independently
/// optional sections.  A section is absent, not an error, when its table
/// cannot be located.
#[derive(Debug, Clone)]
pub struct Report {
    /// Statement metadata.
    pub meta: ReportMetadata,
    /// The asset valuation table, when present and requested.
    pub asset_valuation: Option<AssetValuation>,
    /// The cash-flow summary, when present and requested.
    pub cash_flow_summary: Option<CashFlowSummary>,
    /// The securities portfolio, when present and requested.
    pub portfolio: Option<Portfolio>,
    /// The contribution table, when present and requested.
    pub iis_contributions: Option<IisContributionsTable>,
}

/// Law: section absence is non-fatal.  The recoverable "table not found"
/// failure becomes an absent section; a successful extraction is kept;
/// every other failure is passed through and aborts the document.
pub fn parse_optional<T>(loaded: Result<T, ReportError>) -> (r: Result<Option<T>, ReportError>)
    ensures
        match loaded {
            Ok(v) => r matches Ok(o) && (o matches Some(v2) && v2 == v),
            Err(e) => if e.is_table_not_found() {
                r matches Ok(o) && o is None
            } else {
                r matches Err(e2) && e2 == e
            },
        },
{
    match loaded {
        Ok(value) => Ok(Some(value)),
        Err(ReportError::TableNotFound { .. }) => Ok(None),
        Err(err) => Err(err),
    }
}

impl Report {
    /// Parses one statement document, loading every table.
    pub fn parse(raw: &RawReport) -> (r: Result<Report, ReportError>)
        ensures
            r matches Ok(rep) ==> rep.meta.wf(),
    {
        Report::parse_with_options(raw, ParseOptions::everything())
    }

    /// Parses a statement with the given options.  A disabled section is
    /// skipped entirely; a section whose table is missing is absent; any
    /// other failure aborts the whole document.
    pub fn parse_with_options(raw: &RawReport, options: ParseOptions) -> (r: Result<
        Report,
        ReportError,
    >)
        ensures
            r matches Ok(rep) ==> rep.meta.wf(),
            r matches Ok(rep) ==> (!options.load_asset_valuation ==> rep.asset_valuation
                is None),
            r matches Ok(rep) ==> (!options.load_cash_flow ==> rep.cash_flow_summary is None),
            r matches Ok(rep) ==> (!options.load_portfolio ==> rep.portfolio is None),
            r matches Ok(rep) ==> (!options.load_iis_contributions ==> rep.iis_contributions
                is None),
    {
        let dom = match DomReport::parse(raw) {
            Ok(d) => d,
            Err(e) => {
                return Err(e);
            },
        };
        let meta = match dom.meta() {
            Ok(m) => m,
            Err(e) => {
                return Err(e);
            },
        };
        let asset_valuation = if options.load_asset_valuation {
            match parse_optional(dom.parse_asset_valuation()) {
                Ok(v) => v,
                Err(e) => {
                    return Err(e);
                },
            }
        } else {
            None
        };
        let cash_flow_summary = if options.load_cash_flow {
            match parse_optional(dom.parse_cash_flow_summary()) {
                Ok(v) => v,
                Err(e) => {
                    return Err(e);
                },
            }
        } else {
            None
        };
        let portfolio = if options.load_portfolio {
            match parse_optional(dom.parse_portfolio()) {
                Ok(v) => v,
                Err(e) => {
                    return Err(e);
                },
            }
        } else {
            None
        };
        let iis_contributions = if options.load_iis_contributions {
            match parse_optional(dom.parse_iis_contributions()) {
                Ok(v) => v,
                Err(e) => {
                    return Err(e);
                },
            }
        } else {
            None
        };
        Ok(Report { meta, asset_valuation, cash_flow_summary, portfolio, iis_contributions })
    }
}

/// Step-by-step choice of the tables to parse.
pub struct ReportBuilder<'a> {
    raw: &'a RawReport,
    options: ParseOptions,
}

impl<'a> ReportBuilder<'a> {
    /// The options the builder currently holds.
    pub closed spec fn opts(&self) -> ParseOptions {
        self.options
    }

    /// The raw statement the builder reads.
    pub closed spec fn raw_ref(&self) -> &'a RawReport {
        self.raw
    }

    /// Starts a builder over the given raw statement, with every table
    /// enabled.
    pub fn new(raw: &'a RawReport) -> (r: ReportBuilder<'a>)
        ensures
            r.opts().load_asset_valuation && r.opts().load_cash_flow
                && r.opts().load_portfolio && r.opts().load_iis_contributions,
    {
        ReportBuilder { raw, options: ParseOptions::everything() }
    }

    /// Enables or disables the asset valuation table.
    pub fn asset_valuation(self, enabled: bool) -> (r: ReportBuilder<'a>)
        ensures
            r.opts().load_asset_valuation == enabled,
            r.opts().load_cash_flow == self.opts().load_cash_flow,
            r.opts().load_portfolio == self.opts().load_portfolio,
            r.opts().load_iis_contributions == self.opts().load_iis_contributions,
            r.raw_ref() == self.raw_ref(),
    {
        let mut s = self;
        s.options.load_asset_valuation = enabled;
        s
    }

    /// Enables or disables the cash-flow summary.
    pub fn cash_flow(self, enabled: bool) -> (r: ReportBuilder<'a>)
        ensures
            r.opts().load_cash_flow == enabled,
            r.opts().load_asset_valuation == self.opts().load_asset_valuation,
            r.opts().load_portfolio == self.opts().load_portfolio,
            r.opts().load_iis_contributions == self.opts().load_iis_contributions,
            r.raw_ref() == self.raw_ref(),
    {
        let mut s = self;
        s.options.load_cash_flow = enabled;
        s
    }

    /// Enables or disables the securities portfolio.
    pub fn portfolio(self, enabled: bool) -> (r: ReportBuilder<'a>)
        ensures
            r.opts().load_portfolio == enabled,
            r.opts().load_asset_valuation == self.opts().load_asset_valuation,
            r.opts().load_cash_flow == self.opts().load_cash_flow,
            r.opts().load_iis_contributions == self.opts().load_iis_contributions,
            r.raw_ref() == self.raw_ref(),
    {
        let mut s = self;
        s.options.load_portfolio = enabled;
        s
    }

    /// Enables or disables the contribution table.
    pub fn iis_contributions(self, enabled: bool) -> (r: ReportBuilder<'a>)
        ensures
            r.opts().load_iis_contributions == enabled,
            r.opts().load_asset_valuation == self.opts().load_asset_valuation,
            r.opts().load_cash_flow == self.opts().load_cash_flow,
            r.opts().load_portfolio == self.opts().load_portfolio,
            r.raw_ref() == self.raw_ref(),
    {
        let mut s = self;
        s.options.load_iis_contributions = enabled;
        s
    }

    /// Parses with the chosen options.
    pub fn parse(self) -> (r: Result<Report, ReportError>)
        ensures
            r matches Ok(rep) ==> rep.meta.wf(),
    {
        Report::parse_with_options(self.raw, self.options)
    }
}

} // verus!
