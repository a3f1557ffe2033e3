//! The document boundary: the raw markup text, the parsed tree of the
//! outside markup library, and the plain snapshots the verified logic
//! reads.  Every call into the markup library stands behind a trusted
//! item here; everything downstream works on plain values.

use vstd::prelude::*;
use crate::error::ReportError;
use crate::locate::{find_table_with_headers, RowData, TableData};
use crate::scan::{find_investor_block, metadata_from_texts};
use crate::sections::{
    parse_asset_valuation_rows, parse_cash_flow_rows, parse_iis_rows, parse_portfolio_rows,
};
use crate::types::{
    AssetValuation, CashFlowSummary, IisContributionsTable, Portfolio, ReportMetadata,
};
use crate::words::normalize_chars;

verus! {

/// A statement's raw markup text, not yet parsed.
#[derive(Debug, Clone)]
pub struct RawReport {
    /// The whole markup text.
    pub html: String,
}

impl RawReport {
    /// Relies on std's `Read::read_to_string` to fetch the text; an I/O
    /// failure becomes `ReportError::Io` carrying the reader's message.
    #[verifier::external_body]
    pub fn from_reader<R: std::io::Read>(reader: R) -> (r: Result<RawReport, ReportError>) {
        let mut reader = reader;
        let mut html = String::new();
        match std::io::Read::read_to_string(&mut reader, &mut html) {
            Ok(_) => Ok(RawReport { html }),
            Err(e) => Err(ReportError::Io(e.to_string())),
        }
    }

    /// Wraps ready markup text.
    pub fn from_str(s: &str) -> (r: RawReport)
        ensures
            r.html@ == s@,
    {
        RawReport { html: s.to_owned() }
    }
}

#[verifier::external_type_specification]
#[verifier::external_body]
pub struct ExHtml(scraper::Html);

#[verifier::external_type_specification]
#[verifier::external_body]
pub struct ExElementRef<'a>(scraper::ElementRef<'a>);

/// Relies on scraper's `Html::parse_document`: builds the document tree
/// from markup text; it never fails.
#[verifier::external_body]
fn parse_document(html: &str) -> scraper::Html {
    scraper::Html::parse_document(html)
}

/// Relies on scraper's `Selector::parse` and `Html::select`: the elements
/// matching the selector, in document order.  The fixed selectors used
/// here always parse; a failed parse yields no elements.
#[verifier::external_body]
fn select_in_doc<'a>(doc: &'a scraper::Html, selector: &str) -> Vec<scraper::ElementRef<'a>> {
    match scraper::Selector::parse(selector) {
        Ok(sel) => doc.select(&sel).collect(),
        Err(_) => Vec::new(),
    }
}

/// Relies on scraper's `Selector::parse` and `ElementRef::select`: the
/// descendant elements matching the selector, in document order.
#[verifier::external_body]
fn select_in_element<'a>(
    el: &scraper::ElementRef<'a>,
    selector: &str,
) -> Vec<scraper::ElementRef<'a>> {
    match scraper::Selector::parse(selector) {
        Ok(sel) => el.select(&sel).collect(),
        Err(_) => Vec::new(),
    }
}

/// Relies on scraper's `ElementRef::text`: the concatenation of all
/// descendant text nodes.
#[verifier::external_body]
fn element_text(el: &scraper::ElementRef<'_>) -> String {
    el.text().collect()
}

/// Relies on scraper's `Element::name`: whether this is a header cell.
#[verifier::external_body]
fn is_header_cell(el: &scraper::ElementRef<'_>) -> bool {
    el.value().name() == "th"
}

/// Relies on scraper's `Element::classes`: the element's class names.
#[verifier::external_body]
fn element_classes(el: &scraper::ElementRef<'_>) -> Vec<String> {
    el.value().classes().map(|c| c.to_string()).collect()
}

/// The whitespace-normalized text of an element and its descendants.
pub fn collect_text(element: &scraper::ElementRef<'_>) -> String {
    let raw = element_text(element);
    normalize_chars(raw.as_str())
}

/// Reads one table row: all cell texts, and the data cell texts.
fn row_data(row: &scraper::ElementRef<'_>) -> RowData {
    let cell_els = select_in_element(row, "td, th");
    let mut cells: Vec<String> = Vec::new();
    let mut header_cells: Vec<String> = Vec::new();
    let mut i: usize = 0;
    while i < cell_els.len()
        decreases cell_els@.len() - i,
    {
        let txt = collect_text(&cell_els[i]);
        header_cells.push(txt.clone());
        if !is_header_cell(&cell_els[i]) {
            cells.push(txt);
        }
        i += 1;
    }
    RowData { cells, header_cells }
}

/// Tests whether the element carries the asset-valuation class marker.
fn has_rating_class(el: &scraper::ElementRef<'_>) -> bool {
    let classes = element_classes(el);
    let mut i: usize = 0;
    while i < classes.len()
        decreases classes@.len() - i,
    {
        if crate::text::str_eq(classes[i].as_str(), "RatingAssets") {
            return true;
        }
        i += 1;
    }
    false
}

/// A parsed statement document, ready for section extraction.
pub struct DomReport {
    doc: scraper::Html,
}

impl DomReport {
    /// Parses the raw markup into a document tree; this never fails.
    pub fn parse(raw: &RawReport) -> (r: Result<DomReport, ReportError>)
        ensures
            r is Ok,
    {
        Ok(DomReport { doc: parse_document(raw.html.as_str()) })
    }

    /// Reads every table of the document as plain data.
    fn tables(&self) -> Vec<TableData> {
        let table_els = select_in_doc(&self.doc, "table");
        let mut tables: Vec<TableData> = Vec::new();
        let mut i: usize = 0;
        while i < table_els.len()
            decreases table_els@.len() - i,
        {
            let rating = has_rating_class(&table_els[i]);
            let row_els = select_in_element(&table_els[i], "tr");
            let mut rows: Vec<RowData> = Vec::new();
            let mut j: usize = 0;
            while j < row_els.len()
                decreases row_els@.len() - j,
            {
                rows.push(row_data(&row_els[j]));
                j += 1;
            }
            tables.push(TableData { rating_assets: rating, rows });
            i += 1;
        }
        tables
    }

    /// The normalized text of the first top-level heading, if any.
    fn first_heading(&self) -> Option<String> {
        let els = select_in_doc(&self.doc, "h3");
        if els.len() == 0 {
            None
        } else {
            Some(collect_text(&els[0]))
        }
    }

    /// The raw texts of all paragraph elements, in document order.
    fn paragraph_texts(&self) -> Vec<String> {
        let els = select_in_doc(&self.doc, "p");
        let mut out: Vec<String> = Vec::new();
        let mut i: usize = 0;
        while i < els.len()
            decreases els@.len() - i,
        {
            out.push(element_text(&els[i]));
            i += 1;
        }
        out
    }

    /// Extracts the statement metadata: period and generation date from
    /// the heading, investor name, contract number and account kind from
    /// the first paragraph mentioning the investor.
    pub fn meta(&self) -> (r: Result<ReportMetadata, ReportError>)
        ensures
            r matches Ok(m) ==> m.wf(),
    {
        let heading = match self.first_heading() {
            Some(h) => h,
            None => {
                return Err(ReportError::MissingField { field: "heading" });
            },
        };
        let paragraphs = self.paragraph_texts();
        let idx = match find_investor_block(&paragraphs) {
            Some(i) => i,
            None => {
                return Err(ReportError::MissingField { field: "investor" });
            },
        };
        metadata_from_texts(heading.as_str(), paragraphs[idx].as_str())
    }

    /// Decodes the asset valuation table, located by its class marker.
    /// A missing table is the recoverable "not found" failure.
    pub fn parse_asset_valuation(&self) -> (r: Result<AssetValuation, ReportError>) {
        let tables = self.tables();
        let mut i: usize = 0;
        while i < tables.len()
            decreases tables@.len() - i,
        {
            if tables[i].rating_assets {
                return parse_asset_valuation_rows(&tables[i].rows);
            }
            i += 1;
        }
        Err(ReportError::TableNotFound { table: "RatingAssets" })
    }

    /// Decodes the cash-flow summary, located by its header phrases.
    pub fn parse_cash_flow_summary(&self) -> (r: Result<CashFlowSummary, ReportError>) {
        let tables = self.tables();
        let mut req: Vec<String> = Vec::new();
        req.push(String::from_str("Описание"));
        req.push(String::from_str("Сумма"));
        req.push(String::from_str("Валюта"));
        match find_table_with_headers(&tables, &req, None) {
            Some(ti) => parse_cash_flow_rows(&tables[ti].rows),
            None => Err(ReportError::TableNotFound { table: "CashFlowSummary" }),
        }
    }

    /// Decodes the securities portfolio, located by its header phrases,
    /// which are split over two header rows.
    pub fn parse_portfolio(&self) -> (r: Result<Portfolio, ReportError>) {
        let tables = self.tables();
        let mut req: Vec<String> = Vec::new();
        req.push(String::from_str("ISIN"));
        req.push(String::from_str("Рыночная стоимость, без НКД"));
        req.push(String::from_str("Рыночная цена"));
        req.push(String::from_str("Плановые зачисления"));
        match find_table_with_headers(&tables, &req, Some(2)) {
            Some(ti) => parse_portfolio_rows(&tables[ti].rows),
            None => Err(ReportError::TableNotFound { table: "Portfolio" }),
        }
    }

    /// Decodes the contribution table, located by its header phrases.
    pub fn parse_iis_contributions(&self) -> (r: Result<IisContributionsTable, ReportError>) {
        let tables = self.tables();
        let mut req: Vec<String> = Vec::new();
        req.push(String::from_str("Год"));
        req.push(String::from_str("Лимит, руб."));
        req.push(String::from_str("Дата операции"));
        req.push(String::from_str("Сумма, руб."));
        req.push(String::from_str("Основание операции"));
        req.push(String::from_str("Остаток лимита"));
        match find_table_with_headers(&tables, &req, None) {
            Some(ti) => parse_iis_rows(&tables[ti].rows),
            None => Err(ReportError::TableNotFound { table: "IISContributions" }),
        }
    }
}

} // verus!
