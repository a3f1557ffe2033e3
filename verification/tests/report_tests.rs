use sber_invest_report::{
    AccountKind, CashFlowKind, Money, RawReport, Report, ReportBuilder, ReportSet,
};
use sber_invest_report::{capitalize_words, classify_cash_flow, normalize_chars};

fn broker_html() -> String {
    let mut s = String::new();
    s.push_str("<html><body>");
    s.push_str(
        "<h3>Отчет брокера за период с 01.01.2024 по 31.03.2024, дата создания 01.04.2024</h3>",
    );
    s.push_str("<p>Инвестор: петр петров\nДоговор: 100ABC</p>");
    // Asset valuation, located by its class marker; three header rows.
    s.push_str("<table class=\"RatingAssets\">");
    s.push_str("<tr><th>Оценка активов</th></tr>");
    s.push_str("<tr><th>шапка</th></tr>");
    s.push_str("<tr><th>руб.</th></tr>");
    s.push_str(
        "<tr><td>МосБиржа</td><td>100</td><td>50</td><td>150</td><td>120</td><td>60</td><td>180</td><td>20</td><td>10</td><td>30</td></tr>",
    );
    s.push_str("<tr><td>Итого</td><td>30</td></tr>");
    s.push_str("</table>");
    // Cash flow summary; two header rows.
    s.push_str("<table>");
    s.push_str("<tr><td>Описание</td><td>Сумма</td><td>Валюта</td></tr>");
    s.push_str("<tr><td>единицы</td><td>руб.</td><td>код</td></tr>");
    s.push_str("<tr><td>Входящий остаток</td><td>1000</td><td>RUB</td></tr>");
    s.push_str("<tr><td>Комиссия брокера</td><td>-10</td><td>RUB</td></tr>");
    s.push_str("<tr><td>Исходящий остаток</td><td>990</td><td>RUB</td></tr>");
    s.push_str("</table>");
    // Portfolio; header phrases on the second header row, three header rows.
    s.push_str("<table>");
    s.push_str("<tr><th>Портфель ценных бумаг</th></tr>");
    s.push_str(
        "<tr><th>Наименование</th><th>ISIN</th><th>Валюта</th><th>Рыночная цена</th><th>Рыночная стоимость, без НКД</th><th>Плановые зачисления</th></tr>",
    );
    s.push_str("<tr><th>шапка</th></tr>");
    s.push_str("<tr><td>Площадка: МосБиржа</td></tr>");
    s.push_str(
        "<tr><td>Акции СберБанк</td><td>RU0009029540</td><td>RUB</td><td>10</td><td>0</td><td>250.50</td><td>2505</td><td>0</td><td>12</td><td>0</td><td>260</td><td>3120</td><td>0</td><td>2</td><td>615</td><td>0</td><td>0</td><td>12</td></tr>",
    );
    s.push_str("</table>");
    s.push_str("</body></html>");
    s
}

fn iis_html() -> String {
    let mut s = String::new();
    s.push_str("<html><body>");
    s.push_str(
        "<h3>Отчет брокера за период с 01.01.2023 по 31.12.2023, дата создания 05.01.2024</h3>",
    );
    s.push_str(
        "<p>Инвестор: Петр Петров\nДоговор: I000XYZ (индивидуального инвестиционного счета)</p>",
    );
    s.push_str("<table>");
    s.push_str(
        "<tr><td>Год</td><td>Лимит, руб.</td><td>Дата операции</td><td>Сумма, руб.</td><td>Основание операции</td><td>Остаток лимита</td></tr>",
    );
    s.push_str("<tr><td>шапка</td></tr>");
    s.push_str("<tr><td>ед.</td></tr>");
    s.push_str(
        "<tr><td>2023</td><td>ограничений нет</td><td>15.03.2023</td><td>50000</td><td>Взнос</td><td>ограничений нет</td></tr>",
    );
    s.push_str(
        "<tr><td></td><td></td><td>20.06.2023</td><td>10000</td><td>Взнос</td><td>ограничений нет</td></tr>",
    );
    s.push_str("</table>");
    s.push_str("</body></html>");
    s
}

fn prod_html() -> String {
    let mut s = String::new();
    s.push_str("<html><body>");
    s.push_str(
        "<h3>Отчет брокера за период с 01.04.2024 по 30.06.2024, дата создания 01.07.2024</h3>",
    );
    s.push_str("<p>Инвестор: иванов иван иванович\nДоговор: 555DEF по ИИС</p>");
    s.push_str("<table>");
    s.push_str("<tr><th>Портфель ценных бумаг</th></tr>");
    s.push_str(
        "<tr><th>Наименование</th><th>ISIN</th><th>Валюта</th><th>Рыночная цена</th><th>Рыночная стоимость, без НКД</th><th>Плановые зачисления</th></tr>",
    );
    s.push_str("<tr><th>шапка</th></tr>");
    s.push_str("<tr><td>Площадка: СПБ</td></tr>");
    for (name, isin) in [
        ("Бумага А", "RU000A0JX0J2"),
        ("Бумага Б", "RU000A1025V3"),
        ("Бумага В", "RU000A0ZZ117"),
    ] {
        s.push_str(&format!(
            "<tr><td>{}</td><td>{}</td><td>RUB</td><td>1</td><td>0</td><td>2</td><td>3</td><td>0</td><td>4</td><td>0</td><td>5</td><td>6</td><td>0</td><td>1</td><td>2</td><td>0</td><td>0</td><td>4</td></tr>",
            name, isin
        ));
    }
    s.push_str("</table>");
    s.push_str("</body></html>");
    s
}

fn parse_html(html: &str) -> Report {
    let raw = RawReport::from_str(html);
    ReportBuilder::new(&raw).parse().expect("parse fixture")
}

#[test]
fn parses_broker_fixture() {
    let report = parse_html(&broker_html());
    assert_eq!(report.meta.account_id.0, "100ABC");
    assert!(report.asset_valuation.is_some());
    assert!(report.portfolio.is_some());
    let portfolio = report.portfolio.as_ref().unwrap();
    assert_eq!(portfolio.markets.len(), 1);
    assert_eq!(portfolio.markets[0].positions.len(), 1);
    let cash = report.cash_flow_summary.as_ref().unwrap();
    assert_eq!(cash.rows.len(), 3);
}

#[test]
fn parses_iis_fixture() {
    let report = parse_html(&iis_html());
    assert_eq!(report.meta.account_id.0, "I000XYZ");
    assert_eq!(report.meta.investor_name, "Петр Петров");
    assert_eq!(report.meta.account_kind, AccountKind::Iis);
    let iis = report.iis_contributions.as_ref().unwrap();
    assert_eq!(iis.rows.len(), 2);
    assert_eq!(iis.rows[0].limit_rub, Money::zero());
}

#[test]
fn parses_prod_fixture() {
    let report = parse_html(&prod_html());
    assert_eq!(report.meta.investor_name, "Иванов Иван Иванович");
    assert_eq!(report.meta.account_kind, AccountKind::Iis);
    assert!(report.portfolio.is_some());
    let markets = report.portfolio.unwrap().markets;
    assert_eq!(markets.len(), 1);
    assert_eq!(markets[0].positions.len(), 3);
}

#[test]
fn blank_money_cells_are_exact_zero() {
    assert_eq!(
        sber_invest_report::parse_money_or_zero("", "x").unwrap(),
        Money::zero()
    );
    assert_eq!(
        sber_invest_report::parse_money_or_zero("  \u{a0}\u{202f}+ ", "x").unwrap(),
        Money::zero()
    );
    assert_eq!(
        sber_invest_report::parse_money_or_zero(" + 1 234.50", "x").unwrap(),
        Money::new(123450, 2)
    );
}

#[test]
fn bad_money_cell_is_an_error() {
    let err = sber_invest_report::parse_money_or_zero(" abc ", "Сумма ДС").unwrap_err();
    match err {
        sber_invest_report::ReportError::Number { value, column } => {
            assert_eq!(value, "abc");
            assert_eq!(column, "Сумма ДС");
        },
        other => panic!("unexpected error: {:?}", other),
    }
}

#[test]
fn date_roundtrip_keeps_the_digits() {
    let d = sber_invest_report::parse_date(" 05.03.2021 ").unwrap();
    assert_eq!(sber_invest_report::format_date(&d), "05.03.2021");
    let d2 = sber_invest_report::parse_date("29.02.2024").unwrap();
    assert_eq!(sber_invest_report::format_date(&d2), "29.02.2024");
}

#[test]
fn bad_dates_are_errors() {
    assert!(sber_invest_report::parse_date("2024-01-01").is_err());
    assert!(sber_invest_report::parse_date("31.02.2024").is_err());
    assert!(sber_invest_report::parse_date("29.02.2023").is_err());
    assert!(sber_invest_report::parse_date("1.1.2024").is_err());
}

#[test]
fn valuation_total_without_summary_row_is_the_sum() {
    let mut html = broker_html().replace("<tr><td>Итого</td><td>30</td></tr>", "");
    html = html.replace(
        "<tr><td>МосБиржа</td><td>100</td><td>50</td><td>150</td><td>120</td><td>60</td><td>180</td><td>20</td><td>10</td><td>30</td></tr>",
        "<tr><td>МосБиржа</td><td>100</td><td>50</td><td>150</td><td>120</td><td>60</td><td>180</td><td>20</td><td>10</td><td>30</td></tr><tr><td>СПБ</td><td>1</td><td>2</td><td>3</td><td>4</td><td>5</td><td>6</td><td>7</td><td>8</td><td>15.5</td></tr>",
    );
    let report = parse_html(&html);
    let av = report.asset_valuation.unwrap();
    assert_eq!(av.rows.len(), 2);
    assert_eq!(av.total_delta, Money::new(455, 1));
}

#[test]
fn valuation_summary_row_wins() {
    let report = parse_html(&broker_html());
    let av = report.asset_valuation.unwrap();
    assert_eq!(av.total_delta, Money::new(30, 0));
}

#[test]
fn cash_flow_merge_is_commutative() {
    let a = parse_html(&broker_html());
    let mut b = parse_html(&broker_html());
    if let Some(cash) = b.cash_flow_summary.as_mut() {
        for row in cash.rows.iter_mut() {
            row.amount = Money::new(7, 0);
        }
    }
    let ab = ReportSet::from_reports(vec![a.clone(), b.clone()])
        .merge_cash_flows()
        .unwrap();
    let ba = ReportSet::from_reports(vec![b, a]).merge_cash_flows().unwrap();
    assert_eq!(ab.rows.len(), ba.rows.len());
    for (x, y) in ab.rows.iter().zip(ba.rows.iter()) {
        assert_eq!(x.kind, y.kind);
        assert_eq!(x.currency, y.currency);
        assert_eq!(x.amount, y.amount);
    }
}

#[test]
fn cash_flow_merge_groups_and_orders() {
    let report = parse_html(&broker_html());
    let set = ReportSet::from_reports(vec![report.clone(), report]);
    let merged = set.merge_cash_flows().unwrap();
    assert_eq!(merged.rows.len(), 3);
    assert_eq!(merged.rows[0].kind, CashFlowKind::OpeningBalance);
    assert_eq!(merged.rows[0].amount, Money::new(2000, 0));
    assert_eq!(merged.rows[1].kind, CashFlowKind::BrokerFee);
    assert_eq!(merged.rows[1].amount, Money::new(-20, 0));
    assert_eq!(merged.rows[2].kind, CashFlowKind::ClosingBalance);
    assert_eq!(merged.rows[2].amount, Money::new(1980, 0));
}

#[test]
fn position_merge_is_additive() {
    let report = parse_html(&broker_html());
    let single = ReportSet::from_reports(vec![report.clone()])
        .merge_positions()
        .unwrap();
    let double = ReportSet::from_reports(vec![report.clone(), report])
        .merge_positions()
        .unwrap();
    assert_eq!(single.len(), 1);
    assert_eq!(double.len(), 1);
    let s = &single[0];
    let d = &double[0];
    assert_eq!(d.isin, s.isin);
    assert_eq!(d.name, s.name);
    assert_eq!(d.price_currency, s.price_currency);
    assert_eq!(d.qty_start.scaled, 2 * s.qty_start.scaled);
    assert_eq!(d.qty_end.scaled, 2 * s.qty_end.scaled);
    assert_eq!(d.value_start_no_ai.scaled, 2 * s.value_start_no_ai.scaled);
    assert_eq!(d.value_end_no_ai.scaled, 2 * s.value_end_no_ai.scaled);
    assert_eq!(d.qty_delta.scaled, 2 * s.qty_delta.scaled);
    assert_eq!(d.value_delta.scaled, 2 * s.value_delta.scaled);
}

#[test]
fn missing_portfolio_section_is_absent_not_fatal() {
    let html = broker_html().replace("Рыночная стоимость, без НКД", "другая колонка");
    let report = parse_html(&html);
    assert!(report.portfolio.is_none());
    assert!(report.asset_valuation.is_some());
    assert!(report.cash_flow_summary.is_some());
    assert_eq!(report.meta.account_id.0, "100ABC");
}

#[test]
fn metadata_scenario_is_decoded_exactly() {
    let heading =
        "Отчет за период с 01.01.2024 по 31.03.2024, дата создания 01.04.2024";
    let investor = "Инвестор: петр петров\nДоговор: 100ABC";
    let meta = sber_invest_report::metadata_from_texts(heading, investor).unwrap();
    assert_eq!(meta.period_start, sber_invest_report::parse_date("01.01.2024").unwrap());
    assert_eq!(meta.period_end, sber_invest_report::parse_date("31.03.2024").unwrap());
    assert_eq!(meta.generated_at, sber_invest_report::parse_date("01.04.2024").unwrap());
    assert_eq!(meta.investor_name, "Петр Петров");
    assert_eq!(meta.contract_number, "100ABC");
    assert_eq!(meta.account_id.0, "100ABC");
    assert_eq!(meta.account_kind, AccountKind::Broker);
}

#[test]
fn iis_sticky_year_and_no_limit_scenario() {
    let report = parse_html(&iis_html());
    let iis = report.iis_contributions.unwrap();
    assert_eq!(iis.rows.len(), 2);
    assert_eq!(iis.rows[0].year, 2023);
    assert_eq!(iis.rows[1].year, 2023);
    assert_eq!(iis.rows[0].limit_rub, Money::zero());
    assert_eq!(iis.rows[1].limit_rub, Money::zero());
    assert_eq!(iis.rows[0].amount, Money::new(50000, 0));
    assert_eq!(
        iis.rows[1].date,
        sber_invest_report::parse_date("20.06.2023").unwrap()
    );
}

#[test]
fn classifier_matches_known_phrases_case_insensitively() {
    assert_eq!(classify_cash_flow("Входящий остаток"), CashFlowKind::OpeningBalance);
    assert_eq!(classify_cash_flow("ВХОДЯЩИЙ ОСТАТОК"), CashFlowKind::OpeningBalance);
    assert_eq!(
        classify_cash_flow("Сальдо расчетов по сделкам купли-продажи"),
        CashFlowKind::TradesNet
    );
    assert_eq!(
        classify_cash_flow("Корпоративные действия эмитента"),
        CashFlowKind::CorporateActions
    );
    assert_eq!(classify_cash_flow("Комиссия Брокера за сделки"), CashFlowKind::BrokerFee);
    assert_eq!(classify_cash_flow("Комиссия Биржи"), CashFlowKind::ExchangeFee);
    assert_eq!(classify_cash_flow("Исходящий остаток"), CashFlowKind::ClosingBalance);
    assert_eq!(classify_cash_flow("что-то ещё"), CashFlowKind::Unknown);
}

#[test]
fn capitalize_words_title_cases_names() {
    assert_eq!(capitalize_words("петр петров"), "Петр Петров");
    assert_eq!(capitalize_words("ИВАНОВ иван ИВАНОВИЧ"), "Иванов Иван Иванович");
    assert_eq!(capitalize_words(""), "");
    assert_eq!(capitalize_words("  one   two  "), "One Two");
}

#[test]
fn normalize_chars_collapses_whitespace() {
    assert_eq!(normalize_chars("  a\t\n b\u{a0} c  "), "a b c");
    assert_eq!(normalize_chars("\u{a0}\u{2009}"), "");
    assert_eq!(normalize_chars("plain"), "plain");
}

#[test]
fn missing_heading_or_investor_is_reported() {
    let raw = RawReport::from_str("<html><body><p>ничего</p></body></html>");
    let err = Report::parse(&raw).unwrap_err();
    assert!(matches!(
        err,
        sber_invest_report::ReportError::MissingField { field: "heading" }
    ));
    let raw2 = RawReport::from_str(
        "<html><body><h3>за период с 01.01.2024 по 31.03.2024, дата создания 01.04.2024</h3></body></html>",
    );
    let err2 = Report::parse(&raw2).unwrap_err();
    assert!(matches!(
        err2,
        sber_invest_report::ReportError::MissingField { field: "investor" }
    ));
}

#[test]
fn heading_without_period_pattern_is_a_pattern_error() {
    let raw = RawReport::from_str(
        "<html><body><h3>просто заголовок</h3><p>Инвестор: имя\nДоговор: 1A</p></body></html>",
    );
    let err = Report::parse(&raw).unwrap_err();
    assert!(matches!(err, sber_invest_report::ReportError::Regex(_)));
}

#[test]
fn builder_toggles_skip_sections() {
    let raw = RawReport::from_str(&broker_html());
    let report = ReportBuilder::new(&raw)
        .asset_valuation(false)
        .portfolio(false)
        .parse()
        .unwrap();
    assert!(report.asset_valuation.is_none());
    assert!(report.portfolio.is_none());
    assert!(report.cash_flow_summary.is_some());
}

#[test]
fn by_account_filters_reports() {
    let a = parse_html(&broker_html());
    let b = parse_html(&iis_html());
    let set = ReportSet::from_reports(vec![a, b]);
    let id = sber_invest_report::AccountId(String::from("I000XYZ"));
    let picked = set.by_account(&id);
    assert_eq!(picked, vec![1usize]);
}

#[test]
fn money_equality_ignores_trailing_zeros() {
    let a = sber_invest_report::parse_money_or_zero("2.50", "x").unwrap();
    let b = sber_invest_report::parse_money_or_zero("2.5", "x").unwrap();
    assert_eq!(a, b);
    let c = sber_invest_report::parse_money_or_zero("-0.1", "x").unwrap();
    assert_eq!(c, Money::new(-1, 1));
}
