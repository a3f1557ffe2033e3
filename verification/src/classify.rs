//! Classification of free-text cash-flow descriptions into the closed
//! taxonomy of row kinds.

use vstd::prelude::*;
use crate::text::{chars_of, has_sub, has_sub_spec};
use crate::types::CashFlowKind;
use crate::words::{lower_of, to_lowercase};

verus! {

/// The kind a lowercased description is classified as: the first of the
/// fixed phrases it contains wins; no match means `Unknown`.
pub open spec fn classify_spec(lower: Seq<char>) -> CashFlowKind {
    if has_sub_spec(lower, "входящий остаток"@) {
        CashFlowKind::OpeningBalance
    } else if has_sub_spec(lower, "сальдо расчетов по сделкам"@) {
        CashFlowKind::TradesNet
    } else if has_sub_spec(lower, "корпоративные действия"@) {
        CashFlowKind::CorporateActions
    } else if has_sub_spec(lower, "комиссия брокера"@) {
        CashFlowKind::BrokerFee
    } else if has_sub_spec(lower, "комиссия биржи"@) {
        CashFlowKind::ExchangeFee
    } else if has_sub_spec(lower, "исходящий остаток"@) {
        CashFlowKind::ClosingBalance
    } else {
        CashFlowKind::Unknown
    }
}

/// Classifies a cash-flow description by ordered case-insensitive
/// substring checks against the known phrases.
pub fn classify_cash_flow(description: &str) -> (r: CashFlowKind)
    ensures
        r == classify_spec(lower_of(description@)),
{
    let low = to_lowercase(description);
    let lv = chars_of(low.as_str());
    let p = chars_of("входящий остаток");
    if has_sub(&lv, &p) {
        return CashFlowKind::OpeningBalance;
    }
    let p = chars_of("сальдо расчетов по сделкам");
    if has_sub(&lv, &p) {
        return CashFlowKind::TradesNet;
    }
    let p = chars_of("корпоративные действия");
    if has_sub(&lv, &p) {
        return CashFlowKind::CorporateActions;
    }
    let p = chars_of("комиссия брокера");
    if has_sub(&lv, &p) {
        return CashFlowKind::BrokerFee;
    }
    let p = chars_of("комиссия биржи");
    if has_sub(&lv, &p) {
        return CashFlowKind::ExchangeFee;
    }
    let p = chars_of("исходящий остаток");
    if has_sub(&lv, &p) {
        return CashFlowKind::ClosingBalance;
    }
    CashFlowKind::Unknown
}

} // verus!
