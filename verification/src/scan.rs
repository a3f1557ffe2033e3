//! Scanners for the fixed text patterns of the statement header: the
//! reporting period, the investor name and the contract number.

use vstd::prelude::*;
use crate::date::{date_of, date_shape, Date, parse_date};
use crate::error::ReportError;
use crate::text::{
    chars_of, is_alnum, is_alnum_c, is_digit, is_digit_c, is_space_c, lemma_trim_noop,
    matches_at, occurs_at, skip_spaces, skip_spaces_from, string_from_chars, subvec, trim_spec,
};

verus! {

/// First position at or after `j` whose character satisfies `p`, or the
/// length of `s` when there is none.
pub open spec fn first_from(s: Seq<char>, j: int, p: spec_fn(char) -> bool) -> int
    decreases s.len() - j,
{
    if j < 0 || j >= s.len() {
        s.len() as int
    } else if p(s[j]) {
        j
    } else {
        first_from(s, j + 1, p)
    }
}

/// Characterization of `first_from` by its surroundings.
pub proof fn lemma_first_from(s: Seq<char>, j: int, p: spec_fn(char) -> bool, k: int)
    requires
        0 <= j <= k <= s.len(),
        forall|m: int| j <= m < k ==> !p(s[m]),
        k == s.len() || p(s[k]),
    ensures
        first_from(s, j, p) == k,
    decreases k - j,
{
    if j < k {
        lemma_first_from(s, j + 1, p, k);
    }
}

/// The ten characters from `j` have the `dd.mm.yyyy` shape.
pub open spec fn date10_at(s: Seq<char>, j: int) -> bool {
    0 <= j && j + 10 <= s.len() && date_shape(s.subrange(j, j + 10))
}

/// Tests the `dd.mm.yyyy` shape at position `j`.
fn date_shape_at(s: &Vec<char>, j: usize) -> (r: bool)
    ensures
        r == date10_at(s@, j as int),
{
    if j > s.len() || s.len() - j < 10 {
        return false;
    }
    let t = subvec(s, j, j + 10);
    let ok = t.len() == 10 && is_digit(t[0]) && is_digit(t[1]) && t[2] == '.' && is_digit(t[3])
        && is_digit(t[4]) && t[5] == '.' && is_digit(t[6]) && is_digit(t[7]) && is_digit(t[8])
        && is_digit(t[9]);
    ok
}

/// The period pattern stands at position `i`: the phrase, whitespace, a
/// date, whitespace, the word, whitespace, a date, a comma, optional
/// whitespace, the phrase, whitespace, a date.
pub open spec fn period_match_at(s: Seq<char>, i: int) -> bool {
    occurs_at(s, "за период с"@, i) && {
        let a = i + "за период с"@.len() as int;
        let d1 = skip_spaces_from(s, a);
        d1 > a && date10_at(s, d1) && {
            let b = d1 + 10;
            let w = skip_spaces_from(s, b);
            w > b && occurs_at(s, "по"@, w) && {
                let c = w + "по"@.len() as int;
                let d2 = skip_spaces_from(s, c);
                d2 > c && date10_at(s, d2) && {
                    let e = d2 + 10;
                    e < s.len() && s[e] == ',' && {
                        let f = skip_spaces_from(s, e + 1);
                        occurs_at(s, "дата создания"@, f) && {
                            let g = f + "дата создания"@.len() as int;
                            let d3 = skip_spaces_from(s, g);
                            d3 > g && date10_at(s, d3)
                        }
                    }
                }
            }
        }
    }
}

/// Position of the first captured date of a period match at `i`.
pub open spec fn period_p1(s: Seq<char>, i: int) -> int {
    skip_spaces_from(s, i + "за период с"@.len() as int)
}

/// Position of the second captured date of a period match at `i`.
pub open spec fn period_p2(s: Seq<char>, i: int) -> int {
    skip_spaces_from(
        s,
        skip_spaces_from(s, period_p1(s, i) + 10) + "по"@.len() as int,
    )
}

/// Position of the third captured date of a period match at `i`.
pub open spec fn period_p3(s: Seq<char>, i: int) -> int {
    skip_spaces_from(
        s,
        skip_spaces_from(s, period_p2(s, i) + 10 + 1) + "дата создания"@.len() as int,
    )
}

/// Least position at or after `i` where the period pattern matches.
pub open spec fn first_period(s: Seq<char>, i: int) -> Option<int>
    decreases s.len() - i,
{
    if i < 0 || i > s.len() {
        None
    } else if period_match_at(s, i) {
        Some(i)
    } else if i == s.len() {
        None
    } else {
        first_period(s, i + 1)
    }
}

/// Tries the period pattern at one position, returning the positions of
/// the three captured dates.
#[verifier::loop_isolation(false)]
fn try_period_at(s: &Vec<char>, i: usize, lit1: &Vec<char>, lit2: &Vec<char>, lit3: &Vec<char>)
    -> (r: Option<(usize, usize, usize)>)
    requires
        lit1@ == "за период с"@,
        lit2@ == "по"@,
        lit3@ == "дата создания"@,
    ensures
        match r {
            Some(p) => period_match_at(s@, i as int) && p.0 == period_p1(s@, i as int) && p.1
                == period_p2(s@, i as int) && p.2 == period_p3(s@, i as int) && date10_at(
                s@,
                p.0 as int,
            ) && date10_at(s@, p.1 as int) && date10_at(s@, p.2 as int),
            None => !period_match_at(s@, i as int),
        },
{
    let n = s.len();
    if !matches_at(s, lit1, i) {
        return None;
    }
    let a = i + lit1.len();
    let d1 = skip_spaces(s, a);
    if !(d1 > a && date_shape_at(s, d1)) {
        return None;
    }
    let b = d1 + 10;
    if b > s.len() {
        return None;
    }
    let w = skip_spaces(s, b);
    if !(w > b && matches_at(s, lit2, w)) {
        return None;
    }
    let c = w + lit2.len();
    let d2 = skip_spaces(s, c);
    if !(d2 > c && date_shape_at(s, d2)) {
        return None;
    }
    let e = d2 + 10;
    if !(e < s.len() && s[e] == ',') {
        return None;
    }
    let f = skip_spaces(s, e + 1);
    if !matches_at(s, lit3, f) {
        return None;
    }
    let g = f + lit3.len();
    if g > s.len() {
        return None;
    }
    let d3 = skip_spaces(s, g);
    if !(d3 > g && date_shape_at(s, d3)) {
        return None;
    }
    Some((d1, d2, d3))
}

/// Finds the leftmost period match.
#[verifier::loop_isolation(false)]
fn find_period(s: &Vec<char>) -> (r: Option<(usize, usize, usize)>)
    ensures
        match r {
            Some(p) => first_period(s@, 0) matches Some(i) && p.0 == period_p1(s@, i) && p.1
                == period_p2(s@, i) && p.2 == period_p3(s@, i) && date10_at(s@, p.0 as int)
                && date10_at(s@, p.1 as int) && date10_at(s@, p.2 as int),
            None => first_period(s@, 0) is None,
        },
{
    let lit1 = chars_of("за период с");
    let lit2 = chars_of("по");
    let lit3 = chars_of("дата создания");
    let mut i: usize = 0;
    loop
        invariant
            i <= s@.len(),
            forall|j: int| 0 <= j < i ==> !period_match_at(s@, j),
        decreases s@.len() - i,
    {
        let hit = try_period_at(s, i, &lit1, &lit2, &lit3);
        if let Some(p) = hit {
            proof {
                lemma_first_period_found(s@, 0, i as int);
            }
            return Some(p);
        }
        if i == s.len() {
            proof {
                lemma_first_period_none(s@, 0);
            }
            return None;
        }
        i += 1;
    }
}

proof fn lemma_first_period_found(s: Seq<char>, from: int, i: int)
    requires
        0 <= from <= i <= s.len(),
        forall|j: int| from <= j < i ==> !period_match_at(s, j),
        period_match_at(s, i),
    ensures
        first_period(s, from) == Some(i),
    decreases i - from,
{
    if from < i {
        lemma_first_period_found(s, from + 1, i);
    }
}

proof fn lemma_first_period_none(s: Seq<char>, from: int)
    requires
        0 <= from <= s.len(),
        forall|j: int| from <= j <= s.len() ==> !period_match_at(s, j),
    ensures
        first_period(s, from) is None,
    decreases s.len() - from,
{
    if from < s.len() {
        lemma_first_period_none(s, from + 1);
    }
}

/// Extracts period start, period end and generation date from a heading.
/// The heading must contain the period pattern; each captured date must be
/// a real calendar date.
pub fn extract_period(heading: &str) -> (r: Result<(Date, Date, Date), ReportError>)
    ensures
        ({
            let s = heading@;
            match first_period(s, 0) {
                None => r matches Err(e) && (e matches ReportError::Regex(t) && t@ == s),
                Some(i) => {
                    let s1 = s.subrange(period_p1(s, i), period_p1(s, i) + 10);
                    let s2 = s.subrange(period_p2(s, i), period_p2(s, i) + 10);
                    let s3 = s.subrange(period_p3(s, i), period_p3(s, i) + 10);
                    if date_of(s1) is None {
                        r matches Err(e) && (e matches ReportError::Date { value: v } && v@
                            == s1)
                    } else if date_of(s2) is None {
                        r matches Err(e) && (e matches ReportError::Date { value: v } && v@
                            == s2)
                    } else if date_of(s3) is None {
                        r matches Err(e) && (e matches ReportError::Date { value: v } && v@
                            == s3)
                    } else {
                        r matches Ok(t) && t.0 == date_of(s1).unwrap() && t.1 == date_of(
                            s2,
                        ).unwrap() && t.2 == date_of(s3).unwrap()
                    }
                },
            }
        }),
{
    let v = chars_of(heading);
    let n = v.len();
    match find_period(&v) {
        None => Err(ReportError::Regex(string_from_chars(&v))),
        Some((p1, p2, p3)) => {
            let s1 = subvec(&v, p1, p1 + 10);
            let s2 = subvec(&v, p2, p2 + 10);
            let s3 = subvec(&v, p3, p3 + 10);
            proof {
                lemma_shape_trim_noop(s1@);
                lemma_shape_trim_noop(s2@);
                lemma_shape_trim_noop(s3@);
            }
            let t1 = string_from_chars(&s1);
            let t2 = string_from_chars(&s2);
            let t3 = string_from_chars(&s3);
            let d1 = match parse_date(t1.as_str()) {
                Ok(d) => d,
                Err(e) => {
                    return Err(e);
                },
            };
            let d2 = match parse_date(t2.as_str()) {
                Ok(d) => d,
                Err(e) => {
                    return Err(e);
                },
            };
            let d3 = match parse_date(t3.as_str()) {
                Ok(d) => d,
                Err(e) => {
                    return Err(e);
                },
            };
            Ok((d1, d2, d3))
        },
    }
}

/// A `dd.mm.yyyy`-shaped text holds no whitespace, so trimming keeps it.
proof fn lemma_shape_trim_noop(s: Seq<char>)
    requires
        date_shape(s),
    ensures
        trim_spec(s) == s,
{
    assert(forall|i: int| 0 <= i < s.len() ==> !is_space_c(s[i])) by {
        assert(forall|c: char| is_digit_c(c) ==> !is_space_c(c));
    }
    lemma_trim_noop(s);
}

/// The characters that end an investor-name capture.
pub open spec fn is_inv_stop(c: char) -> bool {
    c == '\n' || c == '<'
}

/// The investor pattern stands at `i`: the label, optional whitespace,
/// then at least one character that does not end the capture.
pub open spec fn inv_match_at(s: Seq<char>, i: int) -> bool {
    occurs_at(s, "Инвестор:"@, i) && {
        let a = skip_spaces_from(s, i + "Инвестор:"@.len() as int);
        a < s.len() && !is_inv_stop(s[a])
    }
}

/// Start of the investor-name capture of a match at `i`.
pub open spec fn inv_start(s: Seq<char>, i: int) -> int {
    skip_spaces_from(s, i + "Инвестор:"@.len() as int)
}

/// End of the investor-name capture of a match at `i`: the next line
/// break or markup bracket, or the end of the text.
pub open spec fn inv_end(s: Seq<char>, i: int) -> int {
    first_from(s, inv_start(s, i), |c: char| is_inv_stop(c))
}

/// Least position at or after `i` where the investor pattern matches.
pub open spec fn first_inv(s: Seq<char>, i: int) -> Option<int>
    decreases s.len() - i,
{
    if i < 0 || i > s.len() {
        None
    } else if inv_match_at(s, i) {
        Some(i)
    } else if i == s.len() {
        None
    } else {
        first_inv(s, i + 1)
    }
}

proof fn lemma_first_inv_found(s: Seq<char>, from: int, i: int)
    requires
        0 <= from <= i <= s.len(),
        forall|j: int| from <= j < i ==> !inv_match_at(s, j),
        inv_match_at(s, i),
    ensures
        first_inv(s, from) == Some(i),
    decreases i - from,
{
    if from < i {
        lemma_first_inv_found(s, from + 1, i);
    }
}

proof fn lemma_first_inv_none(s: Seq<char>, from: int)
    requires
        0 <= from <= s.len(),
        forall|j: int| from <= j <= s.len() ==> !inv_match_at(s, j),
    ensures
        first_inv(s, from) is None,
    decreases s.len() - from,
{
    if from < s.len() {
        lemma_first_inv_none(s, from + 1);
    }
}

/// Finds the leftmost investor match and its capture bounds.
#[verifier::loop_isolation(false)]
fn find_inv(s: &Vec<char>) -> (r: Option<(usize, usize)>)
    ensures
        match r {
            Some(p) => first_inv(s@, 0) matches Some(i) && p.0 == inv_start(s@, i) && p.1
                == inv_end(s@, i) && 0 <= p.0 <= p.1 <= s@.len(),
            None => first_inv(s@, 0) is None,
        },
{
    let lit = chars_of("Инвестор:");
    let n = s.len();
    let mut i: usize = 0;
    loop
        invariant
            i <= n,
            forall|j: int| 0 <= j < i ==> !inv_match_at(s@, j),
        decreases n - i,
    {
        if matches_at(s, &lit, i) {
            let a = skip_spaces(s, i + lit.len());
            if a < n && !(s[a] == '\n' || s[a] == '<') {
                // Scan to the end of the capture.
                let mut e: usize = a;
                while e < n && !(s[e] == '\n' || s[e] == '<')
                    invariant
                        a <= e <= n,
                        forall|m: int| a <= m < e ==> !is_inv_stop(s@[m]),
                    decreases n - e,
                {
                    e += 1;
                }
                proof {
                    lemma_first_from(s@, a as int, |c: char| is_inv_stop(c), e as int);
                    lemma_first_inv_found(s@, 0, i as int);
                }
                return Some((a, e));
            }
        }
        if i == n {
            proof {
                lemma_first_inv_none(s@, 0);
            }
            return None;
        }
        i += 1;
    }
}

/// The contract pattern stands at `i`: the label, then somewhere after it
/// an ASCII alphanumeric run.
pub open spec fn con_match_at(s: Seq<char>, i: int) -> bool {
    occurs_at(s, "Договор"@, i) && first_from(
        s,
        i + "Договор"@.len() as int,
        |c: char| is_alnum_c(c),
    ) < s.len()
}

/// Start of the contract-number capture of a match at `i`.
pub open spec fn con_start(s: Seq<char>, i: int) -> int {
    first_from(s, i + "Договор"@.len() as int, |c: char| is_alnum_c(c))
}

/// End of the contract-number capture of a match at `i`.
pub open spec fn con_end(s: Seq<char>, i: int) -> int {
    first_from(s, con_start(s, i), |c: char| !is_alnum_c(c))
}

/// Least position at or after `i` where the contract pattern matches.
pub open spec fn first_con(s: Seq<char>, i: int) -> Option<int>
    decreases s.len() - i,
{
    if i < 0 || i > s.len() {
        None
    } else if con_match_at(s, i) {
        Some(i)
    } else if i == s.len() {
        None
    } else {
        first_con(s, i + 1)
    }
}

proof fn lemma_first_con_found(s: Seq<char>, from: int, i: int)
    requires
        0 <= from <= i <= s.len(),
        forall|j: int| from <= j < i ==> !con_match_at(s, j),
        con_match_at(s, i),
    ensures
        first_con(s, from) == Some(i),
    decreases i - from,
{
    if from < i {
        lemma_first_con_found(s, from + 1, i);
    }
}

proof fn lemma_first_con_none(s: Seq<char>, from: int)
    requires
        0 <= from <= s.len(),
        forall|j: int| from <= j <= s.len() ==> !con_match_at(s, j),
    ensures
        first_con(s, from) is None,
    decreases s.len() - from,
{
    if from < s.len() {
        lemma_first_con_none(s, from + 1);
    }
}

/// Finds the leftmost contract match and its capture bounds.
#[verifier::loop_isolation(false)]
fn find_con(s: &Vec<char>) -> (r: Option<(usize, usize)>)
    ensures
        match r {
            Some(p) => first_con(s@, 0) matches Some(i) && p.0 == con_start(s@, i) && p.1
                == con_end(s@, i) && 0 <= p.0 <= p.1 <= s@.len(),
            None => first_con(s@, 0) is None,
        },
{
    let lit = chars_of("Договор");
    let n = s.len();
    let mut i: usize = 0;
    loop
        invariant
            i <= n,
            forall|j: int| 0 <= j < i ==> !con_match_at(s@, j),
        decreases n - i,
    {
        if matches_at(s, &lit, i) {
            // Skip to the first alphanumeric character.
            let mut a: usize = i + lit.len();
            while a < n && !is_alnum(s[a])
                invariant
                    i + lit@.len() <= a <= n,
                    forall|m: int| i + lit@.len() <= m < a ==> !is_alnum_c(s@[m]),
                decreases n - a,
            {
                a += 1;
            }
            proof {
                lemma_first_from(s@, i + lit@.len() as int, |c: char| is_alnum_c(c), a as int);
            }
            if a < n {
                let mut e: usize = a;
                while e < n && is_alnum(s[e])
                    invariant
                        a <= e <= n,
                        forall|m: int| a <= m < e ==> is_alnum_c(s@[m]),
                    decreases n - e,
                {
                    e += 1;
                }
                proof {
                    lemma_first_from(s@, a as int, |c: char| !is_alnum_c(c), e as int);
                    lemma_first_con_found(s@, 0, i as int);
                }
                return Some((a, e));
            }
        }
        if i == n {
            proof {
                lemma_first_con_none(s@, 0);
            }
            return None;
        }
        i += 1;
    }
}

/// Extracts and title-cases the investor name from the investor block.
pub fn extract_investor_name(text: &str) -> (r: Result<String, ReportError>)
    ensures
        match first_inv(text@, 0) {
            Some(i) => r matches Ok(nm) && nm@ == crate::words::cap_words_spec(
                trim_spec(text@.subrange(inv_start(text@, i), inv_end(text@, i))),
            ),
            None => r matches Err(e) && (e matches ReportError::Regex(t) && t@ == text@),
        },
{
    let v = chars_of(text);
    match find_inv(&v) {
        None => Err(ReportError::Regex(string_from_chars(&v))),
        Some((a, e)) => {
            let cap = subvec(&v, a, e);
            let trimmed = crate::text::trim_chars(&cap);
            let ts = string_from_chars(&trimmed);
            Ok(crate::words::capitalize_words(ts.as_str()))
        },
    }
}

/// Extracts the contract number from the investor block.
pub fn extract_contract(text: &str) -> (r: Result<String, ReportError>)
    ensures
        match first_con(text@, 0) {
            Some(i) => r matches Ok(c) && c@ == trim_spec(
                text@.subrange(con_start(text@, i), con_end(text@, i)),
            ),
            None => r matches Err(e) && (e matches ReportError::Regex(t) && t@ == text@),
        },
{
    let v = chars_of(text);
    match find_con(&v) {
        None => Err(ReportError::Regex(string_from_chars(&v))),
        Some((a, e)) => {
            let cap = subvec(&v, a, e);
            let trimmed = crate::text::trim_chars(&cap);
            Ok(string_from_chars(&trimmed))
        },
    }
}

/// The account classification the investor block implies: the
/// tax-advantaged kind when its lowercased text mentions an individual
/// investment account, the ordinary brokerage kind otherwise.
pub open spec fn account_kind_of(lower: Seq<char>) -> crate::types::AccountKind {
    if crate::text::has_sub_spec(lower, "индивидуального инвестиционного счета"@)
        || crate::text::has_sub_spec(lower, "иис"@) {
        crate::types::AccountKind::Iis
    } else {
        crate::types::AccountKind::Broker
    }
}

/// Classifies the account from the investor block.
pub fn classify_account(text: &str) -> (r: crate::types::AccountKind)
    ensures
        r == account_kind_of(crate::words::lower_of(text@)),
{
    let low = crate::words::to_lowercase(text);
    let lv = chars_of(low.as_str());
    let p1 = chars_of("индивидуального инвестиционного счета");
    if crate::text::has_sub(&lv, &p1) {
        return crate::types::AccountKind::Iis;
    }
    let p2 = chars_of("иис");
    if crate::text::has_sub(&lv, &p2) {
        return crate::types::AccountKind::Iis;
    }
    crate::types::AccountKind::Broker
}

/// Finds the first paragraph whose lowercased text mentions the investor.
pub fn find_investor_block(paragraphs: &Vec<String>) -> (r: Option<usize>)
    ensures
        match r {
            Some(i) => i < paragraphs@.len() && crate::text::has_sub_spec(
                crate::words::lower_of(paragraphs@[i as int]@),
                "инвестор"@,
            ) && forall|j: int|
                0 <= j < i ==> !crate::text::has_sub_spec(
                    crate::words::lower_of(#[trigger] paragraphs@[j]@),
                    "инвестор"@,
                ),
            None => forall|j: int|
                0 <= j < paragraphs@.len() ==> !crate::text::has_sub_spec(
                    crate::words::lower_of(#[trigger] paragraphs@[j]@),
                    "инвестор"@,
                ),
        },
{
    let pat = chars_of("инвестор");
    let mut i: usize = 0;
    while i < paragraphs.len()
        invariant
            i <= paragraphs@.len(),
            pat@ == "инвестор"@,
            forall|j: int|
                0 <= j < i ==> !crate::text::has_sub_spec(
                    crate::words::lower_of(#[trigger] paragraphs@[j]@),
                    "инвестор"@,
                ),
        decreases paragraphs@.len() - i,
    {
        let low = crate::words::to_lowercase(paragraphs[i].as_str());
        let lv = chars_of(low.as_str());
        if crate::text::has_sub(&lv, &pat) {
            return Some(i);
        }
        i += 1;
    }
    None
}

/// What the metadata extraction promises, given the heading text and the
/// investor block text.
pub open spec fn metadata_outcome(
    h: Seq<char>,
    t: Seq<char>,
    r: Result<crate::types::ReportMetadata, ReportError>,
) -> bool {
    match first_period(h, 0) {
        None => r matches Err(e) && (e matches ReportError::Regex(x) && x@ == h),
        Some(i) => {
            let s1 = h.subrange(period_p1(h, i), period_p1(h, i) + 10);
            let s2 = h.subrange(period_p2(h, i), period_p2(h, i) + 10);
            let s3 = h.subrange(period_p3(h, i), period_p3(h, i) + 10);
            if date_of(s1) is None {
                r matches Err(e) && (e matches ReportError::Date { value: v } && v@ == s1)
            } else if date_of(s2) is None {
                r matches Err(e) && (e matches ReportError::Date { value: v } && v@ == s2)
            } else if date_of(s3) is None {
                r matches Err(e) && (e matches ReportError::Date { value: v } && v@ == s3)
            } else if !date_of(s1).unwrap().le_spec(date_of(s2).unwrap()) {
                r matches Err(e) && (e matches ReportError::Regex(x) && x@ == h)
            } else {
                match first_inv(t, 0) {
                    None => r matches Err(e) && (e matches ReportError::Regex(x) && x@ == t),
                    Some(j) => {
                        let name = crate::words::cap_words_spec(
                            trim_spec(t.subrange(inv_start(t, j), inv_end(t, j))),
                        );
                        match first_con(t, 0) {
                            None => r matches Err(e) && (e matches ReportError::Regex(x) && x@
                                == t),
                            Some(k) => {
                                let con = trim_spec(t.subrange(con_start(t, k), con_end(t, k)));
                                r matches Ok(m) && m.investor_name@ == name
                                    && m.contract_number@ == con && m.account_id.0@ == con
                                    && m.account_kind == account_kind_of(
                                    crate::words::lower_of(t),
                                ) && m.period_start == date_of(s1).unwrap() && m.period_end
                                    == date_of(s2).unwrap() && m.generated_at == date_of(
                                    s3,
                                ).unwrap() && m.wf()
                            },
                        }
                    },
                }
            }
        },
    }
}

/// Builds the statement metadata from the heading text and the investor
/// block text: reporting period and generation date from the heading,
/// title-cased investor name, contract number and account classification
/// from the investor block.  A reversed period is rejected.
pub fn metadata_from_texts(heading: &str, investor_text: &str) -> (r: Result<
    crate::types::ReportMetadata,
    ReportError,
>)
    ensures
        metadata_outcome(heading@, investor_text@, r),
{
    let (d1, d2, d3) = match extract_period(heading) {
        Ok(p) => p,
        Err(e) => {
            return Err(e);
        },
    };
    if !d1.le(d2) {
        let hv = chars_of(heading);
        return Err(ReportError::Regex(string_from_chars(&hv)));
    }
    let name = match extract_investor_name(investor_text) {
        Ok(n) => n,
        Err(e) => {
            return Err(e);
        },
    };
    let contract = match extract_contract(investor_text) {
        Ok(c) => c,
        Err(e) => {
            return Err(e);
        },
    };
    let kind = classify_account(investor_text);
    let account = crate::types::AccountId(contract.clone());
    Ok(crate::types::ReportMetadata {
        account_id: account,
        account_kind: kind,
        period_start: d1,
        period_end: d2,
        generated_at: d3,
        investor_name: name,
        contract_number: contract,
    })
}

} // verus!
