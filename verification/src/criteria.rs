//! Typed listing criteria: an optional name filter, an optional upload
//! date range, pagination and ordering, together with the calendar
//! arithmetic that turns an inclusive date range into a timestamp range.
//!
//! A date parameter names a calendar day; the lower bound expands to
//! 00:00:00 and the upper bound to 23:59:59 of that day before being
//! converted to seconds since the Unix epoch.
use vstd::prelude::*;

use crate::json::{
    array_doc, object_doc, parse_array_doc, parse_object_doc, JsonScalar, JsonScalarV, JsonValue,
    JsonValueV,
};
use crate::text::{chars_to_string, str_chars};

verus! {

/// Field a listing may be ordered by.
#[derive(Debug, Clone, Copy, PartialEq, Eq, Structural)]
pub enum SortField {
    Id,
    UploadTime,
    Size,
}

/// Direction of the ordering.
#[derive(Debug, Clone, Copy, PartialEq, Eq, Structural)]
pub enum SortDir {
    Asc,
    Desc,
}

/// Parsed, typed criteria of one listing request.
#[derive(Debug, PartialEq, Eq)]
pub struct Criteria {
    /// Case-insensitive substring that the record name must contain.
    pub name_like: Option<String>,
    /// Inclusive lower bound on the upload timestamp.
    pub time_lo: Option<i64>,
    /// Inclusive upper bound on the upload timestamp.
    pub time_hi: Option<i64>,
    /// Index of the first record of the page.
    pub offset: u64,
    /// Number of records of the page; at least 1.
    pub limit: u64,
    pub sort_field: SortField,
    pub sort_dir: SortDir,
}

/// Mathematical value of a `Criteria`.
pub struct CriteriaV {
    pub name_like: Option<Seq<char>>,
    pub time_lo: Option<i64>,
    pub time_hi: Option<i64>,
    pub offset: u64,
    pub limit: u64,
    pub sort_field: SortField,
    pub sort_dir: SortDir,
}

impl View for Criteria {
    type V = CriteriaV;

    open spec fn view(&self) -> CriteriaV {
        CriteriaV {
            name_like: match self.name_like {
                Some(s) => Some(s@),
                None => None,
            },
            time_lo: self.time_lo,
            time_hi: self.time_hi,
            offset: self.offset,
            limit: self.limit,
            sort_field: self.sort_field,
            sort_dir: self.sort_dir,
        }
    }
}

impl CriteriaV {
    /// A well-formed criteria asks for at least one record per page, and
    /// the index of the last requested record fits the machine.
    pub open spec fn wf(self) -> bool {
        self.limit >= 1 && self.offset + self.limit - 1 <= u64::MAX
    }
}

/// The criteria used when no parameter is given: no filter, first page of
/// ten records, ascending upload time.
pub open spec fn default_criteria() -> CriteriaV {
    CriteriaV {
        name_like: None,
        time_lo: None,
        time_hi: None,
        offset: 0,
        limit: 10,
        sort_field: SortField::UploadTime,
        sort_dir: SortDir::Asc,
    }
}

impl Criteria {
    /// The criteria used when no parameter is given.
    pub fn new_default() -> (c: Criteria)
        ensures
            c@ == default_criteria(),
    {
        Criteria {
            name_like: None,
            time_lo: None,
            time_hi: None,
            offset: 0,
            limit: 10,
            sort_field: SortField::UploadTime,
            sort_dir: SortDir::Asc,
        }
    }
}

/// Gregorian leap year.
pub open spec fn is_leap_year(y: int) -> bool {
    (y % 4 == 0 && y % 100 != 0) || y % 400 == 0
}

/// Number of days of month `m` of year `y`.
pub open spec fn days_in_month(y: int, m: int) -> int {
    if m == 2 {
        if is_leap_year(y) {
            29
        } else {
            28
        }
    } else if m == 4 || m == 6 || m == 9 || m == 11 {
        30
    } else {
        31
    }
}

/// A calendar date the library accepts: years 1 through 9999.
pub open spec fn valid_date(y: int, m: int, d: int) -> bool {
    &&& 1 <= y <= 9999
    &&& 1 <= m <= 12
    &&& 1 <= d <= days_in_month(y, m)
}

/// Days from 1970-01-01 to the given date, negative before the epoch
/// (the standard civil-from-days correspondence for the proleptic
/// Gregorian calendar).
pub open spec fn days_from_civil(y: int, m: int, d: int) -> int {
    let yy = if m <= 2 {
        y - 1
    } else {
        y
    };
    let era = yy / 400;
    let yoe = yy - era * 400;
    let mp = if m > 2 {
        m - 3
    } else {
        m + 9
    };
    let doy = (153 * mp + 2) / 5 + d - 1;
    let doe = yoe * 365 + yoe / 4 - yoe / 100 + doy;
    era * 146097 + doe - 719468
}

/// Timestamp of 00:00:00 of the given day.
pub open spec fn day_start_ts(y: int, m: int, d: int) -> int {
    days_from_civil(y, m, d) * 86400
}

/// Timestamp of 23:59:59 of the given day.
pub open spec fn day_end_ts(y: int, m: int, d: int) -> int {
    days_from_civil(y, m, d) * 86400 + 86399
}

fn days_in_month_exec(y: i64, m: i64) -> (r: i64)
    requires
        1 <= m <= 12,
    ensures
        r == days_in_month(y as int, m as int),
{
    if m == 2 {
        if (y % 4 == 0 && y % 100 != 0) || y % 400 == 0 {
            29
        } else {
            28
        }
    } else if m == 4 || m == 6 || m == 9 || m == 11 {
        30
    } else {
        31
    }
}

/// Days from the epoch to a valid date.
pub fn civil_days(y: i64, m: i64, d: i64) -> (n: i64)
    requires
        valid_date(y as int, m as int, d as int),
    ensures
        n == days_from_civil(y as int, m as int, d as int),
{
    let yy: i64 = if m <= 2 {
        y - 1
    } else {
        y
    };
    let era: i64 = yy / 400;
    let yoe: i64 = yy - era * 400;
    let mp: i64 = if m > 2 {
        m - 3
    } else {
        m + 9
    };
    let doy: i64 = (153 * mp + 2) / 5 + d - 1;
    let doe: i64 = yoe * 365 + yoe / 4 - yoe / 100 + doy;
    era * 146097 + doe - 719468
}

/// A decimal digit character.
pub open spec fn is_digit_char(c: char) -> bool {
    '0' <= c && c <= '9'
}

/// Value of a decimal digit character.
pub open spec fn digit_val(c: char) -> int {
    c as u32 - 48
}

/// The date denoted by a strict `YYYY-MM-DD` string, when it is one and
/// names a valid calendar day.
pub open spec fn date_of(s: Seq<char>) -> Option<(int, int, int)> {
    if s.len() == 10 && is_digit_char(s[0]) && is_digit_char(s[1]) && is_digit_char(s[2])
        && is_digit_char(s[3]) && s[4] == '-' && is_digit_char(s[5]) && is_digit_char(s[6]) && s[7]
        == '-' && is_digit_char(s[8]) && is_digit_char(s[9]) {
        let y = digit_val(s[0]) * 1000 + digit_val(s[1]) * 100 + digit_val(s[2]) * 10 + digit_val(
            s[3],
        );
        let m = digit_val(s[5]) * 10 + digit_val(s[6]);
        let d = digit_val(s[8]) * 10 + digit_val(s[9]);
        if valid_date(y, m, d) {
            Some((y, m, d))
        } else {
            None
        }
    } else {
        None
    }
}

fn digit_of(c: char) -> (r: Option<i64>)
    ensures
        r matches Some(v) ==> is_digit_char(c) && v == digit_val(c),
        is_digit_char(c) ==> r is Some,
{
    if '0' <= c && c <= '9' {
        Some(((c as u32) - 48) as i64)
    } else {
        None
    }
}

/// Parses a strict `YYYY-MM-DD` date string into year, month and day.
pub fn parse_date(s: &Vec<char>) -> (r: Option<(i64, i64, i64)>)
    ensures
        r matches Some(t) ==> date_of(s@) == Some((t.0 as int, t.1 as int, t.2 as int)),
        r is None ==> date_of(s@) is None,
{
    if s.len() != 10 {
        return None;
    }
    if s[4] != '-' || s[7] != '-' {
        return None;
    }
    let d0 = digit_of(s[0]);
    let d1 = digit_of(s[1]);
    let d2 = digit_of(s[2]);
    let d3 = digit_of(s[3]);
    let d5 = digit_of(s[5]);
    let d6 = digit_of(s[6]);
    let d8 = digit_of(s[8]);
    let d9 = digit_of(s[9]);
    match (d0, d1, d2, d3, d5, d6, d8, d9) {
        (
            Some(a0),
            Some(a1),
            Some(a2),
            Some(a3),
            Some(b0),
            Some(b1),
            Some(c0),
            Some(c1),
        ) => {
            let y: i64 = a0 * 1000 + a1 * 100 + a2 * 10 + a3;
            let m: i64 = b0 * 10 + b1;
            let d: i64 = c0 * 10 + c1;
            if y < 1 || m < 1 || m > 12 {
                return None;
            }
            if d < 1 || d > days_in_month_exec(y, m) {
                return None;
            }
            Some((y, m, d))
        },
        _ => None,
    }
}

/// The inclusive timestamp range of an inclusive date range given as
/// optional strict `YYYY-MM-DD` bounds: a lower bound expands to the start
/// of its day, an upper bound to the end of its day. `None` when a given
/// bound is not a valid date.
pub open spec fn time_bounds_of(begin: Option<Seq<char>>, end: Option<Seq<char>>) -> Option<
    (Option<i64>, Option<i64>),
> {
    let lo = match begin {
        Some(b) => match date_of(b) {
            Some((y, m, d)) => Some(Some(day_start_ts(y, m, d) as i64)),
            None => None,
        },
        None => Some(None),
    };
    let hi = match end {
        Some(e) => match date_of(e) {
            Some((y, m, d)) => Some(Some(day_end_ts(y, m, d) as i64)),
            None => None,
        },
        None => Some(None),
    };
    match (lo, hi) {
        (Some(l), Some(h)) => Some((l, h)),
        _ => None,
    }
}

proof fn lemma_ts_in_i64(y: int, m: int, d: int)
    requires
        valid_date(y, m, d),
    ensures
        -1000000000000 < day_start_ts(y, m, d) <= day_end_ts(y, m, d) < 1000000000000,
{
}

/// Timestamp of 00:00:00 of a valid date.
pub fn day_start(y: i64, m: i64, d: i64) -> (ts: i64)
    requires
        valid_date(y as int, m as int, d as int),
    ensures
        ts == day_start_ts(y as int, m as int, d as int),
{
    proof {
        lemma_ts_in_i64(y as int, m as int, d as int);
    }
    civil_days(y, m, d) * 86400
}

/// Timestamp of 23:59:59 of a valid date.
pub fn day_end(y: i64, m: i64, d: i64) -> (ts: i64)
    requires
        valid_date(y as int, m as int, d as int),
    ensures
        ts == day_end_ts(y as int, m as int, d as int),
{
    proof {
        lemma_ts_in_i64(y as int, m as int, d as int);
    }
    civil_days(y, m, d) * 86400 + 86399
}

/// Reason a query parameter is rejected.
#[derive(Debug, Clone, Copy, PartialEq, Eq, Structural)]
pub enum ParseError {
    /// The parameter is not a JSON document of the expected shape.
    MalformedJson,
    /// A date bound is not a valid `YYYY-MM-DD` day.
    BadDate,
    /// The range is not `[start, end]` with `0 <= start <= end`.
    BadRange,
    /// The sort is not `[field, direction]` with a known field and
    /// direction `ASC` or `DESC`.
    BadSort,
}

/// The raw filter parameter of a listing request: an optional name
/// substring and optional inclusive date bounds, still as text.
#[derive(Debug, PartialEq, Eq)]
pub struct Filter {
    pub name: Option<String>,
    pub upload_begin: Option<String>,
    pub upload_end: Option<String>,
}

/// Mathematical value of a `Filter`.
pub struct FilterV {
    pub name: Option<Seq<char>>,
    pub upload_begin: Option<Seq<char>>,
    pub upload_end: Option<Seq<char>>,
}

impl View for Filter {
    type V = FilterV;

    open spec fn view(&self) -> FilterV {
        FilterV {
            name: match self.name {
                Some(ref s) => Some(s@),
                None => None,
            },
            upload_begin: match self.upload_begin {
                Some(ref s) => Some(s@),
                None => None,
            },
            upload_end: match self.upload_end {
                Some(ref s) => Some(s@),
                None => None,
            },
        }
    }
}

/// One key/value pair applied to a filter under construction: the three
/// known keys take a string or null, each at most once; unknown keys are
/// ignored; any other value shape is refused.
pub open spec fn set_filter_key(
    acc: FilterV,
    seen: (bool, bool, bool),
    k: Seq<char>,
    v: JsonValueV,
) -> Option<(FilterV, (bool, bool, bool))> {
    if k == "name"@ {
        if seen.0 {
            None
        } else {
            match v {
                JsonValueV::Scalar(JsonScalarV::Str(t)) => Some(
                    (FilterV { name: Some(t), ..acc }, (true, seen.1, seen.2)),
                ),
                JsonValueV::Scalar(JsonScalarV::Null) => Some(
                    (FilterV { name: None, ..acc }, (true, seen.1, seen.2)),
                ),
                _ => None,
            }
        }
    } else if k == "upload_begin"@ {
        if seen.1 {
            None
        } else {
            match v {
                JsonValueV::Scalar(JsonScalarV::Str(t)) => Some(
                    (FilterV { upload_begin: Some(t), ..acc }, (seen.0, true, seen.2)),
                ),
                JsonValueV::Scalar(JsonScalarV::Null) => Some(
                    (FilterV { upload_begin: None, ..acc }, (seen.0, true, seen.2)),
                ),
                _ => None,
            }
        }
    } else if k == "upload_end"@ {
        if seen.2 {
            None
        } else {
            match v {
                JsonValueV::Scalar(JsonScalarV::Str(t)) => Some(
                    (FilterV { upload_end: Some(t), ..acc }, (seen.0, seen.1, true)),
                ),
                JsonValueV::Scalar(JsonScalarV::Null) => Some(
                    (FilterV { upload_end: None, ..acc }, (seen.0, seen.1, true)),
                ),
                _ => None,
            }
        }
    } else {
        Some((acc, seen))
    }
}

/// The filter denoted by a pair sequence, applied left to right.
pub open spec fn fold_filter(
    ps: Seq<(Seq<char>, JsonValueV)>,
    acc: FilterV,
    seen: (bool, bool, bool),
) -> Option<FilterV>
    decreases ps.len(),
{
    if ps.len() == 0 {
        Some(acc)
    } else {
        match set_filter_key(acc, seen, ps[0].0, ps[0].1) {
            None => None,
            Some((acc2, seen2)) => fold_filter(ps.drop_first(), acc2, seen2),
        }
    }
}

/// The empty filter.
pub open spec fn empty_filter() -> FilterV {
    FilterV { name: None, upload_begin: None, upload_end: None }
}

/// The filter denoted by a filter parameter text.
pub open spec fn filter_result(s: Seq<char>) -> Result<FilterV, ParseError> {
    match object_doc(s) {
        None => Err(ParseError::MalformedJson),
        Some(ps) => match fold_filter(ps, empty_filter(), (false, false, false)) {
            None => Err(ParseError::MalformedJson),
            Some(f) => Ok(f),
        },
    }
}

/// The `(start, end)` pair denoted by a range parameter text: a
/// two-element array of integers with `0 <= start <= end`.
pub open spec fn range_result(s: Seq<char>) -> Result<(u64, u64), ParseError> {
    match array_doc(s) {
        None => Err(ParseError::MalformedJson),
        Some(items) => {
            if items.len() == 2 {
                match (items[0], items[1]) {
                    (JsonScalarV::Int(a), JsonScalarV::Int(b)) => {
                        if 0 <= a && a <= b {
                            Ok((a as u64, b as u64))
                        } else {
                            Err(ParseError::BadRange)
                        }
                    },
                    _ => Err(ParseError::BadRange),
                }
            } else {
                Err(ParseError::BadRange)
            }
        },
    }
}

/// The field and direction denoted by a sort parameter text: a
/// two-element array of strings, the field one of `id`, `uploadTime`,
/// `size`, the direction `ASC` or `DESC`.
pub open spec fn sort_result(s: Seq<char>) -> Result<(SortField, SortDir), ParseError> {
    match array_doc(s) {
        None => Err(ParseError::MalformedJson),
        Some(items) => {
            if items.len() == 2 {
                match (items[0], items[1]) {
                    (JsonScalarV::Str(f), JsonScalarV::Str(d)) => {
                        let field = if f == "id"@ {
                            Some(SortField::Id)
                        } else if f == "uploadTime"@ {
                            Some(SortField::UploadTime)
                        } else if f == "size"@ {
                            Some(SortField::Size)
                        } else {
                            None
                        };
                        let dir = if d == "ASC"@ {
                            Some(SortDir::Asc)
                        } else if d == "DESC"@ {
                            Some(SortDir::Desc)
                        } else {
                            None
                        };
                        match (field, dir) {
                            (Some(ff), Some(dd)) => Ok((ff, dd)),
                            _ => Err(ParseError::BadSort),
                        }
                    },
                    _ => Err(ParseError::BadSort),
                }
            } else {
                Err(ParseError::BadSort)
            }
        },
    }
}

/// The criteria denoted by the three optional parameter texts. An absent
/// parameter keeps the defaults: no filter, `offset = 0`, `limit = 10`,
/// ascending upload time. The range gives `offset = start` and
/// `limit = end - start + 1`; a date bound expands to the start or end of
/// its day.
pub open spec fn criteria_result(
    filter: Option<Seq<char>>,
    range: Option<Seq<char>>,
    sort: Option<Seq<char>>,
) -> Result<CriteriaV, ParseError> {
    let f = match filter {
        None => Ok(empty_filter()),
        Some(fs) => filter_result(fs),
    };
    match f {
        Err(e) => Err(e),
        Ok(fv) => match time_bounds_of(fv.upload_begin, fv.upload_end) {
            None => Err(ParseError::BadDate),
            Some((lo, hi)) => {
                let r = match range {
                    None => Ok((0u64, 9u64)),
                    Some(rs) => range_result(rs),
                };
                match r {
                    Err(e) => Err(e),
                    Ok((start, end)) => {
                        let st = match sort {
                            None => Ok((SortField::UploadTime, SortDir::Asc)),
                            Some(ss) => sort_result(ss),
                        };
                        match st {
                            Err(e) => Err(e),
                            Ok((field, dir)) => Ok(
                                CriteriaV {
                                    name_like: fv.name,
                                    time_lo: lo,
                                    time_hi: hi,
                                    offset: start,
                                    limit: (end - start + 1) as u64,
                                    sort_field: field,
                                    sort_dir: dir,
                                },
                            ),
                        }
                    },
                }
            },
        },
    }
}

fn chars_eq_str(k: &Vec<char>, lit: &str) -> (b: bool)
    ensures
        b == (k@ == lit@),
{
    let n = lit.unicode_len();
    if k.len() != n {
        return false;
    }
    let mut i: usize = 0;
    while i < n
        invariant
            i <= n,
            n == lit@.len(),
            n == k@.len(),
            forall|j: int| 0 <= j < i ==> k@[j] == lit@[j],
        decreases n - i,
    {
        if k[i] != lit.get_char(i) {
            return false;
        }
        i += 1;
    }
    proof {
        assert(k@ =~= lit@);
    }
    true
}

/// Parses the filter parameter.
pub fn parse_filter(s: &str) -> (r: Result<Filter, ParseError>)
    ensures
        r matches Ok(f) ==> filter_result(s@) == Ok::<FilterV, ParseError>(f@),
        r matches Err(e) ==> filter_result(s@) == Err::<FilterV, ParseError>(e),
{
    let chars = str_chars(s);
    let ps = match parse_object_doc(&chars) {
        None => {
            return Err(ParseError::MalformedJson);
        },
        Some(ps) => ps,
    };
    let ghost psv = crate::json::pair_views(ps@);
    let mut name: Option<String> = None;
    let mut upload_begin: Option<String> = None;
    let mut upload_end: Option<String> = None;
    let mut seen_name = false;
    let mut seen_begin = false;
    let mut seen_end = false;
    let mut idx: usize = 0;
    proof {
        assert(psv.subrange(0, psv.len() as int) =~= psv);
    }
    while idx < ps.len()
        invariant
            idx <= ps@.len(),
            object_doc(s@) == Some(psv),
            psv == crate::json::pair_views(ps@),
            psv.len() == ps@.len(),
            fold_filter(psv, empty_filter(), (false, false, false)) == fold_filter(
                psv.subrange(idx as int, psv.len() as int),
                FilterV {
                    name: match name {
                        Some(ref s) => Some(s@),
                        None => None,
                    },
                    upload_begin: match upload_begin {
                        Some(ref s) => Some(s@),
                        None => None,
                    },
                    upload_end: match upload_end {
                        Some(ref s) => Some(s@),
                        None => None,
                    },
                },
                (seen_name, seen_begin, seen_end),
            ),
        decreases ps@.len() - idx,
    {
        let ghost suffix = psv.subrange(idx as int, psv.len() as int);
        proof {
            reveal_strlit("name");
            reveal_strlit("upload_begin");
            reveal_strlit("upload_end");
            assert("name"@.len() == 4 && "upload_begin"@.len() == 12 && "upload_end"@.len()
                == 10);
            assert(suffix[0] == psv[idx as int]);
            assert(psv[idx as int] == (ps@[idx as int].0@, ps@[idx as int].1@));
            assert(suffix.drop_first() =~= psv.subrange(idx as int + 1, psv.len() as int));
        }
        let key_name = chars_eq_str(&ps[idx].0, "name");
        let key_begin = chars_eq_str(&ps[idx].0, "upload_begin");
        let key_end = chars_eq_str(&ps[idx].0, "upload_end");
        if key_name || key_begin || key_end {
            let dup = (key_name && seen_name) || (key_begin && seen_begin) || (key_end
                && seen_end);
            if dup {
                return Err(ParseError::MalformedJson);
            }
            let text: Option<String> = match &ps[idx].1 {
                JsonValue::Scalar(JsonScalar::Str(t)) => Some(chars_to_string(t)),
                JsonValue::Scalar(JsonScalar::Null) => None,
                _ => {
                    return Err(ParseError::MalformedJson);
                },
            };
            if key_name {
                name = text;
                seen_name = true;
            } else if key_begin {
                upload_begin = text;
                seen_begin = true;
            } else {
                upload_end = text;
                seen_end = true;
            }
        }
        idx += 1;
    }
    proof {
        assert(psv.subrange(idx as int, psv.len() as int) =~= Seq::<
            (Seq<char>, JsonValueV),
        >::empty());
    }
    Ok(Filter { name, upload_begin, upload_end })
}

/// Parses the range parameter into its `(start, end)` pair.
pub fn parse_range(s: &str) -> (r: Result<(u64, u64), ParseError>)
    ensures
        r == range_result(s@),
{
    let chars = str_chars(s);
    let items = match parse_array_doc(&chars) {
        None => {
            return Err(ParseError::MalformedJson);
        },
        Some(items) => items,
    };
    if items.len() != 2 {
        return Err(ParseError::BadRange);
    }
    let a: i64 = match &items[0] {
        JsonScalar::Int(a) => *a,
        _ => {
            return Err(ParseError::BadRange);
        },
    };
    let b: i64 = match &items[1] {
        JsonScalar::Int(b) => *b,
        _ => {
            return Err(ParseError::BadRange);
        },
    };
    if 0 <= a && a <= b {
        Ok((a as u64, b as u64))
    } else {
        Err(ParseError::BadRange)
    }
}

/// Parses the sort parameter into its field and direction.
pub fn parse_sort(s: &str) -> (r: Result<(SortField, SortDir), ParseError>)
    ensures
        r == sort_result(s@),
{
    let chars = str_chars(s);
    let items = match parse_array_doc(&chars) {
        None => {
            return Err(ParseError::MalformedJson);
        },
        Some(items) => items,
    };
    if items.len() != 2 {
        return Err(ParseError::BadSort);
    }
    let field: SortField = match &items[0] {
        JsonScalar::Str(f) => {
            if chars_eq_str(f, "id") {
                SortField::Id
            } else if chars_eq_str(f, "uploadTime") {
                SortField::UploadTime
            } else if chars_eq_str(f, "size") {
                SortField::Size
            } else {
                return Err(ParseError::BadSort);
            }
        },
        _ => {
            return Err(ParseError::BadSort);
        },
    };
    let dir: SortDir = match &items[1] {
        JsonScalar::Str(d) => {
            if chars_eq_str(d, "ASC") {
                SortDir::Asc
            } else if chars_eq_str(d, "DESC") {
                SortDir::Desc
            } else {
                return Err(ParseError::BadSort);
            }
        },
        _ => {
            return Err(ParseError::BadSort);
        },
    };
    Ok((field, dir))
}

fn bounds_of_filter(f: &Filter) -> (r: Result<(Option<i64>, Option<i64>), ParseError>)
    ensures
        r matches Ok(p) ==> time_bounds_of(f@.upload_begin, f@.upload_end) == Some((p.0, p.1)),
        r is Err ==> time_bounds_of(f@.upload_begin, f@.upload_end) is None && r == Err::<
            (Option<i64>, Option<i64>),
            ParseError,
        >(ParseError::BadDate),
{
    let lo: Option<i64> = match &f.upload_begin {
        Some(b) => {
            let chars = str_chars(b.as_str());
            match parse_date(&chars) {
                None => {
                    return Err(ParseError::BadDate);
                },
                Some((y, m, d)) => Some(day_start(y, m, d)),
            }
        },
        None => None,
    };
    let hi: Option<i64> = match &f.upload_end {
        Some(e) => {
            let chars = str_chars(e.as_str());
            match parse_date(&chars) {
                None => {
                    return Err(ParseError::BadDate);
                },
                Some((y, m, d)) => Some(day_end(y, m, d)),
            }
        },
        None => None,
    };
    Ok((lo, hi))
}

impl Criteria {
    /// Parses the three optional request parameters into typed criteria,
    /// exactly as `criteria_result` denotes: defaults for absent
    /// parameters, `offset = start` and `limit = end - start + 1` from the
    /// range, day-start and day-end timestamps from the date bounds.
    pub fn parse(filter: Option<&str>, range: Option<&str>, sort: Option<&str>) -> (r: Result<
        Criteria,
        ParseError,
    >)
        ensures
            r matches Ok(c) ==> criteria_result(
                match filter {
                    Some(f) => Some(f@),
                    None => None,
                },
                match range {
                    Some(g) => Some(g@),
                    None => None,
                },
                match sort {
                    Some(t) => Some(t@),
                    None => None,
                },
            ) == Ok::<CriteriaV, ParseError>(c@) && c@.wf(),
            r matches Err(e) ==> criteria_result(
                match filter {
                    Some(f) => Some(f@),
                    None => None,
                },
                match range {
                    Some(g) => Some(g@),
                    None => None,
                },
                match sort {
                    Some(t) => Some(t@),
                    None => None,
                },
            ) == Err::<CriteriaV, ParseError>(e),
    {
        let f: Filter = match filter {
            None => Filter { name: None, upload_begin: None, upload_end: None },
            Some(fs) => match parse_filter(fs) {
                Ok(f) => f,
                Err(e) => {
                    return Err(e);
                },
            },
        };
        let (lo, hi) = match bounds_of_filter(&f) {
            Ok(p) => p,
            Err(e) => {
                return Err(e);
            },
        };
        let (start, end): (u64, u64) = match range {
            None => (0, 9),
            Some(rs) => match parse_range(rs) {
                Ok(p) => p,
                Err(e) => {
                    return Err(e);
                },
            },
        };
        let (field, dir): (SortField, SortDir) = match sort {
            None => (SortField::UploadTime, SortDir::Asc),
            Some(ss) => match parse_sort(ss) {
                Ok(p) => p,
                Err(e) => {
                    return Err(e);
                },
            },
        };
        Ok(
            Criteria {
                name_like: f.name,
                time_lo: lo,
                time_hi: hi,
                offset: start,
                limit: end - start + 1,
                sort_field: field,
                sort_dir: dir,
            },
        )
    }
}

/// Whether every item is an integer that fits an `i32`; then those
/// integers.
pub open spec fn ints_of(items: Seq<JsonScalarV>) -> Option<Seq<i32>>
    decreases items.len(),
{
    if items.len() == 0 {
        Some(Seq::empty())
    } else {
        match ints_of(items.drop_last()) {
            None => None,
            Some(rest) => match items.last() {
                JsonScalarV::Int(v) => {
                    if i32::MIN <= v <= i32::MAX {
                        Some(rest.push(v as i32))
                    } else {
                        None
                    }
                },
                _ => None,
            },
        }
    }
}

/// The identifier list denoted by a delete-filter text: an object holding
/// the key `id` once, with an array of integers that fit an `i32`; other
/// keys are ignored.
pub open spec fn ids_result(s: Seq<char>) -> Result<Seq<i32>, ParseError> {
    match object_doc(s) {
        None => Err(ParseError::MalformedJson),
        Some(ps) => match fold_ids(ps, None) {
            Some(Some(ids)) => Ok(ids),
            _ => Err(ParseError::MalformedJson),
        },
    }
}

/// Folds the pairs of a delete filter: remembers the `id` array, refuses
/// a duplicate or ill-shaped one.
pub open spec fn fold_ids(ps: Seq<(Seq<char>, JsonValueV)>, acc: Option<Seq<i32>>) -> Option<
    Option<Seq<i32>>,
>
    decreases ps.len(),
{
    if ps.len() == 0 {
        Some(acc)
    } else {
        let k = ps[0].0;
        let v = ps[0].1;
        if k == "id"@ {
            if acc is Some {
                None
            } else {
                match v {
                    JsonValueV::Arr(items) => match ints_of(items) {
                        None => None,
                        Some(ids) => fold_ids(ps.drop_first(), Some(ids)),
                    },
                    _ => None,
                }
            }
        } else {
            fold_ids(ps.drop_first(), acc)
        }
    }
}

fn ints_of_exec(items: &Vec<JsonScalar>) -> (r: Option<Vec<i32>>)
    ensures
        r matches Some(ids) ==> ints_of(crate::json::scal_views(items@)) == Some(ids@),
        r is None ==> ints_of(crate::json::scal_views(items@)) is None,
{
    let mut ids: Vec<i32> = Vec::new();
    let mut j: usize = 0;
    proof {
        assert(crate::json::scal_views(items@).subrange(0, 0) =~= Seq::<JsonScalarV>::empty());
        assert(ids@ =~= Seq::<i32>::empty());
    }
    while j < items.len()
        invariant
            j <= items@.len(),
            ints_of(crate::json::scal_views(items@).subrange(0, j as int)) == Some(ids@),
        decreases items@.len() - j,
    {
        let ghost itemsv = crate::json::scal_views(items@);
        let v: i64 = match &items[j] {
            JsonScalar::Int(v) => *v,
            _ => {
                proof {
                    lemma_ints_of_prefix_bad(crate::json::scal_views(items@), j as int);
                }
                return None;
            },
        };
        if v < -2147483648i64 || v > 2147483647i64 {
            proof {
                lemma_ints_of_prefix_bad(crate::json::scal_views(items@), j as int);
            }
            return None;
        }
        ids.push(v as i32);
        j += 1;
        proof {
            assert(itemsv.subrange(0, j as int).drop_last() =~= itemsv.subrange(
                0,
                j as int - 1,
            ));
            assert(itemsv.subrange(0, j as int).last() == itemsv[j - 1]);
        }
    }
    proof {
        assert(crate::json::scal_views(items@).subrange(0, items@.len() as int) =~= crate::json::scal_views(items@));
    }
    Some(ids)
}

/// Parses the delete-filter parameter into the identifier list.
pub fn parse_id_filter(s: &str) -> (r: Result<Vec<i32>, ParseError>)
    ensures
        r matches Ok(ids) ==> ids_result(s@) == Ok::<Seq<i32>, ParseError>(ids@),
        r matches Err(e) ==> ids_result(s@) == Err::<Seq<i32>, ParseError>(e),
{
    let chars = str_chars(s);
    let ps = match parse_object_doc(&chars) {
        None => {
            return Err(ParseError::MalformedJson);
        },
        Some(ps) => ps,
    };
    let ghost psv = crate::json::pair_views(ps@);
    let mut found: Option<Vec<i32>> = None;
    let mut idx: usize = 0;
    proof {
        assert(psv.subrange(0, psv.len() as int) =~= psv);
    }
    while idx < ps.len()
        invariant
            idx <= ps@.len(),
            object_doc(s@) == Some(psv),
            psv == crate::json::pair_views(ps@),
            psv.len() == ps@.len(),
            fold_ids(psv, None) == fold_ids(
                psv.subrange(idx as int, psv.len() as int),
                match found {
                    Some(ref ids) => Some(ids@),
                    None => None,
                },
            ),
        decreases ps@.len() - idx,
    {
        let ghost suffix = psv.subrange(idx as int, psv.len() as int);
        proof {
            assert(suffix[0] == psv[idx as int]);
            assert(psv[idx as int] == (ps@[idx as int].0@, ps@[idx as int].1@));
            assert(suffix.drop_first() =~= psv.subrange(idx as int + 1, psv.len() as int));
        }
        if chars_eq_str(&ps[idx].0, "id") {
            if found.is_some() {
                return Err(ParseError::MalformedJson);
            }
            match &ps[idx].1 {
                JsonValue::Arr(items) => match ints_of_exec(items) {
                    Some(ids) => {
                        found = Some(ids);
                    },
                    None => {
                        return Err(ParseError::MalformedJson);
                    },
                },
                _ => {
                    return Err(ParseError::MalformedJson);
                },
            }
        }
        idx += 1;
    }
    proof {
        assert(psv.subrange(idx as int, psv.len() as int) =~= Seq::<
            (Seq<char>, JsonValueV),
        >::empty());
    }
    match found {
        Some(ids) => Ok(ids),
        None => Err(ParseError::MalformedJson),
    }
}

/// The parsed delete filter: the identifiers to soft-delete.
#[derive(Debug, PartialEq, Eq)]
pub struct Id {
    pub id: Vec<i32>,
}

impl Id {
    /// Parses the delete-filter parameter, as `ids_result` denotes.
    pub fn parse(s: &str) -> (r: Result<Id, ParseError>)
        ensures
            r matches Ok(v) ==> ids_result(s@) == Ok::<Seq<i32>, ParseError>(v.id@),
            r matches Err(e) ==> ids_result(s@) == Err::<Seq<i32>, ParseError>(e),
    {
        match parse_id_filter(s) {
            Ok(ids) => Ok(Id { id: ids }),
            Err(e) => Err(e),
        }
    }
}

proof fn lemma_ints_of_prefix_bad(items: Seq<JsonScalarV>, j: int)
    requires
        0 <= j < items.len(),
        !(items[j] matches JsonScalarV::Int(v) && i32::MIN <= v <= i32::MAX),
    ensures
        ints_of(items) is None,
    decreases items.len(),
{
    if items.len() > 0 {
        if j == items.len() - 1 {
        } else {
            lemma_ints_of_prefix_bad(items.drop_last(), j);
        }
    }
}

} // verus!
