//! Filtered, paginated listing over soft-deleted records.
//!
//! A record is never removed: deletion flips its `is_delete` flag, and the
//! listing never returns a flagged record, whatever filters are supplied.
//! The page respects the whole filter (name substring, date range), while
//! the reported total deliberately counts every active record regardless
//! of name and date filters, so the denominator of the content-range
//! descriptor — `<offset>-<offset+limit-1>/<total>` — can exceed the
//! filtered result set.
use vstd::prelude::*;

use crate::criteria::{Criteria, CriteriaV, ParseError, SortDir, SortField};
use crate::text::{
    chars_to_string, contains_ci, dec_str, dec_str_i64, i64_to_string, push_u64_dec, str_chars,
    vec_contains_ci,
};

verus! {

/// A stored resource record.
pub struct FileRecord {
    pub id: i32,
    pub name: String,
    pub size: u32,
    pub location: String,
    pub operator: String,
    pub upload_time: i64,
    pub is_delete: bool,
}

/// Mathematical value of a `FileRecord`.
pub struct FileRecordV {
    pub id: i32,
    pub name: Seq<char>,
    pub size: u32,
    pub location: Seq<char>,
    pub operator: Seq<char>,
    pub upload_time: i64,
    pub is_delete: bool,
}

impl View for FileRecord {
    type V = FileRecordV;

    open spec fn view(&self) -> FileRecordV {
        FileRecordV {
            id: self.id,
            name: self.name@,
            size: self.size,
            location: self.location@,
            operator: self.operator@,
            upload_time: self.upload_time,
            is_delete: self.is_delete,
        }
    }
}

/// The values of a sequence of records.
pub open spec fn rec_views(s: Seq<FileRecord>) -> Seq<FileRecordV> {
    s.map_values(|r: FileRecord| r@)
}

/// An exact copy of a record.
pub fn clone_record(r: &FileRecord) -> (c: FileRecord)
    ensures
        c@ == r@,
{
    FileRecord {
        id: r.id,
        name: r.name.clone(),
        size: r.size,
        location: r.location.clone(),
        operator: r.operator.clone(),
        upload_time: r.upload_time,
        is_delete: r.is_delete,
    }
}

/// Whether a record is admitted by the criteria: it is active, its name
/// contains the requested substring ignoring ASCII case, and its upload
/// time lies in the requested inclusive range.
pub open spec fn matches_criteria(r: FileRecordV, c: CriteriaV) -> bool {
    &&& !r.is_delete
    &&& match c.name_like {
        Some(n) => contains_ci(r.name, n),
        None => true,
    }
    &&& match c.time_lo {
        Some(t) => r.upload_time >= t,
        None => true,
    }
    &&& match c.time_hi {
        Some(t) => r.upload_time <= t,
        None => true,
    }
}

/// The records a listing under criteria `c` may return, in store order.
pub open spec fn visible(s: Seq<FileRecordV>, c: CriteriaV) -> Seq<FileRecordV> {
    s.filter(|r: FileRecordV| matches_criteria(r, c))
}

/// Listing never returns a deleted record: everything the criteria admit
/// is active, whatever the filters are.
pub proof fn lemma_visible_not_deleted(s: Seq<FileRecordV>, c: CriteriaV)
    ensures
        forall|i: int|
            0 <= i < visible(s, c).len() ==> !(#[trigger] visible(s, c)[i]).is_delete,
{
    broadcast use vstd::seq_lib::group_filter_ensures;

    assert forall|i: int|
        0 <= i < visible(s, c).len() implies !(#[trigger] visible(s, c)[i]).is_delete by {
        assert(matches_criteria(visible(s, c)[i], c));
    }
}

/// Number of active (not soft-deleted) records.
pub open spec fn active_count(s: Seq<FileRecordV>) -> int {
    s.filter(|r: FileRecordV| !r.is_delete).len() as int
}

proof fn lemma_filter_push<A>(s: Seq<A>, x: A, pred: spec_fn(A) -> bool)
    ensures
        s.push(x).filter(pred) == if pred(x) {
            s.filter(pred).push(x)
        } else {
            s.filter(pred)
        },
{
    reveal(Seq::filter);
    assert(s.push(x).drop_last() =~= s);
    assert(s.push(x).last() == x);
}

fn matches_exec(r: &FileRecord, c: &Criteria) -> (b: bool)
    ensures
        b == matches_criteria(r@, c@),
{
    if r.is_delete {
        return false;
    }
    match &c.name_like {
        Some(n) => {
            let hay = str_chars(r.name.as_str());
            let needle = str_chars(n.as_str());
            if !vec_contains_ci(&hay, &needle) {
                return false;
            }
        },
        None => {},
    }
    match c.time_lo {
        Some(t) => {
            if r.upload_time < t {
                return false;
            }
        },
        None => {},
    }
    match c.time_hi {
        Some(t) => {
            if r.upload_time > t {
                return false;
            }
        },
        None => {},
    }
    true
}

fn filter_records(records: &Vec<FileRecord>, c: &Criteria) -> (v: Vec<FileRecord>)
    ensures
        rec_views(v@) == visible(rec_views(records@), c@),
{
    let mut v: Vec<FileRecord> = Vec::new();
    let mut i: usize = 0;
    while i < records.len()
        invariant
            i <= records@.len(),
            rec_views(v@) == visible(rec_views(records@.subrange(0, i as int)), c@),
        decreases records@.len() - i,
    {
        let ghost prefix = rec_views(records@.subrange(0, i as int));
        let ghost pred = |r: FileRecordV| matches_criteria(r, c@);
        if matches_exec(&records[i], c) {
            v.push(clone_record(&records[i]));
        }
        i += 1;
        proof {
            assert(rec_views(records@.subrange(0, i as int)) =~= prefix.push(records@[i - 1]@));
            lemma_filter_push(prefix, records@[i - 1]@, pred);
            if pred(records@[i - 1]@) {
                assert(rec_views(v@) =~= prefix.filter(pred).push(records@[i - 1]@));
            }
        }
    }
    proof {
        assert(records@.subrange(0, i as int) =~= records@);
    }
    v
}

/// Number of active records, the denominator of the content-range
/// descriptor; it deliberately ignores the name and date filters.
pub fn count_active(records: &Vec<FileRecord>) -> (n: u64)
    requires
        records@.len() <= u64::MAX,
    ensures
        n as int == active_count(rec_views(records@)),
{
    let mut n: u64 = 0;
    let mut i: usize = 0;
    while i < records.len()
        invariant
            i <= records@.len(),
            records@.len() <= u64::MAX,
            n as int == active_count(rec_views(records@.subrange(0, i as int))),
            n <= i,
        decreases records@.len() - i,
    {
        let ghost pred = |r: FileRecordV| !r.is_delete;
        let ghost prefix = rec_views(records@.subrange(0, i as int));
        if !records[i].is_delete {
            n = n + 1;
        }
        i += 1;
        proof {
            broadcast use vstd::seq_lib::group_filter_ensures;

            assert(rec_views(records@.subrange(0, i as int)) =~= prefix.push(records@[i - 1]@));
            lemma_filter_push(prefix, records@[i - 1]@, pred);
        }
    }
    proof {
        assert(records@.subrange(0, i as int) =~= records@);
    }
    n
}

/// Ordering key of a record under a sort field.
pub open spec fn sort_key(f: SortField, r: FileRecordV) -> int {
    match f {
        SortField::Id => r.id as int,
        SortField::UploadTime => r.upload_time as int,
        SortField::Size => r.size as int,
    }
}

/// Whether `a` may stand before `b` under the requested ordering.
pub open spec fn rec_leq(f: SortField, d: SortDir, a: FileRecordV, b: FileRecordV) -> bool {
    match d {
        SortDir::Asc => sort_key(f, a) <= sort_key(f, b),
        SortDir::Desc => sort_key(f, a) >= sort_key(f, b),
    }
}

/// The sequence is ordered under the requested ordering.
pub open spec fn sorted_page(f: SortField, d: SortDir, s: Seq<FileRecordV>) -> bool {
    forall|i: int, j: int| 0 <= i < j < s.len() ==> rec_leq(f, d, #[trigger] s[i], #[trigger] s[j])
}

fn key_of(f: SortField, r: &FileRecord) -> (k: i64)
    ensures
        k as int == sort_key(f, r@),
{
    match f {
        SortField::Id => r.id as i64,
        SortField::UploadTime => r.upload_time,
        SortField::Size => r.size as i64,
    }
}

fn rec_leq_exec(f: SortField, d: SortDir, a: &FileRecord, b: &FileRecord) -> (r: bool)
    ensures
        r == rec_leq(f, d, a@, b@),
{
    let ka = key_of(f, a);
    let kb = key_of(f, b);
    match d {
        SortDir::Asc => ka <= kb,
        SortDir::Desc => ka >= kb,
    }
}

proof fn lemma_views_insert(s: Seq<FileRecord>, i: int, x: FileRecord)
    requires
        0 <= i <= s.len(),
    ensures
        rec_views(s.insert(i, x)) == rec_views(s).insert(i, x@),
{
    assert(rec_views(s.insert(i, x)) =~= rec_views(s).insert(i, x@));
}

fn find_pos(out: &Vec<FileRecord>, f: SortField, d: SortDir, r: &FileRecord) -> (p: usize)
    ensures
        p <= out@.len(),
        forall|k: int| 0 <= k < p ==> rec_leq(f, d, #[trigger] rec_views(out@)[k], r@),
        p < out@.len() ==> !rec_leq(f, d, rec_views(out@)[p as int], r@),
{
    let mut p: usize = 0;
    while p < out.len()
        invariant
            p <= out@.len(),
            forall|k: int| 0 <= k < p ==> rec_leq(f, d, #[trigger] rec_views(out@)[k], r@),
        decreases out@.len() - p,
    {
        if !rec_leq_exec(f, d, &out[p], r) {
            return p;
        }
        p += 1;
    }
    p
}

/// Sorts records by the requested field and direction. The result is some
/// arrangement of the same records (records with equal keys may stand in
/// any order among themselves).
pub fn sort_records(records: Vec<FileRecord>, f: SortField, d: SortDir) -> (out: Vec<FileRecord>)
    ensures
        rec_views(out@).to_multiset() == rec_views(records@).to_multiset(),
        sorted_page(f, d, rec_views(out@)),
{
    broadcast use vstd::seq_lib::to_multiset_insert;

    let mut out: Vec<FileRecord> = Vec::new();
    let mut i: usize = 0;
    proof {
        assert(rec_views(out@) =~= Seq::<FileRecordV>::empty());
        assert(rec_views(records@.subrange(0, 0)) =~= Seq::<FileRecordV>::empty());
        assert(rec_views(out@).to_multiset() =~= rec_views(records@.subrange(0, 0)).to_multiset());
    }
    while i < records.len()
        invariant
            i <= records@.len(),
            rec_views(out@).to_multiset() == rec_views(records@.subrange(0, i as int)).to_multiset(),
            sorted_page(f, d, rec_views(out@)),
        decreases records@.len() - i,
    {
        let ghost prefix = rec_views(records@.subrange(0, i as int));
        let r = clone_record(&records[i]);
        let ghost rv = r@;
        let p = find_pos(&out, f, d, &r);
        proof {
            lemma_views_insert(out@, p as int, r);
        }
        let ghost old_views = rec_views(out@);
        out.insert(p, r);
        i += 1;
        proof {
            broadcast use vstd::seq_lib::group_to_multiset_ensures;

            assert(rec_views(records@.subrange(0, i as int)) =~= prefix.push(records@[i - 1]@));
            assert(records@[i - 1]@ == rv);
            assert(rec_views(out@) == old_views.insert(p as int, rv));
            assert(rec_views(out@).to_multiset() =~= prefix.push(rv).to_multiset());
            assert forall|a: int, b: int|
                0 <= a < b < rec_views(out@).len() implies rec_leq(
                f,
                d,
                #[trigger] rec_views(out@)[a],
                #[trigger] rec_views(out@)[b],
            ) by {
                let nv = rec_views(out@);
                if b < p {
                    assert(nv[a] == old_views[a] && nv[b] == old_views[b]);
                } else if a > p {
                    assert(nv[a] == old_views[a - 1] && nv[b] == old_views[b - 1]);
                } else if a == p {
                    assert(nv[a] == rv && nv[b] == old_views[b - 1]);
                    if p < old_views.len() {
                        assert(!rec_leq(f, d, old_views[p as int], rv));
                    }
                } else if b == p {
                    assert(nv[a] == old_views[a] && nv[b] == rv);
                } else {
                    assert(a < p && b > p);
                    assert(nv[a] == old_views[a] && nv[b] == old_views[b - 1]);
                    if p < old_views.len() {
                        assert(!rec_leq(f, d, old_views[p as int], rv));
                    }
                }
            }
        }
    }
    proof {
        assert(records@.subrange(0, i as int) =~= records@);
    }
    out
}

/// One row of a listing response.
#[derive(Debug, PartialEq, Eq)]
pub struct FileListResponse {
    pub id: i32,
    pub name: String,
    pub upload_time: String,
    pub operator: String,
    pub location: String,
    pub size: u32,
}

/// Mathematical value of a `FileListResponse`.
pub struct FileListResponseV {
    pub id: i32,
    pub name: Seq<char>,
    pub upload_time: Seq<char>,
    pub operator: Seq<char>,
    pub location: Seq<char>,
    pub size: u32,
}

impl View for FileListResponse {
    type V = FileListResponseV;

    open spec fn view(&self) -> FileListResponseV {
        FileListResponseV {
            id: self.id,
            name: self.name@,
            upload_time: self.upload_time@,
            operator: self.operator@,
            location: self.location@,
            size: self.size,
        }
    }
}

/// The values of a sequence of response rows.
pub open spec fn resp_views(s: Seq<FileListResponse>) -> Seq<FileListResponseV> {
    s.map_values(|r: FileListResponse| r@)
}

/// The response row of a record: the upload time becomes its decimal
/// string and the operator field is reported as "admin".
pub open spec fn response_of(r: FileRecordV) -> FileListResponseV {
    FileListResponseV {
        id: r.id,
        name: r.name,
        upload_time: dec_str_i64(r.upload_time as int),
        operator: "admin"@,
        location: r.location,
        size: r.size,
    }
}

fn response_of_exec(r: &FileRecord) -> (out: FileListResponse)
    ensures
        out@ == response_of(r@),
{
    FileListResponse {
        id: r.id,
        name: r.name.clone(),
        upload_time: i64_to_string(r.upload_time),
        operator: String::from_str("admin"),
        location: r.location.clone(),
        size: r.size,
    }
}

/// The page slice of an arranged record sequence: records from `offset`
/// on, at most `limit` of them.
pub open spec fn page_of(s: Seq<FileRecordV>, offset: u64, limit: u64) -> Seq<FileRecordV> {
    let lo = vstd::math::min(offset as int, s.len() as int);
    let hi = vstd::math::min(offset as int + limit as int, s.len() as int);
    s.subrange(lo, hi)
}

/// The content-range descriptor `<offset>-<offset+limit-1>/<total>`.
pub open spec fn content_range_of(offset: u64, limit: u64, total: int) -> Seq<char>
    recommends
        limit >= 1,
        total >= 0,
{
    dec_str(offset as nat) + seq!['-'] + dec_str((offset + limit - 1) as nat) + seq!['/'] + dec_str(
        total as nat,
    )
}

/// Builds the content-range descriptor string.
pub fn build_content_range(offset: u64, limit: u64, total: u64) -> (s: String)
    requires
        limit >= 1,
        offset + limit - 1 <= u64::MAX,
    ensures
        s@ == content_range_of(offset, limit, total as int),
{
    let mut v: Vec<char> = Vec::new();
    push_u64_dec(&mut v, offset);
    v.push('-');
    push_u64_dec(&mut v, offset + (limit - 1));
    v.push('/');
    push_u64_dec(&mut v, total);
    proof {
        assert(v@ =~= content_range_of(offset, limit, total as int));
    }
    chars_to_string(&v)
}

/// A page of results: the rows, the total of active records, and the
/// content-range descriptor.
pub struct Page {
    pub items: Vec<FileListResponse>,
    pub total: u64,
    pub content_range: String,
}

/// Lists the records admitted by the criteria: they are arranged by the
/// requested ordering, the requested page slice is taken, and each record
/// becomes a response row — every row stems from a record the criteria
/// admit, so no soft-deleted record is ever returned. The reported total
/// and the descriptor's denominator count every active record, ignoring
/// the name and date filters.
pub fn list(records: &Vec<FileRecord>, c: &Criteria) -> (p: Page)
    requires
        c@.wf(),
        records@.len() <= u64::MAX,
    ensures
        p.total as int == active_count(rec_views(records@)),
        p.content_range@ == content_range_of(c@.offset, c@.limit, active_count(rec_views(records@))),
        exists|arranged: Seq<FileRecordV>|
            {
                &&& #[trigger] arranged.to_multiset() == visible(
                    rec_views(records@),
                    c@,
                ).to_multiset()
                &&& sorted_page(c@.sort_field, c@.sort_dir, arranged)
                &&& (forall|k: int|
                    0 <= k < arranged.len() ==> matches_criteria(#[trigger] arranged[k], c@))
                &&& resp_views(p.items@) == page_of(arranged, c@.offset, c@.limit).map_values(
                    |r: FileRecordV| response_of(r),
                )
            },
{
    let matched = filter_records(records, c);
    let sorted = sort_records(matched, c.sort_field, c.sort_dir);
    let ghost arranged = rec_views(sorted@);
    let total = count_active(records);

    let slen = sorted.len();
    let lo: usize = if c.offset >= slen as u64 {
        slen
    } else {
        c.offset as usize
    };
    let remaining: u64 = (slen - lo) as u64;
    let take: usize = if c.limit >= remaining {
        slen - lo
    } else {
        c.limit as usize
    };
    let hi: usize = lo + take;
    proof {
        assert(lo as int == vstd::math::min(c@.offset as int, arranged.len() as int));
        assert(hi as int == vstd::math::min(
            c@.offset as int + c@.limit as int,
            arranged.len() as int,
        ));
    }

    let mut items: Vec<FileListResponse> = Vec::new();
    let mut j: usize = lo;
    while j < hi
        invariant
            lo <= j <= hi <= sorted@.len(),
            arranged == rec_views(sorted@),
            resp_views(items@) == arranged.subrange(lo as int, j as int).map_values(
                |r: FileRecordV| response_of(r),
            ),
        decreases hi - j,
    {
        let ghost prev_items = items@;
        let row = response_of_exec(&sorted[j]);
        items.push(row);
        j += 1;
        proof {
            assert(arranged[j - 1] == sorted@[j - 1]@);
            assert(resp_views(items@) =~= resp_views(prev_items).push(response_of(
                arranged[j - 1],
            )));
            assert(arranged.subrange(lo as int, j as int).map_values(
                |r: FileRecordV| response_of(r),
            ) =~= arranged.subrange(lo as int, j - 1).map_values(
                |r: FileRecordV| response_of(r),
            ).push(response_of(arranged[j - 1])));
        }
    }

    let content_range = build_content_range(c.offset, c.limit, total);
    let page = Page { items, total, content_range };
    proof {
        assert(arranged.subrange(lo as int, hi as int) =~= page_of(
            arranged,
            c@.offset,
            c@.limit,
        ));
        assert(arranged.to_multiset() == visible(rec_views(records@), c@).to_multiset());
        broadcast use vstd::seq_lib::group_to_multiset_ensures;
        broadcast use vstd::seq_lib::group_filter_ensures;

        let vis = visible(rec_views(records@), c@);
        assert forall|k: int|
            0 <= k < arranged.len() implies matches_criteria(#[trigger] arranged[k], c@) by {
            assert(arranged.contains(arranged[k]));
            assert(arranged.to_multiset().count(arranged[k]) > 0);
            assert(vis.to_multiset().count(arranged[k]) > 0);
            assert(vis.contains(arranged[k]));
            let j = choose|j: int| 0 <= j < vis.len() && vis[j] == arranged[k];
            assert(matches_criteria(vis[j], c@));
        }
    }
    page
}

/// The record after a soft delete of a set of identifiers: deleted if it
/// was already deleted or its identifier is among them; otherwise
/// unchanged.
pub open spec fn after_delete(r: FileRecordV, ids: Seq<i32>) -> FileRecordV {
    FileRecordV { is_delete: r.is_delete || ids.contains(r.id), ..r }
}

/// Number of records that a soft delete of `ids` actually changes: the
/// active ones whose identifier is among `ids`.
pub open spec fn newly_deleted(s: Seq<FileRecordV>, ids: Seq<i32>) -> int
    decreases s.len(),
{
    if s.len() == 0 {
        0
    } else {
        newly_deleted(s.drop_last(), ids) + if !s.last().is_delete && ids.contains(s.last().id) {
            1int
        } else {
            0int
        }
    }
}

fn contains_id(ids: &Vec<i32>, x: i32) -> (b: bool)
    ensures
        b == ids@.contains(x),
{
    let mut i: usize = 0;
    while i < ids.len()
        invariant
            i <= ids@.len(),
            forall|k: int| 0 <= k < i ==> ids@[k] != x,
        decreases ids@.len() - i,
    {
        if ids[i] == x {
            return true;
        }
        i += 1;
    }
    false
}

/// Flips `is_delete` on every record whose identifier is listed, in one
/// pass, and returns how many rows actually changed: records that were
/// already deleted are left as they are and not counted.
pub fn soft_delete(records: &mut Vec<FileRecord>, ids: &Vec<i32>) -> (n: u64)
    requires
        old(records)@.len() <= u64::MAX,
    ensures
        final(records)@.len() == old(records)@.len(),
        forall|i: int|
            0 <= i < old(records)@.len() ==> rec_views(final(records)@)[i] == after_delete(
                #[trigger] rec_views(old(records)@)[i],
                ids@,
            ),
        n as int == newly_deleted(rec_views(old(records)@), ids@),
{
    let mut n: u64 = 0;
    let mut i: usize = 0;
    while i < records.len()
        invariant
            records@.len() == old(records)@.len() <= u64::MAX,
            i <= records@.len(),
            n <= i,
            n as int == newly_deleted(rec_views(old(records)@.subrange(0, i as int)), ids@),
            forall|k: int|
                0 <= k < i ==> rec_views(records@)[k] == after_delete(
                    #[trigger] rec_views(old(records)@)[k],
                    ids@,
                ),
            forall|k: int| i <= k < records@.len() ==> records@[k] == old(records)@[k],
        decreases records@.len() - i,
    {
        let ghost prefix = rec_views(old(records)@.subrange(0, i as int));
        if !records[i].is_delete && contains_id(ids, records[i].id) {
            let changed = FileRecord {
                id: records[i].id,
                name: records[i].name.clone(),
                size: records[i].size,
                location: records[i].location.clone(),
                operator: records[i].operator.clone(),
                upload_time: records[i].upload_time,
                is_delete: true,
            };
            records.set(i, changed);
            n = n + 1;
        }
        i += 1;
        proof {
            assert(old(records)@.subrange(0, i as int).drop_last() =~= old(records)@.subrange(
                0,
                i as int - 1,
            ));
            assert(rec_views(old(records)@.subrange(0, i as int)).drop_last() =~= prefix);
            assert(rec_views(old(records)@.subrange(0, i as int)).last() == old(
                records,
            )@[i - 1]@);
        }
    }
    proof {
        assert(old(records)@.subrange(0, i as int) =~= old(records)@);
    }
    n
}

/// Whether some active record carries this name.
pub open spec fn has_active_name(s: Seq<FileRecordV>, name: Seq<char>) -> bool {
    exists|i: int| 0 <= i < s.len() && !(#[trigger] s[i]).is_delete && s[i].name == name
}

/// Whether an upload under this name would be stored: it is skipped
/// exactly when an active record already carries the name.
pub fn upload_allowed(records: &Vec<FileRecord>, name: &String) -> (b: bool)
    ensures
        b == !has_active_name(rec_views(records@), name@),
{
    let mut i: usize = 0;
    while i < records.len()
        invariant
            i <= records@.len(),
            forall|k: int|
                0 <= k < i ==> (#[trigger] rec_views(records@)[k]).is_delete || rec_views(
                    records@,
                )[k].name != name@,
        decreases records@.len() - i,
    {
        if !records[i].is_delete && records[i].name == *name {
            proof {
                assert(!rec_views(records@)[i as int].is_delete && rec_views(records@)[
                    i as int].name == name@);
            }
            return false;
        }
        i += 1;
    }
    true
}

/// The greatest identifier of any record, or 0 when there is none.
pub open spec fn max_id(s: Seq<FileRecordV>) -> int
    decreases s.len(),
{
    if s.len() == 0 {
        0
    } else if s.last().id as int > max_id(s.drop_last()) {
        s.last().id as int
    } else {
        max_id(s.drop_last())
    }
}

/// Stores an upload: when no active record carries the name, a new active
/// record under a fresh identifier (one more than the greatest in use) is
/// appended and its identifier returned; otherwise the store is unchanged
/// and `None` is returned, as a duplicate name is silently skipped.
pub fn upload_record(
    records: &mut Vec<FileRecord>,
    name: String,
    size: u32,
    location: String,
    operator: String,
    upload_time: i64,
) -> (r: Option<i32>)
    requires
        max_id(rec_views(old(records)@)) < i32::MAX,
        0 <= max_id(rec_views(old(records)@)),
    ensures
        r matches Some(id) ==> {
            &&& !has_active_name(rec_views(old(records)@), name@)
            &&& id as int == max_id(rec_views(old(records)@)) + 1
            &&& final(records)@.len() == old(records)@.len() + 1
            &&& rec_views(final(records)@) == rec_views(old(records)@).push(
                FileRecordV {
                    id,
                    name: name@,
                    size,
                    location: location@,
                    operator: operator@,
                    upload_time,
                    is_delete: false,
                },
            )
        },
        r is None ==> has_active_name(rec_views(old(records)@), name@) && final(records)@ == old(
            records,
        )@,
{
    if !upload_allowed(records, &name) {
        return None;
    }
    let id = next_id(records);
    let rec = FileRecord { id, name, size, location, operator, upload_time, is_delete: false };
    let ghost recv = rec@;
    records.push(rec);
    proof {
        assert(rec_views(records@) =~= rec_views(old(records)@).push(recv));
    }
    Some(id)
}

fn next_id(records: &Vec<FileRecord>) -> (id: i32)
    requires
        max_id(rec_views(records@)) < i32::MAX,
        0 <= max_id(rec_views(records@)),
    ensures
        id as int == max_id(rec_views(records@)) + 1,
{
    let mut m: i32 = 0;
    let mut i: usize = 0;
    while i < records.len()
        invariant
            i <= records@.len(),
            max_id(rec_views(records@)) < i32::MAX,
            0 <= m as int,
            m as int == max_id(rec_views(records@.subrange(0, i as int))),
            m as int <= max_id(rec_views(records@)),
        decreases records@.len() - i,
    {
        let ghost prefix = rec_views(records@.subrange(0, i as int));
        proof {
            lemma_max_id_prefix(rec_views(records@), i as int + 1);
        }
        if records[i].id > m {
            m = records[i].id;
        }
        i += 1;
        proof {
            assert(records@.subrange(0, i as int).drop_last() =~= records@.subrange(
                0,
                i as int - 1,
            ));
            assert(rec_views(records@.subrange(0, i as int)).drop_last() =~= prefix);
            assert(rec_views(records@.subrange(0, i as int)).last() == records@[i - 1]@);
        }
    }
    proof {
        assert(records@.subrange(0, i as int) =~= records@);
    }
    m + 1
}

/// Response of an upload: the fresh identifier, or none when a
/// duplicate active name made the upload skip.
#[derive(Debug, PartialEq, Eq)]
pub struct FileUploadResponse {
    pub id: Option<i32>,
}

/// Stores an upload and reports the outcome: the fresh identifier, or
/// none when an active record already carries the name and the upload
/// was silently skipped.
pub fn upload(
    records: &mut Vec<FileRecord>,
    name: String,
    size: u32,
    location: String,
    operator: String,
    upload_time: i64,
) -> (r: FileUploadResponse)
    requires
        max_id(rec_views(old(records)@)) < i32::MAX,
        0 <= max_id(rec_views(old(records)@)),
    ensures
        r.id matches Some(id) ==> {
            &&& !has_active_name(rec_views(old(records)@), name@)
            &&& id as int == max_id(rec_views(old(records)@)) + 1
            &&& rec_views(final(records)@) == rec_views(old(records)@).push(
                FileRecordV {
                    id,
                    name: name@,
                    size,
                    location: location@,
                    operator: operator@,
                    upload_time,
                    is_delete: false,
                },
            )
        },
        r.id is None ==> has_active_name(rec_views(old(records)@), name@) && final(records)@
            == old(records)@,
{
    FileUploadResponse { id: upload_record(records, name, size, location, operator, upload_time) }
}

/// Soft-deletes the records named by a raw delete-filter parameter:
/// the filter must be an object carrying `id` with a list of
/// identifiers; the number of rows actually changed is returned.
pub fn delete_file(records: &mut Vec<FileRecord>, filter: &str) -> (r: Result<u64, ParseError>)
    requires
        old(records)@.len() <= u64::MAX,
    ensures
        r matches Ok(n) ==> ({
            let ids = crate::criteria::ids_result(filter@)->Ok_0;
            &&& crate::criteria::ids_result(filter@) is Ok
            &&& final(records)@.len() == old(records)@.len()
            &&& (forall|i: int|
                0 <= i < old(records)@.len() ==> rec_views(final(records)@)[i] == after_delete(
                    #[trigger] rec_views(old(records)@)[i],
                    ids,
                ))
            &&& n as int == newly_deleted(rec_views(old(records)@), ids)
        }),
        r matches Err(e) ==> crate::criteria::ids_result(filter@) == Err::<Seq<i32>, ParseError>(
            e,
        ) && final(records)@ == old(records)@,
{
    let ids = match crate::criteria::parse_id_filter(filter) {
        Ok(ids) => ids,
        Err(e) => {
            return Err(e);
        },
    };
    Ok(soft_delete(records, &ids))
}

/// The content-disposition header value of a download.
pub fn attachment_header(filename: &String) -> (s: String)
    ensures
        s@ == "attachment; filename="@ + filename@,
{
    let mut v: Vec<char> = str_chars("attachment; filename=");
    let f = str_chars(filename.as_str());
    let mut i: usize = 0;
    while i < f.len()
        invariant
            i <= f@.len(),
            f@ == filename@,
            v@ == "attachment; filename="@ + filename@.subrange(0, i as int),
        decreases f@.len() - i,
    {
        v.push(f[i]);
        i += 1;
        proof {
            assert(v@ =~= "attachment; filename="@ + filename@.subrange(0, i as int));
        }
    }
    proof {
        assert(v@ =~= "attachment; filename="@ + filename@);
    }
    chars_to_string(&v)
}

proof fn lemma_max_id_prefix(s: Seq<FileRecordV>, n: int)
    requires
        0 <= n <= s.len(),
    ensures
        max_id(s.subrange(0, n)) <= max_id(s),
    decreases s.len() - n,
{
    if n == s.len() {
        assert(s.subrange(0, n) =~= s);
    } else {
        lemma_max_id_prefix(s, n + 1);
        assert(s.subrange(0, n + 1).drop_last() =~= s.subrange(0, n));
    }
}

} // verus!
