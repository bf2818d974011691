use ruthenium::criteria::{Criteria, SortDir, SortField};
use ruthenium::listing::{
    attachment_header, count_active, delete_file, list, soft_delete, upload, FileRecord,
};

fn record(id: i32, name: &str, upload_time: i64, size: u32, deleted: bool) -> FileRecord {
    FileRecord {
        id,
        name: String::from(name),
        size,
        location: format!("10.0.0.1/{}", name),
        operator: String::from("1"),
        upload_time,
        is_delete: deleted,
    }
}

fn store() -> Vec<FileRecord> {
    vec![
        record(1, "report-a", 300, 10, false),
        record(2, "summary", 100, 30, false),
        record(3, "report-b", 200, 20, false),
        record(4, "old-report", 400, 40, true),
    ]
}

#[test]
fn filter_page_and_header() {
    // "report" occurs in report-a, report-b and the deleted old-report;
    // only the two active ones may appear in the page.
    let mut c = Criteria::new_default();
    c.name_like = Some(String::from("report"));
    c.offset = 0;
    c.limit = 2;
    let page = list(&store(), &c);
    assert_eq!(page.items.len(), 2);
    // total counts every active record, ignoring the name filter
    assert_eq!(page.total, 3);
    assert_eq!(page.content_range, "0-1/3");
    for item in &page.items {
        assert!(item.name.contains("report"));
    }
}

#[test]
fn three_matching_records_range_two() {
    // three active records matching "report"; a page of two is returned and
    // the denominator ignores the name filter
    let mut records = store();
    records.push(record(5, "Report-C", 500, 5, false));
    let mut c = Criteria::new_default();
    c.name_like = Some(String::from("report"));
    c.offset = 0;
    c.limit = 2;
    let page = list(&records, &c);
    assert_eq!(page.items.len(), 2);
    assert_eq!(page.total, 4);
    assert_eq!(page.content_range, "0-1/4");
}

#[test]
fn scenario_parsed_filter_and_range() {
    // the full path: raw query parameters, parsed, then listed
    let mut records = store();
    records.push(record(5, "report-c", 500, 5, false));
    let c = Criteria::parse(Some("{\"name\":\"report\"}"), Some("[0,1]"), None)
        .expect("parameters should parse");
    let page = list(&records, &c);
    assert_eq!(page.items.len(), 2);
    assert_eq!(page.content_range, "0-1/4");
}

#[test]
fn listing_never_returns_deleted() {
    let records = store();
    let c = Criteria::new_default();
    let page = list(&records, &c);
    assert_eq!(page.items.len(), 3);
    for item in &page.items {
        assert_ne!(item.id, 4);
    }
    // even when the name filter matches only the deleted record
    let mut c = Criteria::new_default();
    c.name_like = Some(String::from("old"));
    let page = list(&records, &c);
    assert!(page.items.is_empty());
}

#[test]
fn name_match_is_case_insensitive() {
    let mut c = Criteria::new_default();
    c.name_like = Some(String::from("REPORT"));
    let page = list(&store(), &c);
    assert_eq!(page.items.len(), 2);
}

#[test]
fn date_range_filters() {
    let mut c = Criteria::new_default();
    c.time_lo = Some(150);
    c.time_hi = Some(350);
    let page = list(&store(), &c);
    assert_eq!(page.items.len(), 2);
    let ids: Vec<i32> = page.items.iter().map(|r| r.id).collect();
    assert!(ids.contains(&1) && ids.contains(&3));
}

#[test]
fn default_order_is_upload_time_asc() {
    let page = list(&store(), &Criteria::new_default());
    let times: Vec<&str> = page.items.iter().map(|r| r.upload_time.as_str()).collect();
    assert_eq!(times, vec!["100", "200", "300"]);
    assert_eq!(page.content_range, "0-9/3");
}

#[test]
fn explicit_sorts() {
    let mut c = Criteria::new_default();
    c.sort_field = SortField::Id;
    c.sort_dir = SortDir::Desc;
    let page = list(&store(), &c);
    let ids: Vec<i32> = page.items.iter().map(|r| r.id).collect();
    assert_eq!(ids, vec![3, 2, 1]);

    c.sort_field = SortField::Size;
    c.sort_dir = SortDir::Asc;
    let page = list(&store(), &c);
    let sizes: Vec<u32> = page.items.iter().map(|r| r.size).collect();
    assert_eq!(sizes, vec![10, 20, 30]);
}

#[test]
fn offset_past_end_is_empty() {
    let mut c = Criteria::new_default();
    c.offset = 10;
    c.limit = 5;
    let page = list(&store(), &c);
    assert!(page.items.is_empty());
    assert_eq!(page.content_range, "10-14/3");
}

#[test]
fn response_rows_carry_admin_operator() {
    let page = list(&store(), &Criteria::new_default());
    for item in &page.items {
        assert_eq!(item.operator, "admin");
    }
}

#[test]
fn soft_delete_counts_only_changes() {
    // id 3 exists and is active, id 4 is already deleted
    let mut records = store();
    let affected = soft_delete(&mut records, &vec![3, 4]);
    assert_eq!(affected, 1);
    assert!(records[2].is_delete);
    assert!(records[3].is_delete);
    // the others are untouched
    assert!(!records[0].is_delete);
    assert!(!records[1].is_delete);
    // deleting again changes nothing
    let affected = soft_delete(&mut records, &vec![3, 4]);
    assert_eq!(affected, 0);
}

#[test]
fn soft_delete_of_unknown_ids() {
    let mut records = store();
    assert_eq!(soft_delete(&mut records, &vec![99]), 0);
    assert_eq!(records.len(), 4);
}

#[test]
fn count_active_ignores_filters() {
    assert_eq!(count_active(&store()), 3);
    assert_eq!(count_active(&Vec::new()), 0);
}

#[test]
fn upload_skips_duplicate_active_name() {
    let mut records = store();
    let r = upload(
        &mut records,
        String::from("summary"),
        0,
        String::from("10.0.0.1/summary"),
        String::from("1"),
        500,
    );
    assert!(r.id.is_none());
    assert_eq!(records.len(), 4);

    // a name held only by a deleted record may be reused
    let r = upload(
        &mut records,
        String::from("old-report"),
        0,
        String::from("10.0.0.1/old-report"),
        String::from("1"),
        500,
    );
    assert_eq!(r.id, Some(5));
    assert_eq!(records.len(), 5);
    assert!(!records[4].is_delete);
}

#[test]
fn attachment_header_shape() {
    assert_eq!(
        attachment_header(&String::from("notes.txt")),
        "attachment; filename=notes.txt"
    );
}

#[test]
fn delete_file_parses_and_deletes() {
    let mut records = store();
    assert_eq!(delete_file(&mut records, "{\"id\":[3,4]}"), Ok(1));
    assert!(delete_file(&mut records, "{\"ids\":[3]}").is_err());
    assert_eq!(records.len(), 4);
}
