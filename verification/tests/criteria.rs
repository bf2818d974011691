use ruthenium::criteria::{
    day_end, day_start, parse_date, parse_filter, parse_range, parse_sort, Criteria, Id,
    ParseError, SortDir, SortField,
};
use ruthenium::text::str_chars;

#[test]
fn range_round_trip() {
    let c = Criteria::parse(None, Some("[5,14]"), None).expect("range should parse");
    assert_eq!(c.offset, 5);
    assert_eq!(c.limit, 10);
}

#[test]
fn range_end_before_start_rejected() {
    assert_eq!(
        Criteria::parse(None, Some("[10,5]"), None),
        Err(ParseError::BadRange)
    );
    assert_eq!(parse_range("[10,5]"), Err(ParseError::BadRange));
}

#[test]
fn range_shapes() {
    assert_eq!(parse_range("[0,9]"), Ok((0, 9)));
    assert_eq!(parse_range(" [ 0 , 9 ] "), Ok((0, 9)));
    assert_eq!(parse_range("[-1,9]"), Err(ParseError::BadRange));
    assert_eq!(parse_range("[0,9,10]"), Err(ParseError::BadRange));
    assert_eq!(parse_range("[0]"), Err(ParseError::BadRange));
    assert_eq!(parse_range("[0,\"9\"]"), Err(ParseError::BadRange));
    assert_eq!(parse_range("0,9"), Err(ParseError::MalformedJson));
    assert_eq!(parse_range("[0,9"), Err(ParseError::MalformedJson));
    assert_eq!(parse_range("[01,9]"), Err(ParseError::MalformedJson));
}

#[test]
fn defaults_when_absent() {
    let c = Criteria::parse(None, None, None).expect("no parameters is fine");
    assert_eq!(c.offset, 0);
    assert_eq!(c.limit, 10);
    assert!(c.name_like.is_none());
    assert!(c.time_lo.is_none());
    assert!(c.time_hi.is_none());
    assert_eq!(c.sort_field, SortField::UploadTime);
    assert_eq!(c.sort_dir, SortDir::Asc);
}

#[test]
fn sort_parses() {
    assert_eq!(parse_sort("[\"id\",\"ASC\"]"), Ok((SortField::Id, SortDir::Asc)));
    assert_eq!(
        parse_sort("[\"uploadTime\",\"DESC\"]"),
        Ok((SortField::UploadTime, SortDir::Desc))
    );
    assert_eq!(parse_sort("[\"size\",\"ASC\"]"), Ok((SortField::Size, SortDir::Asc)));
    assert_eq!(parse_sort("[\"name\",\"ASC\"]"), Err(ParseError::BadSort));
    assert_eq!(parse_sort("[\"id\",\"asc\"]"), Err(ParseError::BadSort));
    assert_eq!(parse_sort("[\"id\"]"), Err(ParseError::BadSort));
}

#[test]
fn filter_parses() {
    let f = parse_filter("{\"name\":\"1\",\"upload_begin\":\"2022-06-16\"}")
        .expect("filter should parse");
    assert_eq!(f.name.as_deref(), Some("1"));
    assert_eq!(f.upload_begin.as_deref(), Some("2022-06-16"));
    assert!(f.upload_end.is_none());

    let f = parse_filter("{}").expect("empty object is fine");
    assert!(f.name.is_none());

    let f = parse_filter("{\"name\":null}").expect("null clears the name");
    assert!(f.name.is_none());

    let f = parse_filter("{\"unknown\":3,\"name\":\"x\"}").expect("unknown keys are ignored");
    assert_eq!(f.name.as_deref(), Some("x"));

    assert_eq!(
        parse_filter("{\"name\":3}"),
        Err(ParseError::MalformedJson)
    );
    assert_eq!(
        parse_filter("{\"name\":\"a\",\"name\":\"b\"}"),
        Err(ParseError::MalformedJson)
    );
    assert_eq!(parse_filter("[1,2]"), Err(ParseError::MalformedJson));
}

#[test]
fn criteria_with_dates() {
    let c = Criteria::parse(
        Some("{\"upload_begin\":\"2022-06-16\",\"upload_end\":\"2022-06-17\"}"),
        None,
        None,
    )
    .expect("dates should parse");
    // 2022-06-16 is 19159 days after the epoch
    assert_eq!(c.time_lo, Some(19159 * 86400));
    assert_eq!(c.time_hi, Some(19160 * 86400 + 86399));

    assert_eq!(
        Criteria::parse(Some("{\"upload_begin\":\"2022-13-01\"}"), None, None),
        Err(ParseError::BadDate)
    );
    assert_eq!(
        Criteria::parse(Some("{\"upload_begin\":\"2022-6-16\"}"), None, None),
        Err(ParseError::BadDate)
    );
}

#[test]
fn date_validity() {
    let chars = |s: &str| str_chars(s);
    assert_eq!(parse_date(&chars("2022-06-16")), Some((2022, 6, 16)));
    assert_eq!(parse_date(&chars("2020-02-29")), Some((2020, 2, 29)));
    assert_eq!(parse_date(&chars("2022-02-29")), None);
    assert_eq!(parse_date(&chars("1900-02-29")), None);
    assert_eq!(parse_date(&chars("2000-02-29")), Some((2000, 2, 29)));
    assert_eq!(parse_date(&chars("2022-04-31")), None);
    assert_eq!(parse_date(&chars("0000-01-01")), None);
    assert_eq!(parse_date(&chars("2022/06/16")), None);
}

#[test]
fn day_bounds() {
    // the epoch itself
    assert_eq!(day_start(1970, 1, 1), 0);
    assert_eq!(day_end(1970, 1, 1), 86399);
    // the example date of the service
    assert_eq!(day_start(2022, 6, 16), 1655337600);
    assert_eq!(day_end(2022, 6, 16), 1655423999);
    // before the epoch
    assert_eq!(day_start(1969, 12, 31), -86400);
}

#[test]
fn id_filter_parses() {
    let ids = Id::parse("{\"id\":[3,4]}").expect("id filter should parse");
    assert_eq!(ids.id, vec![3, 4]);

    let ids = Id::parse("{\"id\":[]}").expect("empty list is fine");
    assert!(ids.id.is_empty());

    assert_eq!(Id::parse("{}"), Err(ParseError::MalformedJson));
    assert_eq!(Id::parse("{\"id\":3}"), Err(ParseError::MalformedJson));
    assert_eq!(
        Id::parse("{\"id\":[3,\"4\"]}"),
        Err(ParseError::MalformedJson)
    );
    assert_eq!(
        Id::parse("{\"id\":[3000000000]}"),
        Err(ParseError::MalformedJson)
    );
}

#[test]
fn filter_strings_know_json_escapes() {
    let f = parse_filter("{\"name\":\"\\u0041b\\tc\\\"d\\\\e\"}").expect("escapes should parse");
    assert_eq!(f.name.as_deref(), Some("Ab\tc\"d\\e"));

    // a surrogate pair denotes one character beyond the basic plane
    let f = parse_filter("{\"name\":\"\\uD83E\\uDD80\"}").expect("surrogate pair should parse");
    assert_eq!(f.name.as_deref(), Some("\u{1F980}"));

    // a lone surrogate is not a character
    assert_eq!(
        parse_filter("{\"name\":\"\\uD83E\"}"),
        Err(ParseError::MalformedJson)
    );
}

#[test]
fn integers_must_fit() {
    assert_eq!(
        parse_range("[0,99999999999999999999]"),
        Err(ParseError::MalformedJson)
    );
    assert_eq!(parse_range("[0,9223372036854775807]"), Ok((0, 9223372036854775807)));
}
