use icalendar::{format_utc_date_time, parse_priority, parse_utc_date_time, NaiveDate, Parameter, Property};

fn line(p: &Property) -> String {
    let mut out: Vec<char> = Vec::new();
    p.write_line(&mut out);
    out.into_iter().collect()
}

#[test]
fn property_line_plain() {
    assert_eq!(line(&Property::new("SUMMARY", "Hello")), "SUMMARY:Hello\r\n");
}

#[test]
fn property_value_is_escaped() {
    let p = Property::new("DESCRIPTION", "a,b;c\\d\ne");
    assert_eq!(p.value(), "a,b;c\\d\ne");
    assert_eq!(line(&p), "DESCRIPTION:a\\,b\\;c\\\\d\\ne\r\n");
}

#[test]
fn parameters_kept_in_order_with_duplicates() {
    let p = Property::new("ATTENDEE", "mailto:x@y.z")
        .append_parameter(Parameter::new("ROLE", "CHAIR"))
        .append_parameter(Parameter::new("ROLE", "OPT"))
        .append_parameter(Parameter::new("CN", "Doe, Jane"));
    assert_eq!(p.params.len(), 3);
    assert_eq!(line(&p), "ATTENDEE;ROLE=CHAIR;ROLE=OPT;CN=\"Doe, Jane\":mailto:x@y.z\r\n");
}

#[test]
fn utc_text_both_ways() {
    let dt = NaiveDate::from_ymd(999, 12, 31).and_hms(0, 1, 2);
    assert_eq!(format_utc_date_time(&dt), "09991231T000102Z");
    assert_eq!(parse_utc_date_time("09991231T000102Z"), Some(dt));
    assert_eq!(parse_utc_date_time("09991231T000102"), None);
    assert_eq!(parse_utc_date_time("0999123xT000102Z"), None);
}

#[test]
fn priority_text() {
    assert_eq!(parse_priority("0"), Some(0));
    assert_eq!(parse_priority("007"), Some(7));
    assert_eq!(parse_priority("10"), Some(10));
    assert_eq!(parse_priority("99999999999999999999"), None);
    assert_eq!(parse_priority(""), None);
    assert_eq!(parse_priority("-1"), None);
    assert_eq!(parse_priority("+5"), Some(5));
    assert_eq!(parse_priority("+10"), Some(10));
    assert_eq!(parse_priority("+11"), None);
    assert_eq!(parse_priority("+"), None);
    assert_eq!(parse_priority("++5"), None);
}

#[test]
fn parameter_values_are_caret_escaped() {
    let p = Property::new("X-NOTE", "v")
        .append_parameter(Parameter::new("CN", "say \"hi\"\nnow ^ then"))
        .append_parameter(Parameter::new("ALT", "a:\"b\""));
    assert_eq!(
        line(&p),
        "X-NOTE;CN=say ^'hi^'^nnow ^^ then;ALT=\"a:^'b^'\":v\r\n"
    );
    assert!(!line(&p).trim_end_matches("\r\n").contains('\n'));
}
