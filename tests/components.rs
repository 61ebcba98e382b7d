use icalendar::{
    date_time_of_parts, CalendarDateTime, Class, DatePerhapsTime, Event, FormatError, NaiveDate,
    NaiveDateTime, Todo, Venue,
};

fn floating(dt: NaiveDateTime) -> DatePerhapsTime {
    DatePerhapsTime::DateTime(CalendarDateTime::Floating(dt))
}

fn utc(dt: NaiveDateTime) -> DatePerhapsTime {
    DatePerhapsTime::DateTime(CalendarDateTime::Utc(dt))
}

#[test]
fn get_properties_unset() {
    let event = Event::new();
    assert_eq!(event.get_priority(), None);
    assert_eq!(event.get_summary(), None);
    assert_eq!(event.get_description(), None);
    assert_eq!(event.get_location(), None);
    assert_eq!(event.get_uid(), None);
    assert_eq!(event.get_class(), None);
    assert_eq!(event.get_timestamp(), None);
    assert_eq!(event.get_url(), None);
}

#[test]
fn get_properties_set() {
    let event = Event::new()
        .priority(5)
        .summary("summary")
        .description("description")
        .location("location")
        .uid("uid")
        .class(Class::Private)
        .url("http://some.test/url")
        .done();
    assert_eq!(event.get_priority(), Some(5));
    assert_eq!(event.get_summary(), Some("summary"));
    assert_eq!(event.get_description(), Some("description"));
    assert_eq!(event.get_location(), Some("location"));
    assert_eq!(event.get_uid(), Some("uid"));
    assert_eq!(event.get_class(), Some(Class::Private));
    assert_eq!(event.get_url(), Some("http://some.test/url"));
}

#[test]
fn get_date_times_naive() {
    let naive_date_time = NaiveDate::from_ymd(2001, 3, 13).and_hms(14, 15, 16);
    let event = Event::new()
        .starts(floating(naive_date_time))
        .ends(floating(naive_date_time))
        .done();
    assert_eq!(event.get_start(), Some(floating(naive_date_time)));
    assert_eq!(event.get_end(), Some(floating(naive_date_time)));
}

#[test]
fn get_date_times_utc() {
    let utc_date_time = NaiveDate::from_ymd(2001, 3, 13).and_hms(14, 15, 16);
    let event = Event::new()
        .timestamp(utc_date_time)
        .starts(utc(utc_date_time))
        .ends(utc(utc_date_time))
        .done();
    assert_eq!(event.get_timestamp(), Some(utc_date_time));
    assert_eq!(event.get_start(), Some(utc(utc_date_time)));
    assert_eq!(event.get_end(), Some(utc(utc_date_time)));
}

#[test]
fn get_date_times_tzid() {
    let date_time = NaiveDate::from_ymd(2001, 3, 13).and_hms(14, 15, 16);
    let date_time_tzid = CalendarDateTime::WithTimezone {
        date_time,
        tzid: "Pacific/Auckland".to_string(),
    };
    let event = Event::new()
        .starts(DatePerhapsTime::DateTime(date_time_tzid.clone()))
        .ends(DatePerhapsTime::DateTime(date_time_tzid.clone()))
        .done();
    assert_eq!(
        event.get_start(),
        Some(DatePerhapsTime::DateTime(date_time_tzid.clone()))
    );
    assert_eq!(event.get_end(), Some(DatePerhapsTime::DateTime(date_time_tzid)));
}

#[test]
fn get_dates_naive() {
    let naive_date = NaiveDate::from_ymd(2001, 3, 13);
    let event = Event::new()
        .starts(DatePerhapsTime::Date(naive_date))
        .ends(DatePerhapsTime::Date(naive_date))
        .done();
    assert_eq!(event.get_start(), Some(DatePerhapsTime::Date(naive_date)));
    assert_eq!(event.get_end(), Some(DatePerhapsTime::Date(naive_date)));
}

#[test]
fn date_values_round_trip_through_properties() {
    let dt = NaiveDate::from_ymd(2024, 2, 29).and_hms(23, 59, 58);
    let values = vec![
        DatePerhapsTime::Date(NaiveDate::from_ymd(2024, 2, 29)),
        floating(dt),
        utc(dt),
        DatePerhapsTime::DateTime(CalendarDateTime::WithTimezone {
            date_time: dt,
            tzid: "Europe/Berlin".to_string(),
        }),
    ];
    for v in values {
        let p = v.to_property("DTSTART");
        assert_eq!(DatePerhapsTime::from_property(&p), Some(v));
    }
}

#[test]
fn date_encodings_are_exact() {
    let dt = NaiveDate::from_ymd(2001, 3, 13).and_hms(4, 5, 6);
    let p = DatePerhapsTime::Date(NaiveDate::from_ymd(2001, 3, 13)).to_property("DTSTART");
    assert_eq!(p.value(), "20010313");
    assert_eq!(p.params.len(), 1);
    assert_eq!(p.params[0].key, "VALUE");
    assert_eq!(p.params[0].val, "DATE");
    assert_eq!(floating(dt).to_property("X").value(), "20010313T040506");
    assert_eq!(utc(dt).to_property("X").value(), "20010313T040506Z");
    let zoned = DatePerhapsTime::DateTime(CalendarDateTime::WithTimezone {
        date_time: dt,
        tzid: "Pacific/Auckland".to_string(),
    })
    .to_property("X");
    assert_eq!(zoned.value(), "20010313T040506");
    assert_eq!(zoned.params[0].key, "TZID");
    assert_eq!(zoned.params[0].val, "Pacific/Auckland");
}

#[test]
fn malformed_dates_read_as_unset() {
    let event = Event::new()
        .add_property("DTSTART", "20010230T000000")
        .add_property("DTEND", "not a date")
        .add_property("DTSTAMP", "20010313T250000Z");
    assert_eq!(event.get_start(), None);
    assert_eq!(event.get_end(), None);
    assert_eq!(event.get_timestamp(), None);
    assert_eq!(NaiveDate::from_ymd_opt(2023, 2, 29), None);
    assert_eq!(NaiveDate::from_ymd_opt(2000, 2, 29), Some(NaiveDate::from_ymd(2000, 2, 29)));
    assert_eq!(NaiveDate::from_ymd_opt(1900, 2, 29), None);
    assert_eq!(NaiveDate::from_ymd_opt(2023, 4, 31), None);
}

#[test]
fn priority_is_clamped_to_ten() {
    for (p, expected) in [(0u32, 0u32), (7, 7), (10, 10), (11, 10), (u32::MAX, 10)] {
        let event = Event::new().priority(p);
        assert_eq!(event.get_priority(), Some(expected));
    }
    let event = Event::new().priority(42);
    assert_eq!(event.properties()[0].value(), "10");
    let event = Event::new().add_property("PRIORITY", "11");
    assert_eq!(event.get_priority(), None);
    let event = Event::new().add_property("PRIORITY", "high");
    assert_eq!(event.get_priority(), None);
}

#[test]
fn same_key_twice_keeps_the_second() {
    let event = Event::new().summary("first").summary("second");
    let summaries: Vec<_> = event
        .properties()
        .iter()
        .filter(|p| p.key() == "SUMMARY")
        .collect();
    assert_eq!(summaries.len(), 1);
    assert_eq!(event.get_summary(), Some("second"));
}

#[test]
fn properties_are_ordered_by_key() {
    let event = Event::new()
        .url("u")
        .summary("s")
        .add_property("A", "a")
        .description("d");
    let keys: Vec<&str> = event.properties().iter().map(|p| p.key()).collect();
    assert_eq!(keys, vec!["A", "DESCRIPTION", "SUMMARY", "URL"]);
}

#[test]
fn two_exdates_are_both_kept_in_order() {
    let a = NaiveDate::from_ymd(2024, 1, 1);
    let b = NaiveDate::from_ymd(2023, 12, 25).and_hms(9, 0, 0);
    let event = Event::new()
        .exdate(DatePerhapsTime::Date(a))
        .exdate(utc(b));
    assert_eq!(event.get_exdates(), vec![DatePerhapsTime::Date(a), utc(b)]);
    let now = NaiveDate::from_ymd(2024, 5, 1).and_hms(0, 0, 0);
    let text = event.render(&now, "id");
    let exdate_lines: Vec<&str> = text.split("\r\n").filter(|l| l.starts_with("EXDATE")).collect();
    assert_eq!(
        exdate_lines,
        vec!["EXDATE;VALUE=DATE:20240101", "EXDATE:20231225T090000Z"]
    );
}

#[test]
fn class_round_trips_and_unknown_reads_as_unset() {
    for c in [Class::Public, Class::Private, Class::Confidential] {
        assert_eq!(Event::new().class(c).get_class(), Some(c));
    }
    assert_eq!(Event::new().add_property("CLASS", "SECRET").get_class(), None);
    assert_eq!(Event::new().class(Class::Confidential).properties()[0].value(), "CONFIDENTIAL");
}

#[test]
fn synthesized_uid_and_stamp_appear_once_in_place() {
    let now = NaiveDate::from_ymd(2024, 5, 1).and_hms(12, 0, 0);
    let text = Event::new().summary("s").add_multi_property("X-M", "m").render(&now, "gen-id");
    assert_eq!(
        text,
        "BEGIN:VEVENT\r\nDTSTAMP:20240501T120000Z\r\nSUMMARY:s\r\nUID:gen-id\r\nX-M:m\r\nEND:VEVENT\r\n"
    );
    let explicit = Event::new().uid("mine").timestamp(now).render(&now, "gen-id");
    assert_eq!(
        explicit,
        "BEGIN:VEVENT\r\nDTSTAMP:20240501T120000Z\r\nUID:mine\r\nEND:VEVENT\r\n"
    );
}

#[test]
fn launch_event_end_to_end() {
    let start = NaiveDate::from_ymd(2024, 1, 1).and_hms(10, 0, 0);
    let end = NaiveDate::from_ymd(2024, 1, 1).and_hms(11, 0, 0);
    let event = Event::new().summary("Launch").starts(utc(start)).ends(utc(end)).done();
    let text = event.try_into_string().unwrap();
    let lines: Vec<&str> = text.split("\r\n").collect();
    assert_eq!(lines[0], "BEGIN:VEVENT");
    assert!(lines[1].starts_with("DTSTAMP:"));
    assert!(lines[1].ends_with('Z'));
    assert_eq!(lines[2], "DTEND:20240101T110000Z");
    assert_eq!(lines[3], "DTSTART:20240101T100000Z");
    assert_eq!(lines[4], "SUMMARY:Launch");
    assert!(lines[5].starts_with("UID:"));
    assert_eq!(lines[5].len(), 4 + 36);
    assert_eq!(lines[6], "END:VEVENT");
    assert_eq!(lines[7], "");
    assert_eq!(lines.len(), 8);
    assert_eq!(lines.iter().filter(|l| l.starts_with("UID")).count(), 1);
    assert_eq!(lines.iter().filter(|l| l.starts_with("DTSTAMP")).count(), 1);
    assert!(text.ends_with("\r\n"));
}

#[test]
fn fresh_uids_differ() {
    let a = Event::new().try_into_string().unwrap();
    let b = Event::new().try_into_string().unwrap();
    let uid = |t: &str| t.split("\r\n").find(|l| l.starts_with("UID:")).unwrap().to_string();
    assert_ne!(uid(&a), uid(&b));
}

#[test]
fn done_moves_out_and_resets() {
    let mut builder = Todo::new().summary("task");
    let finished = builder.done();
    assert_eq!(finished.get_summary(), Some("task"));
    assert_eq!(builder.get_summary(), None);
    assert!(builder.properties().is_empty());
}

#[test]
fn kinds_have_their_labels() {
    let now = NaiveDate::from_ymd(2024, 5, 1).and_hms(12, 0, 0);
    assert_eq!(Todo::new().component_kind(), "VTODO");
    assert_eq!(Venue::new().component_kind(), "VVENUE");
    assert_eq!(Event::new().component_kind(), "VEVENT");
    assert!(Venue::new().render(&now, "v").starts_with("BEGIN:VVENUE\r\n"));
    assert!(Todo::new().render(&now, "v").ends_with("END:VTODO\r\n"));
}

#[test]
fn venue_adds_a_parameter_to_location() {
    let now = NaiveDate::from_ymd(2024, 5, 1).and_hms(12, 0, 0);
    let event = Event::new().uid("u").timestamp(now).venue("Main Hall", "venue-1");
    assert_eq!(event.get_location(), Some("Main Hall"));
    assert_eq!(
        event.render(&now, "x"),
        "BEGIN:VEVENT\r\nDTSTAMP:20240501T120000Z\r\nLOCATION;VVENUE=venue-1:Main Hall\r\nUID:u\r\nEND:VEVENT\r\n"
    );
}

#[test]
fn all_day_sets_start_and_end_dates() {
    let d = NaiveDate::from_ymd(2024, 7, 4);
    let event = Event::new().all_day(d);
    assert_eq!(event.get_start(), Some(DatePerhapsTime::Date(d)));
    assert_eq!(event.get_end(), Some(DatePerhapsTime::Date(d)));
}

#[test]
fn recurrence_id_reads_back() {
    let dt = NaiveDate::from_ymd(2024, 7, 4).and_hms(8, 30, 0);
    let event = Event::new().recurrence_id(floating(dt));
    assert_eq!(event.get_recurrence_id(), Some(floating(dt)));
}

#[test]
fn stored_priority_with_plus_sign_reads_back() {
    let event = Event::new().add_property("PRIORITY", "+5");
    assert_eq!(event.get_priority(), Some(5));
}

#[test]
fn launch_event_with_injected_clock_and_uid() {
    let start = NaiveDate::from_ymd(2024, 1, 1).and_hms(10, 0, 0);
    let end = NaiveDate::from_ymd(2024, 1, 1).and_hms(11, 0, 0);
    let event = Event::new().summary("Launch").starts(utc(start)).ends(utc(end)).done();
    assert_eq!(
        event.write_at((2024, 3, 5, 6, 7, 8), "id-1"),
        Ok("BEGIN:VEVENT\r\nDTSTAMP:20240305T060708Z\r\nDTEND:20240101T110000Z\r\nDTSTART:20240101T100000Z\r\nSUMMARY:Launch\r\nUID:id-1\r\nEND:VEVENT\r\n".to_string())
    );
}

#[test]
fn clock_year_beyond_four_digits_is_an_error() {
    let event = Event::new().summary("s");
    assert_eq!(
        event.write_at((10000, 1, 1, 0, 0, 0), "id"),
        Err(FormatError::ClockOutOfRange)
    );
    assert_eq!(
        event.write_at((-1, 1, 1, 0, 0, 0), "id"),
        Err(FormatError::ClockOutOfRange)
    );
}

#[test]
fn clock_parts_become_a_date_time() {
    assert_eq!(
        date_time_of_parts((2024, 2, 29, 23, 59, 59)),
        Some(NaiveDate::from_ymd(2024, 2, 29).and_hms(23, 59, 59))
    );
    assert_eq!(date_time_of_parts((2023, 2, 29, 0, 0, 0)), None);
    assert_eq!(date_time_of_parts((2023, 1, 1, 24, 0, 0)), None);
    assert_eq!(date_time_of_parts((2023, 1, 1, 0, 60, 0)), None);
    assert_eq!(date_time_of_parts((2023, 1, 1, 0, 0, 60)), None);
}

#[test]
fn generated_uid_is_hyphenated_hex() {
    let text = Event::new().try_into_string().unwrap();
    let uid = text.split("\r\n").find(|l| l.starts_with("UID:")).unwrap();
    let id = &uid[4..];
    assert_eq!(id.len(), 36);
    assert!(id.chars().all(|c| c.is_ascii_digit() || ('a'..='f').contains(&c) || c == '-'));
}

#[test]
fn stored_stamp_and_uid_make_the_clock_irrelevant() {
    let now = NaiveDate::from_ymd(2024, 5, 1).and_hms(12, 0, 0);
    let event = Event::new().uid("mine").timestamp(now).summary("s");
    let expected =
        "BEGIN:VEVENT\r\nDTSTAMP:20240501T120000Z\r\nSUMMARY:s\r\nUID:mine\r\nEND:VEVENT\r\n";
    assert_eq!(event.write_at((10000, 1, 1, 0, 0, 0), "x"), Ok(expected.to_string()));
    assert_eq!(event.write_at((2024, 1, 1, 0, 0, 0), "y"), Ok(expected.to_string()));
    assert_eq!(event.try_into_string(), Ok(expected.to_string()));
}
