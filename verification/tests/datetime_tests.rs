use remores_dl::datetime::{parse_slot, SlotTime};

#[test]
fn parses_a_plain_slot() {
    let st = parse_slot("24-03-15", "10:05").unwrap();
    assert_eq!(
        st,
        SlotTime { year: 2024, month: 3, day: 15, hour: 10, minute: 5 }
    );
}

#[test]
fn two_digit_years_split_at_sixty_nine() {
    assert_eq!(parse_slot("68-01-01", "00:00").unwrap().year, 2068);
    assert_eq!(parse_slot("69-01-01", "00:00").unwrap().year, 1969);
    assert_eq!(parse_slot("99-12-31", "23:59").unwrap().year, 1999);
    assert_eq!(parse_slot("00-06-30", "12:30").unwrap().year, 2000);
}

#[test]
fn rejects_calendar_nonsense() {
    assert!(parse_slot("23-02-30", "10:00").is_none()); // no Feb 30
    assert!(parse_slot("23-02-29", "10:00").is_none()); // 2023 not leap
    assert!(parse_slot("24-02-29", "10:00").is_some()); // 2024 leap
    assert!(parse_slot("00-02-29", "10:00").is_some()); // 2000 leap
    assert!(parse_slot("23-13-01", "10:00").is_none()); // month 13
    assert!(parse_slot("23-00-01", "10:00").is_none()); // month 0
    assert!(parse_slot("23-04-31", "10:00").is_none()); // April has 30 days
    assert!(parse_slot("23-04-00", "10:00").is_none()); // day 0
}

#[test]
fn rejects_bad_shapes() {
    assert!(parse_slot("2023-02-01", "10:00").is_none());
    assert!(parse_slot("23-02-01", "10.00").is_none());
    assert!(parse_slot("23/02/01", "10:00").is_none());
    assert!(parse_slot("23-02-01", "24:00").is_none());
    assert!(parse_slot("23-02-01", "10:60").is_none());
    assert!(parse_slot("23-02-01", " 9:00").is_none());
    assert!(parse_slot("", "").is_none());
}

#[test]
fn compact_rendering_pads_fields() {
    let st = SlotTime { year: 2024, month: 3, day: 5, hour: 9, minute: 7 };
    assert_eq!(st.compact(), "202403050907");
}
