use remores_dl::dom::{DomNode, NodeData, Attr};
use remores_dl::remores::{
    bookings_from_page, extract_bookings, sublists_from_overview, Email, ExtractError,
};

fn element(name: &str, attrs: Vec<(&str, &str)>, children: Vec<usize>) -> DomNode {
    DomNode {
        data: NodeData::Element {
            name: name.to_string(),
            attrs: attrs
                .into_iter()
                .map(|(k, v)| Attr { name: k.to_string(), value: v.to_string() })
                .collect(),
        },
        children,
    }
}

fn text(s: &str, children: Vec<usize>) -> DomNode {
    DomNode { data: NodeData::Text { text: s.to_string() }, children }
}

/// One container whose children reproduce the reservation-view template:
/// a `<br>`, a filler, the date holder, then per row: the time holder, a
/// filler, the reservation input, the name text, and the email holder.
fn reservation_arena() -> Vec<DomNode> {
    vec![
        // 0: container
        DomNode { data: NodeData::Other, children: vec![1, 2, 3, 5, 7, 8, 9, 10] },
        // 1: <br>
        element("br", vec![], vec![]),
        // 2: filler between br and the date holder
        DomNode { data: NodeData::Other, children: vec![] },
        // 3: date holder -> 4: date text
        element("b", vec![], vec![4]),
        text(" 24-03-15 ", vec![]),
        // 5: time holder -> 6: time text
        element("i", vec![], vec![6]),
        text("10:00", vec![]),
        // 7: filler between the time holder and the input
        DomNode { data: NodeData::Other, children: vec![] },
        // 8: the reservation input
        element("input", vec![("name", "reservation"), ("value", "r1")], vec![]),
        // 9: the name text
        text("Anna Svensson (", vec![]),
        // 10: email holder -> 11 -> 12: email text
        element("span", vec![], vec![11]),
        element("u", vec![], vec![12]),
        text("bob@kth.se", vec![]),
    ]
}

#[test]
fn arena_row_extracts_one_booking() {
    let t = reservation_arena();
    let bookings = extract_bookings(&t).unwrap();
    assert_eq!(bookings.len(), 1);
    let b = &bookings[0];
    assert_eq!(b.name, "Anna Svensson");
    assert_eq!(b.time.year, 2024);
    assert_eq!(b.time.month, 3);
    assert_eq!(b.time.day, 15);
    assert_eq!(b.time.hour, 10);
    assert_eq!(b.time.minute, 0);
    match &b.email {
        Email::KTHEmail(s) => assert_eq!(s, "bob@kth.se"),
        Email::OtherEmail(_) => panic!("expected an institutional email"),
    }
}

#[test]
fn arena_without_br_fails_with_no_date() {
    let mut t = reservation_arena();
    t[1] = element("hr", vec![], vec![]);
    assert_eq!(extract_bookings(&t).unwrap_err(), ExtractError::NoDate);
}

#[test]
fn date_line_with_no_break_spaces_still_parses() {
    let mut t = reservation_arena();
    t[4] = text("\u{a0}24-03-15\u{a0}", vec![]);
    let bookings = extract_bookings(&t).unwrap();
    assert_eq!(bookings.len(), 1);
    assert_eq!(
        (bookings[0].time.year, bookings[0].time.month, bookings[0].time.day),
        (2024, 3, 15)
    );
}

#[test]
fn arena_with_garbled_date_fails_with_bad_datetime() {
    let mut t = reservation_arena();
    t[4] = text("not a date", vec![]);
    assert_eq!(extract_bookings(&t).unwrap_err(), ExtractError::BadDateTime);
}

#[test]
fn arena_with_missing_email_fails_loudly() {
    let mut t = reservation_arena();
    // the email holder loses its nested structure
    t[10] = element("span", vec![], vec![]);
    assert_eq!(extract_bookings(&t).unwrap_err(), ExtractError::NoEmail);
}

#[test]
fn html_fixture_round_trips_two_rows() {
    let html = "<br><!--x--><b> 24-03-15 </b><i>10:00</i><!--a--><input name=\"reservation\" value=\"r1\">Anna Svensson (<span><u>bob@kth.se</u></span><i>11:30</i><!--b--><input name=\"reservation\" value=\"r2\">Bob Gren (<span><u>bob@gmail.com</u></span>";
    let bookings = bookings_from_page(html).unwrap();
    assert_eq!(bookings.len(), 2);

    assert_eq!(bookings[0].name, "Anna Svensson");
    assert_eq!(
        (bookings[0].time.year, bookings[0].time.month, bookings[0].time.day),
        (2024, 3, 15)
    );
    assert_eq!((bookings[0].time.hour, bookings[0].time.minute), (10, 0));
    assert!(matches!(&bookings[0].email, Email::KTHEmail(s) if s == "bob@kth.se"));

    assert_eq!(bookings[1].name, "Bob Gren");
    assert_eq!((bookings[1].time.hour, bookings[1].time.minute), (11, 30));
    assert!(matches!(&bookings[1].email, Email::OtherEmail(s) if s == "bob@gmail.com"));
}

#[test]
fn overview_collects_matching_input_values() {
    let html = "<input value=\"lab1-asalamon\"><input value=\"lab1-other\"><input type=\"submit\"><input value=\"lab2-asalamon\">";
    let lists = sublists_from_overview(html, "asalamon");
    assert_eq!(lists, vec!["lab1-asalamon".to_string(), "lab2-asalamon".to_string()]);
}
