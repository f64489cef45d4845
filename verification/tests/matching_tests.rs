use remores_dl::canvas::{match_bookings, Submission, User};
use remores_dl::datetime::SlotTime;
use remores_dl::remores::{Booking, Email};

fn slot() -> SlotTime {
    SlotTime { year: 2024, month: 3, day: 15, hour: 10, minute: 0 }
}

fn booking(name: &str, email: Email) -> Booking {
    Booking { time: slot(), name: name.to_string(), email }
}

fn submission(id: u64, name: &str, email: &str) -> Submission {
    Submission {
        id,
        user: User { name: name.to_string(), email: email.to_string() },
        attachments: None,
    }
}

#[test]
fn exact_email_match_wins_over_similarity() {
    let bookings = vec![booking("Zzz Qqq", Email::KTHEmail("bob@kth.se".to_string()))];
    let subs = vec![
        submission(1, "Zzz Qqq", "other@kth.se"),
        submission(2, "Totally Different", "bob@kth.se"),
    ];
    let r = match_bookings(&bookings, &subs);
    assert_eq!(r, vec![Some(1)]);
}

#[test]
fn fuzzy_prefers_exact_spelling() {
    let bookings = vec![booking("Anna Svensson", Email::KTHEmail("anna@kth.se".to_string()))];
    let subs = vec![
        submission(1, "Anna Svenson", "x1@kth.se"),
        submission(2, "Anna Svensson", "x2@kth.se"),
    ];
    let r = match_bookings(&bookings, &subs);
    assert_eq!(r, vec![Some(1)]);
}

#[test]
fn fuzzy_below_threshold_leaves_unmatched_and_consumes() {
    let bookings = vec![
        booking("Qwerty Uiop", Email::OtherEmail("q@x.com".to_string())),
        booking("Qwerty Uiop", Email::OtherEmail("q2@x.com".to_string())),
    ];
    let subs = vec![submission(1, "Zzzzzz Xxxxxx", "z@x.com")];
    let r = match_bookings(&bookings, &subs);
    // the only submission is drawn (and discarded) for the first booking,
    // so the second finds an empty pool
    assert_eq!(r, vec![None, None]);
}

#[test]
fn exact_match_does_not_consume_the_submission() {
    let bookings = vec![
        booking("Anna Svensson", Email::KTHEmail("anna@kth.se".to_string())),
        booking("Anna Svensson", Email::OtherEmail("nope@gmail.com".to_string())),
    ];
    let subs = vec![submission(7, "Anna Svensson", "anna@kth.se")];
    let r = match_bookings(&bookings, &subs);
    // the first booking matches exactly and leaves the pool alone; the
    // second then draws the same submission through the fuzzy path
    assert_eq!(r, vec![Some(0), Some(0)]);
}

#[test]
fn total_mapping_with_empty_submissions() {
    let bookings = vec![
        booking("A B", Email::OtherEmail("a@x.com".to_string())),
        booking("C D", Email::OtherEmail("c@x.com".to_string())),
        booking("E F", Email::OtherEmail("e@x.com".to_string())),
    ];
    let subs: Vec<Submission> = vec![];
    let r = match_bookings(&bookings, &subs);
    assert_eq!(r.len(), 3);
    assert!(r.iter().all(|m| m.is_none()));
}

#[test]
fn similarity_tie_resolved_by_smaller_id() {
    let bookings = vec![booking("Anna Svensson", Email::OtherEmail("a@x.com".to_string()))];
    let subs = vec![
        submission(9, "Anna Svensson", "s9@x.com"),
        submission(3, "Anna Svensson", "s3@x.com"),
    ];
    let r = match_bookings(&bookings, &subs);
    assert_eq!(r, vec![Some(1)]);
}

#[test]
fn other_email_booking_can_match_exactly() {
    let bookings = vec![booking("Whoever", Email::OtherEmail("bob@gmail.com".to_string()))];
    let subs = vec![submission(1, "Nobody Alike", "bob@gmail.com")];
    let r = match_bookings(&bookings, &subs);
    assert_eq!(r, vec![Some(0)]);
}

#[test]
fn mismatched_tag_is_not_an_exact_match() {
    // a booking hand-built with an institutional tag on a non-institutional
    // address never matches that raw address exactly
    let bookings = vec![booking("Nobody Alike", Email::KTHEmail("bob@gmail.com".to_string()))];
    let subs = vec![submission(1, "Zzz Different", "bob@gmail.com")];
    let r = match_bookings(&bookings, &subs);
    assert_eq!(r, vec![None]);
}

#[test]
fn classification_follows_the_domain_suffix() {
    assert!(matches!(
        Email::classify("bob@kth.se".to_string()),
        Email::KTHEmail(s) if s == "bob@kth.se"
    ));
    assert!(matches!(
        Email::classify("bob@gmail.com".to_string()),
        Email::OtherEmail(s) if s == "bob@gmail.com"
    ));
    assert!(matches!(
        Email::classify("bob@kth.se.evil.com".to_string()),
        Email::OtherEmail(_)
    ));
}
