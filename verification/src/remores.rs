//! Booking extraction from the reservation system's server-rendered pages.
//!
//! Two fixed markup shapes are handled: an overview page whose `<input>`
//! values identify the requester's sub-lists, and a reservation-view page
//! holding one date line and one `<input name="reservation">` per booked
//! slot, with the time, attendee name and email in fixed sibling positions
//! around it. A missing node anywhere is a hard extraction failure: a
//! malformed page signals an upstream template change.

use vstd::prelude::*;
use vstd::string::StrSliceExecFns;
use vstd::string::StringExecFns;
use crate::datetime::SlotTime;
use crate::datetime::slot_of;
use crate::datetime::parse_slot;
use crate::dom::DomNode;
use crate::dom::dom_of;
use crate::dom::parse_fragment_dom;
use crate::dom::is_element;
use crate::dom::attr_spec;
use crate::dom::text_spec;
use crate::dom::next_sibling_spec;
use crate::dom::prev_sibling_spec;
use crate::dom::first_child_spec;
use crate::dom::is_element_named;
use crate::dom::element_attr;
use crate::dom::text_of;
use crate::dom::next_sibling;
use crate::dom::prev_sibling;
use crate::dom::first_child;
use crate::strutil;

verus! {

/// The view of an email address: the raw address, tagged by whether it
/// ends with the institution's domain.
pub enum EmailView {
    KTH(Seq<char>),
    Other(Seq<char>),
}

/// An attendee's email address, classified once at extraction time.
#[derive(Debug)]
pub enum Email {
    KTHEmail(String),
    OtherEmail(String),
}

impl View for Email {
    type V = EmailView;

    open spec fn view(&self) -> EmailView {
        match self {
            Email::KTHEmail(s) => EmailView::KTH(s@),
            Email::OtherEmail(s) => EmailView::Other(s@),
        }
    }
}

pub open spec fn kth_suffix() -> Seq<char> {
    seq!['@', 'k', 't', 'h', '.', 's', 'e']
}

pub open spec fn is_kth_addr(s: Seq<char>) -> bool {
    strutil::ends_with_spec(s, kth_suffix())
}

/// The classification rule: the institutional tag holds exactly when the
/// raw address ends with the institutional domain suffix.
pub open spec fn classify_spec(s: Seq<char>) -> EmailView {
    if is_kth_addr(s) {
        EmailView::KTH(s)
    } else {
        EmailView::Other(s)
    }
}

impl Email {
    /// The raw address, whichever variant holds it.
    pub open spec fn raw_view(&self) -> Seq<char> {
        match self {
            Email::KTHEmail(s) => s@,
            Email::OtherEmail(s) => s@,
        }
    }

    /// The single classification constructor: tags `s` as institutional
    /// iff it ends with the institutional domain.
    pub fn classify(s: String) -> (r: Email)
        ensures
            r@ == classify_spec(s@),
    {
        proof {
            reveal_strlit("@kth.se");
            assert("@kth.se"@ =~= kth_suffix());
        }
        if strutil::str_ends_with(s.as_str(), "@kth.se") {
            Email::KTHEmail(s)
        } else {
            Email::OtherEmail(s)
        }
    }

    /// The raw address.
    pub fn raw(&self) -> (r: &String)
        ensures
            r@ == self.raw_view(),
    {
        match self {
            Email::KTHEmail(s) => s,
            Email::OtherEmail(s) => s,
        }
    }
}

/// The view of a booking.
pub struct BookingView {
    pub time: SlotTime,
    pub name: Seq<char>,
    pub email: EmailView,
}

/// One reserved slot: its wall-clock time, the attendee's display name
/// and classified email.
#[derive(Debug)]
pub struct Booking {
    pub time: SlotTime,
    pub name: String,
    pub email: Email,
}

impl View for Booking {
    type V = BookingView;

    open spec fn view(&self) -> BookingView {
        BookingView { time: self.time, name: self.name@, email: self.email@ }
    }
}

/// Why a reservation-view page failed to extract; each names the first
/// missing piece of the fixed template.
#[derive(Clone, Copy, PartialEq, Eq, Structural, Debug)]
pub enum ExtractError {
    NoDate,
    NoDateText,
    NoTime,
    NoName,
    NoNameText,
    NoEmail,
    NoEmailText,
    BadDateTime,
}

pub open spec fn br_name() -> Seq<char> {
    seq!['b', 'r']
}

pub open spec fn input_name() -> Seq<char> {
    seq!['i', 'n', 'p', 'u', 't']
}

pub open spec fn value_key() -> Seq<char> {
    seq!['v', 'a', 'l', 'u', 'e']
}

pub open spec fn name_key() -> Seq<char> {
    seq!['n', 'a', 'm', 'e']
}

pub open spec fn reservation_val() -> Seq<char> {
    seq!['r', 'e', 's', 'e', 'r', 'v', 'a', 't', 'i', 'o', 'n']
}

/// The first element named `name` at or after `i`, in document order.
pub open spec fn first_element_from(t: Seq<DomNode>, name: Seq<char>, i: int) -> Option<int>
    decreases t.len() - i,
{
    if i < 0 || i >= t.len() {
        None
    } else if is_element(t, i, name) {
        Some(i)
    } else {
        first_element_from(t, name, i + 1)
    }
}

/// The page's single date line: the text of the first child of the second
/// sibling after the first `<br>`, trimmed.
pub open spec fn date_text_spec(t: Seq<DomNode>) -> Result<Seq<char>, ExtractError> {
    match first_element_from(t, br_name(), 0) {
        None => Err(ExtractError::NoDate),
        Some(b) => match next_sibling_spec(t, b as usize) {
            None => Err(ExtractError::NoDate),
            Some(s1) => match next_sibling_spec(t, s1) {
                None => Err(ExtractError::NoDate),
                Some(s2) => match first_child_spec(t, s2) {
                    None => Err(ExtractError::NoDate),
                    Some(c) => match text_spec(t, c as int) {
                        None => Err(ExtractError::NoDateText),
                        Some(txt) => Ok(strutil::trim_spec(txt)),
                    },
                },
            },
        },
    }
}

/// The booking encoded around one reservation input at node `i`: the time
/// cell two siblings back, the attendee label just after, and the email
/// nested two levels into the following sibling.
pub open spec fn row_spec(t: Seq<DomNode>, i: int, date: Seq<char>) -> Result<
    BookingView,
    ExtractError,
> {
    let time_txt = match prev_sibling_spec(t, i as usize) {
        None => None,
        Some(p1) => match prev_sibling_spec(t, p1) {
            None => None,
            Some(p2) => match first_child_spec(t, p2) {
                None => None,
                Some(c) => text_spec(t, c as int),
            },
        },
    };
    match time_txt {
        None => Err(ExtractError::NoTime),
        Some(time) => match next_sibling_spec(t, i as usize) {
            None => Err(ExtractError::NoName),
            Some(name_node) => {
                let email_node = match next_sibling_spec(t, name_node) {
                    None => None,
                    Some(e1) => match first_child_spec(t, e1) {
                        None => None,
                        Some(e2) => first_child_spec(t, e2),
                    },
                };
                match email_node {
                    None => Err(ExtractError::NoEmail),
                    Some(en) => match text_spec(t, en as int) {
                        None => Err(ExtractError::NoEmailText),
                        Some(email_txt) => match text_spec(t, name_node as int) {
                            None => Err(ExtractError::NoNameText),
                            Some(name_txt) => match slot_of(date, time) {
                                None => Err(ExtractError::BadDateTime),
                                Some(st) => Ok(
                                    BookingView {
                                        time: st,
                                        name: strutil::strip_name_spec(name_txt),
                                        email: classify_spec(email_txt),
                                    },
                                ),
                            },
                        },
                    },
                }
            },
        },
    }
}

/// The reservation inputs at or after `i`, in document order.
pub open spec fn reservation_rows_from(t: Seq<DomNode>, i: int) -> Seq<int>
    decreases t.len() - i,
{
    if i < 0 || i >= t.len() {
        Seq::empty()
    } else {
        let rest = reservation_rows_from(t, i + 1);
        if is_element(t, i, input_name()) && attr_spec(t, i, name_key()) == Some(
            reservation_val(),
        ) {
            seq![i] + rest
        } else {
            rest
        }
    }
}

/// Extracting every row in order; the first failure aborts the page.
pub open spec fn rows_result(t: Seq<DomNode>, rows: Seq<int>, date: Seq<char>) -> Result<
    Seq<BookingView>,
    ExtractError,
>
    decreases rows.len(),
{
    if rows.len() == 0 {
        Ok(Seq::empty())
    } else {
        match row_spec(t, rows[0], date) {
            Err(e) => Err(e),
            Ok(b) => match rows_result(t, rows.drop_first(), date) {
                Err(e) => Err(e),
                Ok(rest) => Ok(seq![b] + rest),
            },
        }
    }
}

/// What extracting a reservation-view page yields: one booking per
/// reservation input, all sharing the page's date line, or the first
/// error met.
pub open spec fn extract_spec(t: Seq<DomNode>) -> Result<Seq<BookingView>, ExtractError> {
    match date_text_spec(t) {
        Err(e) => Err(e),
        Ok(date) => rows_result(t, reservation_rows_from(t, 0), date),
    }
}

fn find_first_element(t: &Vec<DomNode>, name: &str) -> (r: Option<usize>)
    ensures
        match r {
            Some(i) => first_element_from(t@, name@, 0) == Some(i as int) && i < t@.len(),
            None => first_element_from(t@, name@, 0) is None,
        },
{
    let mut i: usize = 0;
    while i < t.len()
        invariant
            i <= t@.len(),
            first_element_from(t@, name@, 0) == first_element_from(t@, name@, i as int),
        decreases t@.len() - i,
    {
        if is_element_named(t, i, name) {
            assert(first_element_from(t@, name@, i as int) == Some(i as int));
            return Some(i);
        }
        i += 1;
    }
    None
}

fn date_text<'a>(t: &'a Vec<DomNode>) -> (r: Result<&'a str, ExtractError>)
    ensures
        match r {
            Ok(s) => date_text_spec(t@) == Ok::<Seq<char>, ExtractError>(s@),
            Err(e) => date_text_spec(t@) == Err::<Seq<char>, ExtractError>(e),
        },
{
    proof {
        reveal_strlit("br");
        assert("br"@ =~= br_name());
    }
    let b = match find_first_element(t, "br") {
        Some(b) => b,
        None => {
            return Err(ExtractError::NoDate);
        },
    };
    let s1 = match next_sibling(t, b) {
        Some(x) => x,
        None => {
            return Err(ExtractError::NoDate);
        },
    };
    let s2 = match next_sibling(t, s1) {
        Some(x) => x,
        None => {
            return Err(ExtractError::NoDate);
        },
    };
    let c = match first_child(t, s2) {
        Some(x) => x,
        None => {
            return Err(ExtractError::NoDate);
        },
    };
    let txt = match text_of(t, c) {
        Some(x) => x,
        None => {
            return Err(ExtractError::NoDateText);
        },
    };
    Ok(strutil::trim_str(txt.as_str()))
}

fn extract_row(t: &Vec<DomNode>, i: usize, date: &str) -> (r: Result<Booking, ExtractError>)
    ensures
        match r {
            Ok(b) => row_spec(t@, i as int, date@) == Ok::<BookingView, ExtractError>(b@),
            Err(e) => row_spec(t@, i as int, date@) == Err::<BookingView, ExtractError>(e),
        },
{
    let time = {
        let p1 = match prev_sibling(t, i) {
            Some(x) => x,
            None => {
                return Err(ExtractError::NoTime);
            },
        };
        let p2 = match prev_sibling(t, p1) {
            Some(x) => x,
            None => {
                return Err(ExtractError::NoTime);
            },
        };
        let c = match first_child(t, p2) {
            Some(x) => x,
            None => {
                return Err(ExtractError::NoTime);
            },
        };
        match text_of(t, c) {
            Some(x) => x,
            None => {
                return Err(ExtractError::NoTime);
            },
        }
    };
    let name_node = match next_sibling(t, i) {
        Some(x) => x,
        None => {
            return Err(ExtractError::NoName);
        },
    };
    let en = {
        let e1 = match next_sibling(t, name_node) {
            Some(x) => x,
            None => {
                return Err(ExtractError::NoEmail);
            },
        };
        let e2 = match first_child(t, e1) {
            Some(x) => x,
            None => {
                return Err(ExtractError::NoEmail);
            },
        };
        match first_child(t, e2) {
            Some(x) => x,
            None => {
                return Err(ExtractError::NoEmail);
            },
        }
    };
    let email_txt = match text_of(t, en) {
        Some(x) => x,
        None => {
            return Err(ExtractError::NoEmailText);
        },
    };
    let name_txt = match text_of(t, name_node) {
        Some(x) => x,
        None => {
            return Err(ExtractError::NoNameText);
        },
    };
    let st = match parse_slot(date, time.as_str()) {
        Some(x) => x,
        None => {
            return Err(ExtractError::BadDateTime);
        },
    };
    let name = String::from_str(strutil::strip_name(name_txt.as_str()));
    let email = Email::classify(String::from_str(email_txt.as_str()));
    Ok(Booking { time: st, name, email })
}

/// Extracts every booking a reservation-view arena holds, in document
/// order; the first missing template piece fails the whole page.
pub fn extract_bookings(t: &Vec<DomNode>) -> (r: Result<Vec<Booking>, ExtractError>)
    ensures
        match r {
            Ok(v) => extract_spec(t@) is Ok && v@.map_values(|b: Booking| b@) == extract_spec(
                t@,
            )->Ok_0,
            Err(e) => extract_spec(t@) == Err::<Seq<BookingView>, ExtractError>(e),
        },
{
    proof {
        reveal_strlit("input");
        assert("input"@ =~= input_name());
        reveal_strlit("name");
        assert("name"@ =~= name_key());
        reveal_strlit("reservation");
        assert("reservation"@ =~= reservation_val());
    }
    let date = match date_text(t) {
        Ok(d) => d,
        Err(e) => {
            return Err(e);
        },
    };

    // collect the reservation inputs, in document order
    let mut rows: Vec<usize> = Vec::new();
    let mut i: usize = 0;
    while i < t.len()
        invariant
            i <= t@.len(),
            reservation_rows_from(t@, 0) == rows@.map_values(|x: usize| x as int)
                + reservation_rows_from(t@, i as int),
            forall|k: int| 0 <= k < rows@.len() ==> rows@[k] < t@.len(),
        decreases t@.len() - i,
    {
        let is_row = if is_element_named(t, i, "input") {
            match element_attr(t, i, "name") {
                Some(v) => strutil::str_eq(v.as_str(), "reservation"),
                None => false,
            }
        } else {
            false
        };
        proof {
            reveal_strlit("input");
            assert("input"@ =~= input_name());
            reveal_strlit("name");
            assert("name"@ =~= name_key());
            reveal_strlit("reservation");
            assert("reservation"@ =~= reservation_val());
        }
        if is_row {
            rows.push(i);
            proof {
                assert(reservation_rows_from(t@, i as int) == seq![i as int]
                    + reservation_rows_from(t@, i + 1));
                assert(rows@.map_values(|x: usize| x as int) =~= rows@.drop_last().map_values(
                    |x: usize| x as int,
                ).push(i as int));
                assert(rows@.drop_last().map_values(|x: usize| x as int).push(i as int)
                    + reservation_rows_from(t@, i + 1) =~= rows@.drop_last().map_values(
                    |x: usize| x as int,
                ) + (seq![i as int] + reservation_rows_from(t@, i + 1)));
            }
        } else {
            proof {
                assert(reservation_rows_from(t@, i as int) == reservation_rows_from(t@, i + 1));
            }
        }
        i += 1;
    }
    proof {
        assert(reservation_rows_from(t@, t@.len() as int) =~= Seq::<int>::empty());
        assert(rows@.map_values(|x: usize| x as int) + reservation_rows_from(t@, t@.len() as int)
            =~= rows@.map_values(|x: usize| x as int));
    }
    let ghost rseq = reservation_rows_from(t@, 0);
    assert(rseq =~= rows@.map_values(|x: usize| x as int));

    // extract each row; the first error aborts
    let mut out: Vec<Booking> = Vec::new();
    let mut q: usize = 0;
    proof {
        assert(rseq.skip(0int) =~= rseq);
        assert(out@.map_values(|bb: Booking| bb@) =~= Seq::<BookingView>::empty());
        match rows_result(t@, rseq, date@) {
            Ok(rest) => {
                assert(out@.map_values(|bb: Booking| bb@) + rest =~= rest);
            },
            Err(e) => {},
        }
    }
    while q < rows.len()
        invariant
            q <= rows@.len(),
            rseq == reservation_rows_from(t@, 0),
            rseq == rows@.map_values(|x: usize| x as int),
            rseq.len() == rows@.len(),
            date_text_spec(t@) == Ok::<Seq<char>, ExtractError>(date@),
            out@.len() == q,
            rows_result(t@, rseq, date@) == (match rows_result(t@, rseq.skip(q as int), date@) {
                Ok(rest) => Ok::<Seq<BookingView>, ExtractError>(
                    out@.map_values(|bb: Booking| bb@) + rest,
                ),
                Err(e) => Err(e),
            }),
        decreases rows@.len() - q,
    {
        let idx = rows[q];
        proof {
            assert(rseq.skip(q as int).len() > 0);
            assert(rseq.skip(q as int)[0] == rseq[q as int]);
            assert(rseq[q as int] == idx as int);
        }
        match extract_row(t, idx, date) {
            Ok(b) => {
                let ghost pre = out@;
                let ghost bv = b@;
                out.push(b);
                proof {
                    let sk = rseq.skip(q as int);
                    assert(sk.drop_first() =~= rseq.skip(q as int + 1));
                    assert(rows_result(t@, sk, date@) == (match rows_result(
                        t@,
                        rseq.skip(q as int + 1),
                        date@,
                    ) {
                        Ok(rest) => Ok::<Seq<BookingView>, ExtractError>(seq![bv] + rest),
                        Err(e) => Err(e),
                    }));
                    assert(out@ =~= pre.push(b));
                    assert(out@.map_values(|bb: Booking| bb@) =~= pre.map_values(
                        |bb: Booking| bb@,
                    ).push(bv));
                    match rows_result(t@, rseq.skip(q as int + 1), date@) {
                        Ok(rest) => {
                            assert(pre.map_values(|bb: Booking| bb@).push(bv) + rest
                                =~= pre.map_values(|bb: Booking| bb@) + (seq![bv] + rest));
                        },
                        Err(e) => {},
                    }
                }
            },
            Err(e) => {
                proof {
                    let sk = rseq.skip(q as int);
                    assert(rows_result(t@, sk, date@) == Err::<Seq<BookingView>, ExtractError>(e));
                    assert(rows_result(t@, rseq, date@) == Err::<Seq<BookingView>, ExtractError>(
                        e,
                    ));
                    assert(extract_spec(t@) == Err::<Seq<BookingView>, ExtractError>(e));
                }
                return Err(e);
            },
        }
        q += 1;
    }
    proof {
        assert(rseq.skip(rows@.len() as int) =~= Seq::<int>::empty());
        assert(rows_result(t@, rseq, date@) == Ok::<Seq<BookingView>, ExtractError>(
            out@.map_values(|bb: Booking| bb@) + Seq::<BookingView>::empty(),
        ));
        assert(out@.map_values(|bb: Booking| bb@) + Seq::<BookingView>::empty()
            =~= out@.map_values(|bb: Booking| bb@));
    }
    Ok(out)
}

/// Parses a reservation-view page and extracts its bookings.
pub fn bookings_from_page(html: &str) -> (r: Result<Vec<Booking>, ExtractError>)
    ensures
        match r {
            Ok(v) => extract_spec(dom_of(html@)) is Ok && v@.map_values(|b: Booking| b@)
                == extract_spec(dom_of(html@))->Ok_0,
            Err(e) => extract_spec(dom_of(html@)) == Err::<Seq<BookingView>, ExtractError>(e),
        },
{
    let t = parse_fragment_dom(html);
    extract_bookings(&t)
}

/// The sub-list identifiers an overview arena holds at or after `i`: every
/// `<input>` value ending with the requester's identifier, in document
/// order.
pub open spec fn sublists_from(t: Seq<DomNode>, id: Seq<char>, i: int) -> Seq<Seq<char>>
    decreases t.len() - i,
{
    if i < 0 || i >= t.len() {
        Seq::empty()
    } else {
        let rest = sublists_from(t, id, i + 1);
        if is_element(t, i, input_name()) {
            match attr_spec(t, i, value_key()) {
                Some(v) => if strutil::ends_with_spec(v, id) {
                    seq![v] + rest
                } else {
                    rest
                },
                None => rest,
            }
        } else {
            rest
        }
    }
}

/// Collects the requester's sub-list identifiers from an overview arena.
pub fn extract_sublists(t: &Vec<DomNode>, requester: &str) -> (r: Vec<String>)
    ensures
        r@.map_values(|s: String| s@) == sublists_from(t@, requester@, 0),
{
    proof {
        reveal_strlit("input");
        assert("input"@ =~= input_name());
        reveal_strlit("value");
        assert("value"@ =~= value_key());
    }
    let mut out: Vec<String> = Vec::new();
    let mut i: usize = 0;
    while i < t.len()
        invariant
            i <= t@.len(),
            sublists_from(t@, requester@, 0) == out@.map_values(|s: String| s@) + sublists_from(
                t@,
                requester@,
                i as int,
            ),
        decreases t@.len() - i,
    {
        proof {
            reveal_strlit("input");
            assert("input"@ =~= input_name());
            reveal_strlit("value");
            assert("value"@ =~= value_key());
        }
        let mut hit: Option<String> = None;
        if is_element_named(t, i, "input") {
            match element_attr(t, i, "value") {
                Some(v) => {
                    if strutil::str_ends_with(v.as_str(), requester) {
                        hit = Some(String::from_str(v.as_str()));
                    }
                },
                None => {},
            }
        }
        match hit {
            Some(v) => {
                proof {
                    assert(sublists_from(t@, requester@, i as int) == seq![v@] + sublists_from(
                        t@,
                        requester@,
                        i + 1,
                    ));
                }
                out.push(v);
                proof {
                    assert(out@.map_values(|s: String| s@) =~= out@.drop_last().map_values(
                        |s: String| s@,
                    ).push(out@.last()@));
                    assert(out@.map_values(|s: String| s@) + sublists_from(t@, requester@, i + 1)
                        =~= out@.drop_last().map_values(|s: String| s@) + sublists_from(
                        t@,
                        requester@,
                        i as int,
                    ));
                }
            },
            None => {
                proof {
                    assert(sublists_from(t@, requester@, i as int) == sublists_from(
                        t@,
                        requester@,
                        i + 1,
                    ));
                }
            },
        }
        i += 1;
    }
    proof {
        assert(sublists_from(t@, requester@, t@.len() as int) =~= Seq::<Seq<char>>::empty());
        assert(out@.map_values(|s: String| s@) + sublists_from(t@, requester@, t@.len() as int)
            =~= out@.map_values(|s: String| s@));
    }
    out
}

/// Parses an overview page and collects the requester's sub-list
/// identifiers.
pub fn sublists_from_overview(html: &str, requester: &str) -> (r: Vec<String>)
    ensures
        r@.map_values(|s: String| s@) == sublists_from(dom_of(html@), requester@, 0),
{
    let t = parse_fragment_dom(html);
    extract_sublists(&t, requester)
}

} // verus!
