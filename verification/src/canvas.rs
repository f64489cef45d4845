//! The coursework platform's records, and the identity matcher pairing
//! each booking with at most one submission.
//!
//! Matching is per booking, in order: an exact identity match on the email
//! (classified by the same rule as bookings) always wins and never consumes
//! the submission; otherwise the submission whose user name has the highest
//! Jaro similarity to the booking's name is drawn from a shrinking fuzzy
//! pool (ties resolved toward the smaller submission id), is removed from
//! that pool whatever happens, and is accepted only when its similarity
//! strictly exceeds 4/5.

use vstd::prelude::*;
use vstd::multiset::Multiset;
use vstd::string::StrSliceExecFns;
use vstd::string::StringExecFns;
use crate::jaro::MAX_NAME_LEN;
use crate::jaro::jaro_num;
use crate::jaro::jaro_den;
use crate::jaro::jaro_fraction;
use crate::jaro::sim_gt_spec;
use crate::jaro::sim_gt;
use crate::jaro::sim_over_threshold_spec;
use crate::jaro::sim_over_threshold;
use crate::remores::Booking;
use crate::remores::BookingView;
use crate::remores::EmailView;
use crate::remores::Email;
use crate::remores::classify_spec;
use crate::strutil;

verus! {

/// A platform-side identity: display name and raw login email.
#[derive(Debug)]
pub struct User {
    pub name: String,
    pub email: String,
}

impl User {
    /// The `name (email)` label the reports print.
    pub fn label(&self) -> (r: String)
        ensures
            r@ == self.name@ + seq![' ', '('] + self.email@ + seq![')'],
    {
        proof {
            reveal_strlit(" (");
            assert(" ("@ =~= seq![' ', '(']);
            reveal_strlit(")");
            assert(")"@ =~= seq![')']);
        }
        let r = String::from_str(self.name.as_str()).concat(" (").concat(
            self.email.as_str(),
        ).concat(")");
        proof {
            assert(r@ =~= self.name@ + seq![' ', '('] + self.email@ + seq![')']);
        }
        r
    }
}

/// A remote attachment descriptor.
#[derive(Debug)]
pub struct Attachment {
    pub url: String,
    pub display_name: String,
}

/// One coursework submission, with its uploader and optional attachments.
#[derive(Debug)]
pub struct Submission {
    pub id: u64,
    pub user: User,
    pub attachments: Option<Vec<Attachment>>,
}

/// Whether a submission's raw email is the same identity as a booking's
/// classified email: classifying it by the same rule yields the same value.
pub open spec fn email_matches(sub_email: Seq<char>, e: EmailView) -> bool {
    classify_spec(sub_email) == e
}

/// The first submission at or after `j` whose email matches `e` exactly.
pub open spec fn find_exact(subs: Seq<Submission>, e: EmailView, j: int) -> Option<int>
    decreases subs.len() - j,
{
    if j < 0 || j >= subs.len() {
        None
    } else if email_matches(subs[j].user.email@, e) {
        Some(j)
    } else {
        find_exact(subs, e, j + 1)
    }
}

/// Whether candidate submission `c` beats `b` for a booking named `n`:
/// strictly higher Jaro similarity, or equal similarity and a smaller id.
pub open spec fn cand_better(subs: Seq<Submission>, n: Seq<char>, c: int, b: int) -> bool {
    let nc = jaro_num(subs[c].user.name@, n);
    let dc = jaro_den(subs[c].user.name@, n);
    let nb = jaro_num(subs[b].user.name@, n);
    let db = jaro_den(subs[b].user.name@, n);
    sim_gt_spec(nc, dc, nb, db) || (!sim_gt_spec(nb, db, nc, dc) && subs[c].id < subs[b].id)
}

/// The position in `pool` of the best candidate, scanning from `p` with
/// current best position `bp`.
pub open spec fn best_pos_from(
    subs: Seq<Submission>,
    n: Seq<char>,
    pool: Seq<usize>,
    p: int,
    bp: int,
) -> int
    decreases pool.len() - p,
{
    if p < 0 || p >= pool.len() {
        bp
    } else if cand_better(subs, n, pool[p] as int, pool[bp] as int) {
        best_pos_from(subs, n, pool, p + 1, p)
    } else {
        best_pos_from(subs, n, pool, p + 1, bp)
    }
}

pub open spec fn best_pos(subs: Seq<Submission>, n: Seq<char>, pool: Seq<usize>) -> int {
    best_pos_from(subs, n, pool, 1, 0)
}

/// One booking's outcome and the fuzzy pool left behind: an exact email
/// match keeps the pool intact; otherwise the best-named candidate leaves
/// the pool and is returned only over the 4/5 threshold.
pub open spec fn match_one_spec(subs: Seq<Submission>, b: BookingView, pool: Seq<usize>) -> (
    Option<int>,
    Seq<usize>,
) {
    match find_exact(subs, b.email, 0) {
        Some(j) => (Some(j), pool),
        None => if pool.len() == 0 {
            (None, pool)
        } else {
            let bp = best_pos(subs, b.name, pool);
            let c = pool[bp] as int;
            let pool2 = pool.remove(bp);
            if sim_over_threshold_spec(
                jaro_num(subs[c].user.name@, b.name),
                jaro_den(subs[c].user.name@, b.name),
            ) {
                (Some(c), pool2)
            } else {
                (None, pool2)
            }
        },
    }
}

/// The outcomes for a run of bookings, threading the fuzzy pool through.
pub open spec fn match_seq(
    subs: Seq<Submission>,
    bks: Seq<BookingView>,
    pool: Seq<usize>,
) -> Seq<Option<int>>
    decreases bks.len(),
{
    if bks.len() == 0 {
        Seq::empty()
    } else {
        let r0 = match_one_spec(subs, bks[0], pool);
        seq![r0.0] + match_seq(subs, bks.drop_first(), r0.1)
    }
}

pub open spec fn full_pool(n: int) -> Seq<usize> {
    Seq::new(n as nat, |k: int| k as usize)
}

/// The reconciliation result: one outcome per booking, in booking order,
/// starting from the full fuzzy pool.
pub open spec fn match_all(subs: Seq<Submission>, bks: Seq<BookingView>) -> Seq<Option<int>> {
    match_seq(subs, bks, full_pool(subs.len() as int))
}

pub open spec fn all_names_bounded(subs: Seq<Submission>) -> bool {
    forall|k: int| 0 <= k < subs.len() ==> subs[k].user.name@.len() <= MAX_NAME_LEN
}

fn email_matches_exec(sub_email: &String, e: &Email) -> (r: bool)
    ensures
        r == email_matches(sub_email@, e@),
{
    proof {
        reveal_strlit("@kth.se");
        assert("@kth.se"@ =~= crate::remores::kth_suffix());
    }
    let is_kth = strutil::str_ends_with(sub_email.as_str(), "@kth.se");
    match e {
        Email::KTHEmail(s) => is_kth && strutil::str_eq(sub_email.as_str(), s.as_str()),
        Email::OtherEmail(s) => !is_kth && strutil::str_eq(sub_email.as_str(), s.as_str()),
    }
}

fn find_exact_exec(subs: &Vec<Submission>, e: &Email) -> (r: Option<usize>)
    ensures
        match r {
            Some(j) => find_exact(subs@, e@, 0) == Some(j as int) && j < subs@.len(),
            None => find_exact(subs@, e@, 0) is None,
        },
{
    let mut j: usize = 0;
    while j < subs.len()
        invariant
            j <= subs@.len(),
            find_exact(subs@, e@, 0) == find_exact(subs@, e@, j as int),
        decreases subs@.len() - j,
    {
        if email_matches_exec(&subs[j].user.email, e) {
            assert(find_exact(subs@, e@, j as int) == Some(j as int));
            return Some(j);
        }
        j += 1;
    }
    None
}

fn cand_better_exec(subs: &Vec<Submission>, bn: &Vec<char>, c: usize, b: usize) -> (r: bool)
    requires
        c < subs@.len(),
        b < subs@.len(),
        bn@.len() <= MAX_NAME_LEN,
        all_names_bounded(subs@),
    ensures
        r == cand_better(subs@, bn@, c as int, b as int),
{
    let cn = strutil::chars_of(subs[c].user.name.as_str());
    let bb = strutil::chars_of(subs[b].user.name.as_str());
    let (nc, dc) = jaro_fraction(&cn, bn);
    let (nb, db) = jaro_fraction(&bb, bn);
    if sim_gt(nc, dc, nb, db) {
        true
    } else if sim_gt(nb, db, nc, dc) {
        false
    } else {
        subs[c].id < subs[b].id
    }
}

/// Matches one booking against the submissions, drawing from (and, on the
/// fuzzy path, shrinking) the pool of fuzzy candidates.
pub fn match_one(subs: &Vec<Submission>, b: &Booking, pool: &mut Vec<usize>) -> (r: Option<usize>)
    requires
        b.name@.len() <= MAX_NAME_LEN,
        all_names_bounded(subs@),
        forall|p: int| 0 <= p < old(pool)@.len() ==> old(pool)@[p] < subs@.len(),
    ensures
        ({
            let sp = match_one_spec(subs@, b@, old(pool)@);
            &&& (match r {
                Some(j) => sp.0 == Some(j as int) && j < subs@.len(),
                None => sp.0 is None,
            })
            &&& final(pool)@ == sp.1
            &&& forall|p: int| 0 <= p < final(pool)@.len() ==> final(pool)@[p] < subs@.len()
        }),
{
    match find_exact_exec(subs, &b.email) {
        Some(j) => Some(j),
        None => {
            if pool.len() == 0 {
                None
            } else {
                let bn = strutil::chars_of(b.name.as_str());
                let mut bp: usize = 0;
                let mut p: usize = 1;
                while p < pool.len()
                    invariant
                        1 <= p <= pool@.len(),
                        bp < p,
                        bn@ == b.name@,
                        bn@.len() <= MAX_NAME_LEN,
                        all_names_bounded(subs@),
                        forall|x: int| 0 <= x < pool@.len() ==> pool@[x] < subs@.len(),
                        best_pos(subs@, bn@, pool@) == best_pos_from(
                            subs@,
                            bn@,
                            pool@,
                            p as int,
                            bp as int,
                        ),
                    decreases pool@.len() - p,
                {
                    if cand_better_exec(subs, &bn, pool[p], pool[bp]) {
                        bp = p;
                    }
                    p += 1;
                }
                proof {
                    assert(best_pos(subs@, bn@, pool@) == bp as int);
                }
                let c = pool[bp];
                let cn = strutil::chars_of(subs[c].user.name.as_str());
                let (nc, dc) = jaro_fraction(&cn, &bn);
                let accepted = sim_over_threshold(nc, dc);
                pool.remove(bp);
                if accepted {
                    Some(c)
                } else {
                    None
                }
            }
        },
    }
}

pub open spec fn opt_view(o: Option<usize>) -> Option<int> {
    match o {
        Some(j) => Some(j as int),
        None => None,
    }
}

/// The reconciliation: one entry per booking, in booking order; entry `k`
/// holds the index of the submission matched to booking `k`, or nothing.
pub fn match_bookings(bookings: &Vec<Booking>, subs: &Vec<Submission>) -> (r: Vec<Option<usize>>)
    requires
        all_names_bounded(subs@),
        forall|k: int| 0 <= k < bookings@.len() ==> bookings@[k].name@.len() <= MAX_NAME_LEN,
    ensures
        r@.len() == bookings@.len(),
        r@.map_values(|o: Option<usize>| opt_view(o)) == match_all(
            subs@,
            bookings@.map_values(|b: Booking| b@),
        ),
        forall|k: int|
            0 <= k < r@.len() ==> (#[trigger] r@[k] matches Some(j) ==> j < subs@.len()),
{
    let ghost bviews = bookings@.map_values(|b: Booking| b@);
    let mut pool: Vec<usize> = Vec::new();
    let mut k: usize = 0;
    while k < subs.len()
        invariant
            k <= subs@.len(),
            pool@.len() == k,
            forall|x: int| 0 <= x < k ==> pool@[x] == x as usize,
        decreases subs@.len() - k,
    {
        pool.push(k);
        k += 1;
    }
    proof {
        assert(pool@ =~= full_pool(subs@.len() as int));
    }

    let mut out: Vec<Option<usize>> = Vec::new();
    let mut i: usize = 0;
    proof {
        assert(bviews.skip(0int) =~= bviews);
        assert(out@.map_values(|o: Option<usize>| opt_view(o)) =~= Seq::<Option<int>>::empty());
        assert(Seq::<Option<int>>::empty() + match_seq(subs@, bviews, pool@) =~= match_seq(
            subs@,
            bviews,
            pool@,
        ));
    }
    while i < bookings.len()
        invariant
            i <= bookings@.len(),
            bviews == bookings@.map_values(|b: Booking| b@),
            bviews.len() == bookings@.len(),
            out@.len() == i,
            all_names_bounded(subs@),
            forall|k2: int| 0 <= k2 < bookings@.len() ==> bookings@[k2].name@.len()
                <= MAX_NAME_LEN,
            forall|p: int| 0 <= p < pool@.len() ==> pool@[p] < subs@.len(),
            forall|k2: int| 0 <= k2 < out@.len() ==> (#[trigger] out@[k2] matches Some(j) ==> j
                < subs@.len()),
            match_all(subs@, bviews) == out@.map_values(|o: Option<usize>| opt_view(o))
                + match_seq(subs@, bviews.skip(i as int), pool@),
        decreases bookings@.len() - i,
    {
        let ghost pre_pool = pool@;
        let ghost pre_out = out@;
        let m = match_one(subs, &bookings[i], &mut pool);
        out.push(m);
        proof {
            let sp = match_one_spec(subs@, bviews[i as int], pre_pool);
            let sk = bviews.skip(i as int);
            assert(sk.len() > 0);
            assert(sk[0] == bviews[i as int]);
            assert(sk.drop_first() =~= bviews.skip(i as int + 1));
            assert(match_seq(subs@, sk, pre_pool) == seq![sp.0] + match_seq(
                subs@,
                bviews.skip(i as int + 1),
                sp.1,
            ));
            assert(opt_view(m) == sp.0);
            assert(pool@ == sp.1);
            assert(out@ =~= pre_out.push(m));
            assert(out@.map_values(|o: Option<usize>| opt_view(o)) =~= pre_out.map_values(
                |o: Option<usize>| opt_view(o),
            ).push(opt_view(m)));
            assert(pre_out.map_values(|o: Option<usize>| opt_view(o)).push(sp.0) + match_seq(
                subs@,
                bviews.skip(i as int + 1),
                sp.1,
            ) =~= pre_out.map_values(|o: Option<usize>| opt_view(o)) + (seq![sp.0] + match_seq(
                subs@,
                bviews.skip(i as int + 1),
                sp.1,
            )));
        }
        i += 1;
    }
    proof {
        assert(bviews.skip(bookings@.len() as int) =~= Seq::<BookingView>::empty());
        assert(match_seq(subs@, bviews.skip(bookings@.len() as int), pool@) =~= Seq::<
            Option<int>,
        >::empty());
        assert(out@.map_values(|o: Option<usize>| opt_view(o)) + Seq::<Option<int>>::empty()
            =~= out@.map_values(|o: Option<usize>| opt_view(o)));
    }
    out
}

/// A course listing entry; `created_at` and the enrolment types are what
/// the overview filter and ordering read.
#[derive(Debug)]
pub struct Course {
    pub id: u64,
    pub name: String,
    pub created_at: Option<i64>,
    pub enrollments: Vec<String>,
}

/// An assignment listing entry.
#[derive(Debug)]
pub struct Assignment {
    pub id: u64,
    pub name: String,
    pub due_at: Option<i64>,
    pub published: bool,
    pub grading_type: String,
}

pub open spec fn student_str() -> Seq<char> {
    seq!['s', 't', 'u', 'd', 'e', 'n', 't']
}

/// A course is listed when the caller holds some non-student enrolment
/// in it.
pub open spec fn keeps_course(c: Course) -> bool {
    exists|k: int| 0 <= k < c.enrollments@.len() && c.enrollments@[k]@ != student_str()
}

pub open spec fn course_pred() -> spec_fn(Course) -> bool {
    |c: Course| keeps_course(c)
}

/// The descending order on creation instants; a missing instant sorts
/// last.
pub open spec fn created_ge(x: Option<i64>, y: Option<i64>) -> bool {
    match (x, y) {
        (Some(a), Some(b)) => a >= b,
        (Some(a), None) => true,
        (None, None) => true,
        (None, Some(b)) => false,
    }
}

pub open spec fn pass_fail_str() -> Seq<char> {
    seq!['p', 'a', 's', 's', '_', 'f', 'a', 'i', 'l']
}

pub open spec fn points_str() -> Seq<char> {
    seq!['p', 'o', 'i', 'n', 't', 's']
}

pub open spec fn letter_grade_str() -> Seq<char> {
    seq!['l', 'e', 't', 't', 'e', 'r', '_', 'g', 'r', 'a', 'd', 'e']
}

/// An assignment is listed when it is published and uses one of the
/// gradeable grading types.
pub open spec fn keeps_assignment(a: Assignment) -> bool {
    a.published && (a.grading_type@ == pass_fail_str() || a.grading_type@ == points_str()
        || a.grading_type@ == letter_grade_str())
}

pub open spec fn assignment_pred() -> spec_fn(Assignment) -> bool {
    |a: Assignment| keeps_assignment(a)
}

/// The sort key of an assignment: its due instant, with `now` standing in
/// for a missing one.
pub open spec fn due_key(a: Assignment, now: i64) -> int {
    match a.due_at {
        Some(d) => d as int,
        None => now as int,
    }
}

proof fn lemma_filter_push<A>(s: Seq<A>, p: spec_fn(A) -> bool, x: A)
    ensures
        s.push(x).filter(p) == (if p(x) {
            s.filter(p).push(x)
        } else {
            s.filter(p)
        }),
{
    reveal(Seq::filter);
    assert(s.push(x).drop_last() =~= s);
    assert(s.push(x).last() == x);
}

fn keeps_course_exec(c: &Course) -> (r: bool)
    ensures
        r == keeps_course(*c),
{
    proof {
        reveal_strlit("student");
        assert("student"@ =~= student_str());
    }
    let mut k: usize = 0;
    while k < c.enrollments.len()
        invariant
            k <= c.enrollments@.len(),
            "student"@ == student_str(),
            forall|x: int| 0 <= x < k ==> c.enrollments@[x]@ == student_str(),
        decreases c.enrollments@.len() - k,
    {
        if !strutil::str_eq(c.enrollments[k].as_str(), "student") {
            return true;
        }
        k += 1;
    }
    false
}

fn created_ge_exec(x: Option<i64>, y: Option<i64>) -> (r: bool)
    ensures
        r == created_ge(x, y),
{
    match (x, y) {
        (Some(a), Some(b)) => a >= b,
        (Some(a), None) => true,
        (None, None) => true,
        (None, Some(b)) => false,
    }
}

/// The course overview: the courses with some non-student enrolment,
/// ordered by creation instant, newest first, missing instants last.
pub fn courses_overview(courses: Vec<Course>) -> (r: Vec<Course>)
    ensures
        r@.to_multiset() == courses@.filter(course_pred()).to_multiset(),
        forall|i: int, j: int|
            0 <= i <= j < r@.len() ==> created_ge(
                (#[trigger] r@[i]).created_at,
                (#[trigger] r@[j]).created_at,
            ),
{
    broadcast use vstd::seq_lib::group_to_multiset_ensures;
    broadcast use vstd::multiset::group_multiset_axioms;

    let ghost orig = courses@;
    let mut cs = courses;
    let mut kept: Vec<Course> = Vec::new();
    proof {
        reveal(Seq::filter);
        assert(orig.take(0int) =~= Seq::<Course>::empty());
        assert(kept@ =~= orig.take(0int).filter(course_pred()));
        assert(cs@ =~= orig.skip(0int));
    }
    while cs.len() > 0
        invariant
            cs@.len() <= orig.len(),
            cs@ == orig.skip(orig.len() - cs@.len()),
            kept@ == orig.take(orig.len() - cs@.len()).filter(course_pred()),
        decreases cs@.len(),
    {
        let ghost gi = orig.len() - cs@.len();
        let c = cs.remove(0);
        proof {
            assert(orig.skip(gi)[0] == orig[gi]);
            assert(cs@ =~= orig.skip(gi + 1));
            assert(orig.take(gi + 1) =~= orig.take(gi).push(c));
            lemma_filter_push(orig.take(gi), course_pred(), c);
        }
        if keeps_course_exec(&c) {
            kept.push(c);
        }
    }
    proof {
        assert(orig.take(orig.len() as int) =~= orig);
    }
    let ghost fseq = orig.filter(course_pred());

    let mut rest = kept;
    let mut out: Vec<Course> = Vec::new();
    proof {
        assert(out@.to_multiset().add(rest@.to_multiset()) =~= fseq.to_multiset());
    }
    while rest.len() > 0
        invariant
            out@.to_multiset().add(rest@.to_multiset()) == fseq.to_multiset(),
            forall|i2: int, j2: int|
                0 <= i2 <= j2 < out@.len() ==> created_ge(
                    (#[trigger] out@[i2]).created_at,
                    (#[trigger] out@[j2]).created_at,
                ),
            forall|i2: int, p2: int|
                0 <= i2 < out@.len() && 0 <= p2 < rest@.len() ==> created_ge(
                    (#[trigger] out@[i2]).created_at,
                    (#[trigger] rest@[p2]).created_at,
                ),
        decreases rest@.len(),
    {
        // pick the first element whose key is greatest among the rest
        let mut bm: usize = 0;
        let mut p: usize = 1;
        while p < rest.len()
            invariant
                1 <= p <= rest@.len(),
                bm < p,
                forall|q: int| 0 <= q < p ==> created_ge(
                    rest@[bm as int].created_at,
                    (#[trigger] rest@[q]).created_at,
                ),
            decreases rest@.len() - p,
        {
            if !created_ge_exec(rest[bm].created_at, rest[p].created_at) {
                proof {
                    // the order is total: not (best >= cand) gives cand >= best,
                    // and whatever best already dominated stays dominated
                    assert(created_ge(rest@[p as int].created_at, rest@[bm as int].created_at));
                    assert forall|q: int| 0 <= q < p implies created_ge(
                        rest@[p as int].created_at,
                        (#[trigger] rest@[q]).created_at,
                    ) by {
                        assert(created_ge(rest@[bm as int].created_at, rest@[q].created_at));
                    }
                }
                bm = p;
            }
            p += 1;
        }
        let ghost pre_rest = rest@;
        let ghost pre_out = out@;
        let c = rest.remove(bm);
        out.push(c);
        proof {
            assert(c == pre_rest[bm as int]);
            assert(rest@ == pre_rest.remove(bm as int));
            assert(pre_rest.contains(c));
            pre_rest.to_multiset_ensures();
            pre_out.to_multiset_ensures();
            assert(pre_rest.remove(bm as int).to_multiset() =~= pre_rest.to_multiset().remove(
                pre_rest[bm as int],
            ));
            assert(pre_out.push(c).to_multiset() =~= pre_out.to_multiset().insert(c));
            assert(out@ == pre_out.push(c));
            assert(rest@.to_multiset() =~= pre_rest.to_multiset().remove(c));
            assert(out@.to_multiset() =~= pre_out.to_multiset().insert(c));
            assert(out@.to_multiset().add(rest@.to_multiset()) =~= pre_out.to_multiset().add(
                pre_rest.to_multiset(),
            ));
            assert forall|p2: int| 0 <= p2 < rest@.len() implies created_ge(
                c.created_at,
                (#[trigger] rest@[p2]).created_at,
            ) by {
                if p2 < bm as int {
                    assert(rest@[p2] == pre_rest[p2]);
                } else {
                    assert(rest@[p2] == pre_rest[p2 + 1]);
                }
            }
        }
    }
    proof {
        assert(rest@.to_multiset() =~= Multiset::<Course>::empty());
        assert(out@.to_multiset() =~= fseq.to_multiset());
    }
    out
}

fn keeps_assignment_exec(a: &Assignment) -> (r: bool)
    ensures
        r == keeps_assignment(*a),
{
    proof {
        reveal_strlit("pass_fail");
        assert("pass_fail"@ =~= pass_fail_str());
        reveal_strlit("points");
        assert("points"@ =~= points_str());
        reveal_strlit("letter_grade");
        assert("letter_grade"@ =~= letter_grade_str());
    }
    a.published && (strutil::str_eq(a.grading_type.as_str(), "pass_fail") || strutil::str_eq(
        a.grading_type.as_str(),
        "points",
    ) || strutil::str_eq(a.grading_type.as_str(), "letter_grade"))
}

/// The gradeable assignments of a course: published ones with a gradeable
/// grading type, ordered by due instant, earliest first; an assignment
/// without a due instant takes `now` as its key.
pub fn assignments_for_grading(assignments: Vec<Assignment>, now: i64) -> (r: Vec<Assignment>)
    ensures
        r@.to_multiset() == assignments@.filter(assignment_pred()).to_multiset(),
        forall|i: int, j: int|
            0 <= i <= j < r@.len() ==> due_key(#[trigger] r@[i], now) <= due_key(
                #[trigger] r@[j],
                now,
            ),
{
    broadcast use vstd::seq_lib::group_to_multiset_ensures;
    broadcast use vstd::multiset::group_multiset_axioms;

    let ghost orig = assignments@;
    let mut cs = assignments;
    let mut kept: Vec<Assignment> = Vec::new();
    proof {
        reveal(Seq::filter);
        assert(orig.take(0int) =~= Seq::<Assignment>::empty());
        assert(kept@ =~= orig.take(0int).filter(assignment_pred()));
        assert(cs@ =~= orig.skip(0int));
    }
    while cs.len() > 0
        invariant
            cs@.len() <= orig.len(),
            cs@ == orig.skip(orig.len() - cs@.len()),
            kept@ == orig.take(orig.len() - cs@.len()).filter(assignment_pred()),
        decreases cs@.len(),
    {
        let ghost gi = orig.len() - cs@.len();
        let c = cs.remove(0);
        proof {
            assert(orig.skip(gi)[0] == orig[gi]);
            assert(cs@ =~= orig.skip(gi + 1));
            assert(orig.take(gi + 1) =~= orig.take(gi).push(c));
            lemma_filter_push(orig.take(gi), assignment_pred(), c);
        }
        if keeps_assignment_exec(&c) {
            kept.push(c);
        }
    }
    proof {
        assert(orig.take(orig.len() as int) =~= orig);
    }
    let ghost fseq = orig.filter(assignment_pred());

    let mut rest = kept;
    let mut out: Vec<Assignment> = Vec::new();
    proof {
        assert(out@.to_multiset().add(rest@.to_multiset()) =~= fseq.to_multiset());
    }
    while rest.len() > 0
        invariant
            out@.to_multiset().add(rest@.to_multiset()) == fseq.to_multiset(),
            forall|i2: int, j2: int|
                0 <= i2 <= j2 < out@.len() ==> due_key(#[trigger] out@[i2], now) <= due_key(
                    #[trigger] out@[j2],
                    now,
                ),
            forall|i2: int, p2: int|
                0 <= i2 < out@.len() && 0 <= p2 < rest@.len() ==> due_key(
                    #[trigger] out@[i2],
                    now,
                ) <= due_key(#[trigger] rest@[p2], now),
        decreases rest@.len(),
    {
        // pick the first element whose key is least among the rest
        let mut bm: usize = 0;
        let mut p: usize = 1;
        while p < rest.len()
            invariant
                1 <= p <= rest@.len(),
                bm < p,
                forall|q: int| 0 <= q < p ==> due_key(rest@[bm as int], now) <= due_key(
                    #[trigger] rest@[q],
                    now,
                ),
            decreases rest@.len() - p,
        {
            let kb = match rest[bm].due_at {
                Some(d) => d,
                None => now,
            };
            let kp = match rest[p].due_at {
                Some(d) => d,
                None => now,
            };
            if kp < kb {
                bm = p;
            }
            p += 1;
        }
        let ghost pre_rest = rest@;
        let ghost pre_out = out@;
        let c = rest.remove(bm);
        out.push(c);
        proof {
            assert(c == pre_rest[bm as int]);
            assert(rest@ == pre_rest.remove(bm as int));
            assert(pre_rest.contains(c));
            pre_rest.to_multiset_ensures();
            pre_out.to_multiset_ensures();
            assert(pre_rest.remove(bm as int).to_multiset() =~= pre_rest.to_multiset().remove(
                pre_rest[bm as int],
            ));
            assert(pre_out.push(c).to_multiset() =~= pre_out.to_multiset().insert(c));
            assert(out@ == pre_out.push(c));
            assert(rest@.to_multiset() =~= pre_rest.to_multiset().remove(c));
            assert(out@.to_multiset() =~= pre_out.to_multiset().insert(c));
            assert(out@.to_multiset().add(rest@.to_multiset()) =~= pre_out.to_multiset().add(
                pre_rest.to_multiset(),
            ));
            assert forall|p2: int| 0 <= p2 < rest@.len() implies due_key(c, now) <= due_key(
                #[trigger] rest@[p2],
                now,
            ) by {
                if p2 < bm as int {
                    assert(rest@[p2] == pre_rest[p2]);
                } else {
                    assert(rest@[p2] == pre_rest[p2 + 1]);
                }
            }
        }
    }
    proof {
        assert(rest@.to_multiset() =~= Multiset::<Assignment>::empty());
        assert(out@.to_multiset() =~= fseq.to_multiset());
    }
    out
}

proof fn lemma_jaro_den_pos(a: Seq<char>, b: Seq<char>)
    ensures
        jaro_den(a, b) >= 1,
{
    let la = a.len() as int;
    let lb = b.len() as int;
    if la == 0 || lb == 0 {
    } else {
        let m = crate::jaro::jaro_matches(a, b);
        if m == 0 {
        } else {
            assert(m >= 1);
            assert(3 * la * lb * m >= 1) by (nonlinear_arith)
                requires
                    la >= 1,
                    lb >= 1,
                    m >= 1,
            ;
        }
    }
}

proof fn lemma_frac_trans(n1: int, d1: int, n2: int, d2: int, n3: int, d3: int)
    requires
        d1 >= 1,
        d2 >= 1,
        d3 >= 1,
        n1 * d2 >= n2 * d1,
        n2 * d3 >= n3 * d2,
    ensures
        n1 * d3 >= n3 * d1,
        (n1 * d2 > n2 * d1 || n2 * d3 > n3 * d2) ==> n1 * d3 > n3 * d1,
{
    assert(n1 * d3 >= n3 * d1 && ((n1 * d2 > n2 * d1 || n2 * d3 > n3 * d2) ==> n1 * d3 > n3
        * d1)) by (nonlinear_arith)
        requires
            d1 >= 1,
            d2 >= 1,
            d3 >= 1,
            n1 * d2 >= n2 * d1,
            n2 * d3 >= n3 * d2,
    ;
}

/// Beating is transitive: a candidate that beats a second one, which
/// itself beats a third, beats the third.
proof fn lemma_better_trans(subs: Seq<Submission>, n: Seq<char>, x: int, y: int, z: int)
    requires
        cand_better(subs, n, x, y),
        cand_better(subs, n, y, z),
    ensures
        cand_better(subs, n, x, z),
{
    let nx = jaro_num(subs[x].user.name@, n);
    let dx = jaro_den(subs[x].user.name@, n);
    let ny = jaro_num(subs[y].user.name@, n);
    let dy = jaro_den(subs[y].user.name@, n);
    let nz = jaro_num(subs[z].user.name@, n);
    let dz = jaro_den(subs[z].user.name@, n);
    lemma_jaro_den_pos(subs[x].user.name@, n);
    lemma_jaro_den_pos(subs[y].user.name@, n);
    lemma_jaro_den_pos(subs[z].user.name@, n);
    lemma_frac_trans(nx, dx, ny, dy, nz, dz);
}

proof fn lemma_best_pos_from(subs: Seq<Submission>, n: Seq<char>, pool: Seq<usize>, p: int, bp: int)
    requires
        1 <= p <= pool.len(),
        0 <= bp < p,
        forall|q: int| 0 <= q < p ==> !cand_better(subs, n, #[trigger] pool[q] as int, pool[bp] as int),
    ensures
        ({
            let f = best_pos_from(subs, n, pool, p, bp);
            &&& 0 <= f < pool.len()
            &&& forall|q: int|
                0 <= q < pool.len() ==> !cand_better(subs, n, #[trigger] pool[q] as int, pool[f] as int)
        }),
    decreases pool.len() - p,
{
    if p >= pool.len() {
    } else if cand_better(subs, n, pool[p] as int, pool[bp] as int) {
        assert forall|q: int| 0 <= q < p + 1 implies !cand_better(
            subs,
            n,
            #[trigger] pool[q] as int,
            pool[p] as int,
        ) by {
            if q < p && cand_better(subs, n, pool[q] as int, pool[p] as int) {
                lemma_better_trans(subs, n, pool[q] as int, pool[p] as int, pool[bp] as int);
            }
        }
        lemma_best_pos_from(subs, n, pool, p + 1, p);
    } else {
        lemma_best_pos_from(subs, n, pool, p + 1, bp);
    }
}

proof fn lemma_match_seq_len(subs: Seq<Submission>, bks: Seq<BookingView>, pool: Seq<usize>)
    ensures
        match_seq(subs, bks, pool).len() == bks.len(),
    decreases bks.len(),
{
    if bks.len() == 0 {
    } else {
        let r0 = match_one_spec(subs, bks[0], pool);
        lemma_match_seq_len(subs, bks.drop_first(), r0.1);
    }
}

/// The reconciliation is a total mapping: its result holds exactly one
/// entry per input booking, whatever the submission set (including an
/// empty one).
pub proof fn law_total_mapping(subs: Seq<Submission>, bks: Seq<BookingView>)
    ensures
        match_all(subs, bks).len() == bks.len(),
{
    lemma_match_seq_len(subs, bks, full_pool(subs.len() as int));
}

proof fn lemma_find_exact_from(subs: Seq<Submission>, e: EmailView, k: int, j: int)
    requires
        0 <= k <= j < subs.len(),
        email_matches(subs[j].user.email@, e),
    ensures
        find_exact(subs, e, k) is Some,
        0 <= find_exact(subs, e, k)->0 < subs.len(),
        email_matches(subs[find_exact(subs, e, k)->0].user.email@, e),
    decreases j - k,
{
    if email_matches(subs[k].user.email@, e) {
    } else {
        lemma_find_exact_from(subs, e, k + 1, j);
    }
}

proof fn lemma_exact_in_seq(
    subs: Seq<Submission>,
    bks: Seq<BookingView>,
    pool: Seq<usize>,
    i: int,
)
    requires
        0 <= i < bks.len(),
        find_exact(subs, bks[i].email, 0) is Some,
    ensures
        match_seq(subs, bks, pool).len() == bks.len(),
        match_seq(subs, bks, pool)[i] == find_exact(subs, bks[i].email, 0),
    decreases i,
{
    lemma_match_seq_len(subs, bks, pool);
    let r0 = match_one_spec(subs, bks[0], pool);
    lemma_match_seq_len(subs, bks.drop_first(), r0.1);
    if i == 0 {
    } else {
        assert(bks.drop_first()[i - 1] == bks[i]);
        lemma_exact_in_seq(subs, bks.drop_first(), r0.1, i - 1);
        assert(match_seq(subs, bks, pool)[i] == match_seq(subs, bks.drop_first(), r0.1)[i - 1]);
    }
}

/// For any booking whose email exactly matches some submission's email
/// (after classification by the institutional-domain rule), the matcher
/// returns the first such submission, regardless of any name similarity
/// and of what other bookings did to the fuzzy pool.
pub proof fn law_exact_match_preferred(
    subs: Seq<Submission>,
    bks: Seq<BookingView>,
    i: int,
    j: int,
)
    requires
        0 <= i < bks.len(),
        0 <= j < subs.len(),
        email_matches(subs[j].user.email@, bks[i].email),
    ensures
        match_all(subs, bks).len() == bks.len(),
        match_all(subs, bks)[i] == find_exact(subs, bks[i].email, 0),
        match_all(subs, bks)[i] is Some,
        email_matches(subs[match_all(subs, bks)[i]->0].user.email@, bks[i].email),
{
    lemma_find_exact_from(subs, bks[i].email, 0, j);
    lemma_exact_in_seq(subs, bks, full_pool(subs.len() as int), i);
}

/// For a booking with no exact email match and a non-empty fuzzy pool,
/// the drawn candidate is a pool member no other pool member beats: none
/// has strictly higher Jaro similarity to the booking's name, and none
/// with equal similarity has a smaller id. It leaves the pool whatever
/// happens, and it is returned as the match exactly when its similarity
/// strictly exceeds 4/5; with an empty pool the booking stays unmatched.
pub proof fn law_fuzzy_fallback(subs: Seq<Submission>, b: BookingView, pool: Seq<usize>)
    requires
        find_exact(subs, b.email, 0) is None,
    ensures
        pool.len() == 0 ==> match_one_spec(subs, b, pool) == (None::<int>, pool),
        pool.len() > 0 ==> ({
            let bp = best_pos(subs, b.name, pool);
            let c = pool[bp] as int;
            let nc = jaro_num(subs[c].user.name@, b.name);
            let dc = jaro_den(subs[c].user.name@, b.name);
            &&& 0 <= bp < pool.len()
            &&& forall|p: int|
                0 <= p < pool.len() ==> !cand_better(subs, b.name, #[trigger] pool[p] as int, c)
            &&& match_one_spec(subs, b, pool).1 == pool.remove(bp)
            &&& match_one_spec(subs, b, pool).0 == (if crate::jaro::sim_over_threshold_spec(
                nc,
                dc,
            ) {
                Some(c)
            } else {
                None::<int>
            })
        }),
{
    if pool.len() > 0 {
        lemma_best_pos_from(subs, b.name, pool, 1, 0);
    }
}

} // verus!
