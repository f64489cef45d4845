use remores_dl::canvas::{assignments_for_grading, courses_overview, Assignment, Course};

fn course(id: u64, created_at: Option<i64>, enrollments: Vec<&str>) -> Course {
    Course {
        id,
        name: format!("course {}", id),
        created_at,
        enrollments: enrollments.into_iter().map(str::to_string).collect(),
    }
}

fn assignment(id: u64, due_at: Option<i64>, published: bool, grading_type: &str) -> Assignment {
    Assignment {
        id,
        name: format!("assignment {}", id),
        due_at,
        published,
        grading_type: grading_type.to_string(),
    }
}

#[test]
fn courses_keep_only_non_student_enrolments_newest_first() {
    let input = vec![
        course(1, Some(100), vec!["student"]),
        course(2, Some(50), vec!["teacher"]),
        course(3, Some(200), vec!["student", "ta"]),
        course(4, None, vec!["teacher"]),
        course(5, Some(150), vec![]),
    ];
    let r = courses_overview(input);
    let ids: Vec<u64> = r.iter().map(|c| c.id).collect();
    // course 1 is student-only, course 5 has no enrolments; the rest are
    // ordered by creation instant descending, the missing instant last
    assert_eq!(ids, vec![3, 2, 4]);
}

#[test]
fn assignments_filter_and_sort_by_due_date() {
    let now = 1000;
    let input = vec![
        assignment(1, Some(500), true, "points"),
        assignment(2, Some(100), true, "pass_fail"),
        assignment(3, Some(50), false, "points"),
        assignment(4, Some(300), true, "not_graded"),
        assignment(5, None, true, "letter_grade"),
        assignment(6, Some(2000), true, "points"),
    ];
    let r = assignments_for_grading(input, now);
    let ids: Vec<u64> = r.iter().map(|a| a.id).collect();
    // 3 is unpublished, 4 has a non-gradeable grading type; 5 takes `now`
    // (1000) as its key
    assert_eq!(ids, vec![2, 1, 5, 6]);
}
