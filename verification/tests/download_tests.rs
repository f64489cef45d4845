use remores_dl::canvas::{Attachment, Submission, User};
use remores_dl::datetime::SlotTime;
use remores_dl::download::{attachment_file_names, download_prefix, DownloadError};
use remores_dl::remores::{Booking, Email};

fn submission_with(attachments: Option<Vec<Attachment>>) -> Submission {
    Submission {
        id: 5,
        user: User { name: "Anna Svensson".to_string(), email: "anna@kth.se".to_string() },
        attachments,
    }
}

#[test]
fn names_concatenate_prefix_and_display_name() {
    let sub = submission_with(Some(vec![
        Attachment { url: "https://f/1".to_string(), display_name: "report.pdf".to_string() },
        Attachment { url: "https://f/2".to_string(), display_name: "code.zip".to_string() },
    ]));
    let names = attachment_file_names(&sub, "p1").unwrap();
    assert_eq!(names, vec!["p1-report.pdf".to_string(), "p1-code.zip".to_string()]);
}

#[test]
fn no_attachments_is_an_error_not_an_empty_success() {
    let sub = submission_with(None);
    assert_eq!(attachment_file_names(&sub, "p1"), Err(DownloadError::NoAttachments));
}

#[test]
fn empty_attachment_list_is_an_error_too() {
    let sub = submission_with(Some(vec![]));
    assert_eq!(attachment_file_names(&sub, "p1"), Err(DownloadError::NoAttachments));
}

#[test]
fn prefix_is_compact_time_and_user_name() {
    let b = Booking {
        time: SlotTime { year: 2024, month: 3, day: 15, hour: 10, minute: 0 },
        name: "Anna Svensson".to_string(),
        email: Email::KTHEmail("anna@kth.se".to_string()),
    };
    let sub = submission_with(None);
    assert_eq!(download_prefix(&b, &sub), "202403151000-Anna Svensson");
}
