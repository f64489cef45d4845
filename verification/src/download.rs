//! File naming for a matched submission's attachments.
//!
//! A submission with no attachments at all (the attachment field absent,
//! or present but empty) is an error, not an empty success; otherwise each
//! attachment gets the file name `<prefix>-<displayName>`, in attachment
//! order. Writing the bytes to disk is the caller's work.

use vstd::prelude::*;
use vstd::string::StrSliceExecFns;
use vstd::string::StringExecFns;
use crate::canvas::Submission;
use crate::datetime::compact_spec;
use crate::remores::Booking;

verus! {

/// Why a download cannot start.
#[derive(Clone, Copy, PartialEq, Eq, Structural, Debug)]
pub enum DownloadError {
    NoAttachments,
}

/// The file name one attachment is saved under.
pub open spec fn attachment_name_spec(prefix: Seq<char>, display_name: Seq<char>) -> Seq<char> {
    prefix + seq!['-'] + display_name
}

/// The file names a submission's attachments are saved under: one per
/// attachment, in order, or an error when the submission has none at all
/// (no attachment field, or an empty list).
pub fn attachment_file_names(sub: &Submission, prefix: &str) -> (r: Result<
    Vec<String>,
    DownloadError,
>)
    ensures
        match r {
            Ok(v) => sub.attachments matches Some(ats) && ats@.len() > 0 && v@.len()
                == ats@.len() && (forall|k: int|
                0 <= k < v@.len() ==> v@[k]@ == attachment_name_spec(
                    prefix@,
                    ats@[k].display_name@,
                )),
            Err(e) => e == DownloadError::NoAttachments && (sub.attachments is None
                || sub.attachments->0@.len() == 0),
        },
{
    proof {
        reveal_strlit("-");
        assert("-"@ =~= seq!['-']);
    }
    let ats = match &sub.attachments {
        Some(a) => a,
        None => {
            return Err(DownloadError::NoAttachments);
        },
    };
    if ats.len() == 0 {
        return Err(DownloadError::NoAttachments);
    }
    let mut names: Vec<String> = Vec::new();
    let mut k: usize = 0;
    while k < ats.len()
        invariant
            k <= ats@.len(),
            names@.len() == k,
            "-"@ == seq!['-'],
            forall|x: int| 0 <= x < k ==> names@[x]@ == attachment_name_spec(
                prefix@,
                ats@[x].display_name@,
            ),
        decreases ats@.len() - k,
    {
        let name = String::from_str(prefix).concat("-").concat(ats[k].display_name.as_str());
        names.push(name);
        k += 1;
    }
    Ok(names)
}

/// The per-submission file name prefix: the booking's compact time stamp,
/// a dash, and the submitting user's name.
pub fn download_prefix(b: &Booking, sub: &Submission) -> (r: String)
    requires
        b.time.wf(),
    ensures
        r@ == compact_spec(b.time) + seq!['-'] + sub.user.name@,
{
    proof {
        reveal_strlit("-");
        assert("-"@ =~= seq!['-']);
    }
    b.time.compact().concat("-").concat(sub.user.name.as_str())
}

} // verus!
