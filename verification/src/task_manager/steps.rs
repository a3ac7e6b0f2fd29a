//! Errors of a task run and the run's snapshot label.

use crate::calendar::{spec_date_of, yyyymmdd_seq, date_of_timestamp, format_yyyymmdd, TIMESTAMP_LIMIT};
use crate::text::{dec_seq, u64_to_dec};
use vstd::prelude::*;
use vstd::string::StringExecFns;

verus! {

/// What a send reported on each side of the pipe: the filesystem side
/// and the destination side.
#[derive(Debug)]
pub struct SendError {
    pub zfs: Option<String>,
    pub destination: Option<String>,
}

/// Why one dataset's step failed. Message-passing and store errors carry
/// the underlying message.
#[derive(Debug)]
pub enum DatasetErrorKind {
    MailboxError(String),
    SqlError(String),
    PipeError(String),
    SendError(SendError),
    Other(String),
}

/// A failure of one dataset within a run.
#[derive(Debug)]
pub struct DatasetError {
    pub dataset: String,
    pub error: DatasetErrorKind,
}

impl DatasetError {
    pub fn new(dataset: String, error: DatasetErrorKind) -> (r: Self)
        ensures
            r.dataset == dataset,
            r.error == error,
    {
        DatasetError { dataset, error }
    }

    /// A failure with a plain message.
    pub fn other(dataset: String, error: String) -> (r: Self)
        ensures
            r.dataset == dataset,
            r.error == DatasetErrorKind::Other(error),
    {
        DatasetError { dataset, error: DatasetErrorKind::Other(error) }
    }
}

/// Why a run failed, or failed in part.
#[derive(Debug)]
pub enum StepError {
    TaskNotFound(String),
    AlreadyRunning(String),
    MailboxError(String),
    SqlError(String),
    ZfsError(String),
    PartialErrors(Vec<DatasetError>),
}

/// The label shared by every snapshot of one run started at `ts`:
/// `gazpacho-YYYYMMDD-<seconds>`.
pub open spec fn snapshot_label_seq(ts: int) -> Seq<char> {
    let (y, m, d) = spec_date_of(ts);
    "gazpacho-"@ + yyyymmdd_seq(y, m, d) + "-"@ + dec_seq(ts as nat)
}

/// Derive the run's snapshot label from its start time.
pub fn get_snapshot_name(now: u64) -> (r: String)
    requires
        now < TIMESTAMP_LIMIT,
    ensures
        r@ == snapshot_label_seq(now as int),
{
    let date = date_of_timestamp(now);
    let r = String::from_str("gazpacho-").concat(format_yyyymmdd(&date).as_str()).concat(
        "-",
    ).concat(u64_to_dec(now).as_str());
    proof {
        reveal_strlit("gazpacho-");
        assert(r@ =~= snapshot_label_seq(now as int));
    }
    r
}

} // verus!
